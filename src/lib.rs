//! Pseudo-terminal session management: the registry of live sessions, the
//! commands that act on it, the shell-selection policy and the output pump.

pub mod ident;
pub mod pump;
pub mod session;
pub mod shell;
