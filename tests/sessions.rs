use pty_sessions::session::{
    pty_kill, pty_resize, pty_write, register_session, PtyError, Registry, Session, SessionIo,
};

#[derive(Default)]
struct Recorder {
    written: Vec<u8>,
    flushes: usize,
    size: Option<(u16, u16)>,
    fail_write: bool,
    fail_flush: bool,
    fail_resize: bool,
}

impl SessionIo for Recorder {
    fn write_all(&mut self, data: &[u8]) -> Result<(), String> {
        if self.fail_write {
            return Err("broken pipe".to_string());
        }
        self.written.extend_from_slice(data);
        Ok(())
    }

    fn flush(&mut self) -> Result<(), String> {
        if self.fail_flush {
            return Err("device gone".to_string());
        }
        self.flushes += 1;
        Ok(())
    }

    fn resize(&mut self, cols: u16, rows: u16) -> Result<(), String> {
        if self.fail_resize {
            return Err("bad size".to_string());
        }
        self.size = Some((cols, rows));
        Ok(())
    }
}

fn is_uuid_text(s: &str) -> bool {
    let chars: Vec<char> = s.chars().collect();
    chars.len() == 36
        && chars.iter().enumerate().all(|(i, c)| {
            if i == 8 || i == 13 || i == 18 || i == 23 {
                *c == '-'
            } else {
                c.is_ascii_digit() || ('a'..='f').contains(c)
            }
        })
        && chars[14] == '4'
}

#[test]
fn spawned_id_is_uuid_and_live() {
    let mut reg: Registry<Session<Recorder>> = Registry::new();
    let r = register_session(&mut reg, [1; 16], Session::new(Recorder::default(), 80, 24)).unwrap();
    assert!(is_uuid_text(&r.pty_id), "{}", r.pty_id);
    assert!(reg.contains(&r.pty_id));
    assert!(!reg.contains(&"other".to_string()));
}

#[test]
fn two_sessions_are_distinct_and_independent() {
    let mut reg: Registry<Session<Recorder>> = Registry::new();
    let a = register_session(&mut reg, [2; 16], Session::new(Recorder::default(), 80, 24)).unwrap().pty_id;
    let b = register_session(&mut reg, [3; 16], Session::new(Recorder::default(), 80, 24)).unwrap().pty_id;
    assert_ne!(a, b);
    assert_eq!(pty_write(&mut reg, &a, &"echo A\n".to_string()), Ok(()));
    assert_eq!(pty_write(&mut reg, &b, &"echo B\n".to_string()), Ok(()));
    assert_eq!(pty_kill(&mut reg, &a), Ok(()));
    assert!(!reg.contains(&a));
    assert!(reg.contains(&b));
    assert_eq!(pty_write(&mut reg, &b, &"ls\n".to_string()), Ok(()));
    let handle = reg.remove(&b).unwrap().into_io();
    assert_eq!(handle.written, b"echo B\nls\n".to_vec());
    assert_eq!(handle.flushes, 2);
}

#[test]
fn write_to_unknown_session_is_not_found() {
    let mut reg: Registry<Session<Recorder>> = Registry::new();
    let r = pty_write(&mut reg, &"nope".to_string(), &"x".to_string());
    assert_eq!(r, Err(PtyError::SessionNotFound("nope".to_string())));
}

#[test]
fn write_after_kill_is_not_found() {
    let mut reg: Registry<Session<Recorder>> = Registry::new();
    let id = register_session(&mut reg, [4; 16], Session::new(Recorder::default(), 80, 24)).unwrap().pty_id;
    assert_eq!(pty_kill(&mut reg, &id), Ok(()));
    let r = pty_write(&mut reg, &id, &"pwd\n".to_string());
    assert_eq!(r, Err(PtyError::SessionNotFound(id.clone())));
}

#[test]
fn kill_unknown_is_not_found_and_keeps_others() {
    let mut reg: Registry<Session<Recorder>> = Registry::new();
    let id = register_session(&mut reg, [5; 16], Session::new(Recorder::default(), 80, 24)).unwrap().pty_id;
    let r = pty_kill(&mut reg, &"missing".to_string());
    assert_eq!(r, Err(PtyError::SessionNotFound("missing".to_string())));
    assert!(reg.contains(&id));
    assert_eq!(pty_write(&mut reg, &id, &"ok".to_string()), Ok(()));
}

#[test]
fn write_failure_keeps_session() {
    let mut reg: Registry<Session<Recorder>> = Registry::new();
    let rec = Recorder { fail_write: true, ..Recorder::default() };
    let id = register_session(&mut reg, [6; 16], Session::new(rec, 80, 24)).unwrap().pty_id;
    let r = pty_write(&mut reg, &id, &"x".to_string());
    assert_eq!(r, Err(PtyError::Write("broken pipe".to_string())));
    assert!(reg.contains(&id));
}

#[test]
fn flush_failure_keeps_session() {
    let mut reg: Registry<Session<Recorder>> = Registry::new();
    let rec = Recorder { fail_flush: true, ..Recorder::default() };
    let id = register_session(&mut reg, [7; 16], Session::new(rec, 80, 24)).unwrap().pty_id;
    let r = pty_write(&mut reg, &id, &"x".to_string());
    assert_eq!(r, Err(PtyError::Flush("device gone".to_string())));
    assert!(reg.contains(&id));
}

#[test]
fn resize_reaches_the_session() {
    let mut reg: Registry<Session<Recorder>> = Registry::new();
    let id = register_session(&mut reg, [8; 16], Session::new(Recorder::default(), 80, 24)).unwrap().pty_id;
    assert_eq!(pty_resize(&mut reg, &id, 120, 40), Ok(()));
    assert_eq!(reg.remove(&id).unwrap().io().size, Some((120, 40)));
}

#[test]
fn resize_unknown_is_not_found() {
    let mut reg: Registry<Session<Recorder>> = Registry::new();
    let r = pty_resize(&mut reg, &"ghost".to_string(), 80, 24);
    assert_eq!(r, Err(PtyError::SessionNotFound("ghost".to_string())));
}

#[test]
fn resize_failure_is_reported() {
    let mut reg: Registry<Session<Recorder>> = Registry::new();
    let rec = Recorder { fail_resize: true, ..Recorder::default() };
    let id = register_session(&mut reg, [9; 16], Session::new(rec, 80, 24)).unwrap().pty_id;
    let r = pty_resize(&mut reg, &id, 0, 0);
    assert_eq!(r, Err(PtyError::Resize("bad size".to_string())));
    assert!(reg.contains(&id));
}

#[test]
fn minted_id_is_never_reused() {
    let mut reg: Registry<Session<Recorder>> = Registry::new();
    let id = register_session(&mut reg, [7; 16], Session::new(Recorder::default(), 80, 24)).unwrap().pty_id;
    let again = register_session(&mut reg, [7; 16], Session::new(Recorder::default(), 80, 24));
    assert_eq!(again, Err(PtyError::Identifier("identifier already issued".to_string())));
    assert_eq!(pty_kill(&mut reg, &id), Ok(()));
    assert!(reg.was_issued(&id));
    let after_kill = register_session(&mut reg, [7; 16], Session::new(Recorder::default(), 80, 24));
    assert!(after_kill.is_err());
    assert!(!reg.contains(&id));
}

#[test]
fn id_comes_from_the_random_bytes() {
    let mut reg: Registry<Session<Recorder>> = Registry::new();
    let id = register_session(&mut reg, [0xab; 16], Session::new(Recorder::default(), 80, 24)).unwrap().pty_id;
    assert_eq!(id, "abababab-abab-4bab-abab-abababababab");
}

#[test]
fn utf8_bytes_reach_the_handle() {
    let mut reg: Registry<Session<Recorder>> = Registry::new();
    let id = register_session(&mut reg, [3; 16], Session::new(Recorder::default(), 80, 24)).unwrap().pty_id;
    assert_eq!(pty_write(&mut reg, &id, &"h\u{e9}llo".to_string()), Ok(()));
    let rec = reg.remove(&id).unwrap().into_io();
    assert_eq!(rec.written, "h\u{e9}llo".as_bytes().to_vec());
    assert_eq!(rec.flushes, 1);
}

#[test]
fn error_messages() {
    let id = "abc".to_string();
    assert_eq!(
        PtyError::SessionNotFound(id).message(),
        "PTY session abc not found"
    );
    assert_eq!(
        PtyError::Allocation("no pty".to_string()).message(),
        "Failed to open PTY: no pty"
    );
    assert_eq!(
        PtyError::Spawn("not found".to_string()).message(),
        "Failed to spawn shell: not found"
    );
    assert_eq!(
        PtyError::Handle("take writer: busy".to_string()).message(),
        "Failed to take writer: busy"
    );
    assert_eq!(
        PtyError::Write("e".to_string()).message(),
        "Failed to write to PTY: e"
    );
    assert_eq!(
        PtyError::Flush("e".to_string()).message(),
        "Failed to flush PTY: e"
    );
    assert_eq!(
        PtyError::Resize("e".to_string()).message(),
        "Failed to resize PTY: e"
    );
    assert_eq!(
        PtyError::Identifier("taken".to_string()).message(),
        "Failed to mint session identifier: taken"
    );
}
