use vstd::prelude::*;
use vstd::string::StringExecFns;

use crate::ident::{is_uuid_text, uuid_text, uuid_text_of};

verus! {

/// The I/O capabilities that a live session keeps: the sink bound to the
/// master end of its terminal, and the control over that terminal's size.
///
/// Every outcome is up to the operating system: the library makes no claim
/// about what these calls return.
pub trait SessionIo {
    /// Writes all of `data` to the terminal; an error carries the system's text.
    fn write_all(&mut self, data: &[u8]) -> Result<(), String>;

    /// Flushes what was written.
    fn flush(&mut self) -> Result<(), String>;

    /// Sets the window size that the shell sees.
    fn resize(&mut self, cols: u16, rows: u16) -> Result<(), String>;
}

/// A live session's handle, with a record of what was done through it: the
/// bytes handed to it and reported written, the part of those reported
/// flushed, and the window size last reported applied.
pub struct Session<W> {
    io: W,
    sent: Ghost<Seq<u8>>,
    flushed: Ghost<Seq<u8>>,
    size: Ghost<(u16, u16)>,
}

impl<W> Session<W> {
    /// The bytes written to the terminal through this handle, in order.
    pub closed spec fn sent(&self) -> Seq<u8> {
        self.sent@
    }

    /// The bytes that were written and then flushed.
    pub closed spec fn flushed(&self) -> Seq<u8> {
        self.flushed@
    }

    /// The window size, as columns and rows.
    pub closed spec fn size(&self) -> (u16, u16) {
        self.size@
    }

    /// A session over `io`, whose terminal was opened at `cols` by `rows`.
    pub fn new(io: W, cols: u16, rows: u16) -> (r: Self)
        ensures
            r.sent() == Seq::<u8>::empty(),
            r.flushed() == Seq::<u8>::empty(),
            r.size() == (cols, rows),
    {
        Session { io, sent: Ghost(Seq::empty()), flushed: Ghost(Seq::empty()), size: Ghost((cols, rows)) }
    }

    /// The handle itself.
    pub fn io(&self) -> &W {
        &self.io
    }

    /// Gives up the record and hands back the handle.
    pub fn into_io(self) -> W {
        self.io
    }
}

impl<W: SessionIo> Session<W> {
    /// Writes `data` to the terminal.
    pub fn write_all(&mut self, data: &[u8]) -> (r: Result<(), String>)
        ensures
            final(self).size() == old(self).size(),
            final(self).flushed() == old(self).flushed(),
            r is Ok ==> final(self).sent() == old(self).sent() + data@,
            r is Err ==> final(self).sent() == old(self).sent(),
    {
        let r = self.io.write_all(data);
        if r.is_ok() {
            self.sent = Ghost(self.sent@ + data@);
        }
        r
    }

    /// Flushes what was written.
    pub fn flush(&mut self) -> (r: Result<(), String>)
        ensures
            final(self).size() == old(self).size(),
            final(self).sent() == old(self).sent(),
            r is Ok ==> final(self).flushed() == old(self).sent(),
            r is Err ==> final(self).flushed() == old(self).flushed(),
    {
        let r = self.io.flush();
        if r.is_ok() {
            self.flushed = Ghost(self.sent@);
        }
        r
    }

    /// Sets the window size that the shell sees.
    pub fn resize(&mut self, cols: u16, rows: u16) -> (r: Result<(), String>)
        ensures
            final(self).sent() == old(self).sent(),
            final(self).flushed() == old(self).flushed(),
            r is Ok ==> final(self).size() == (cols, rows),
            r is Err ==> final(self).size() == old(self).size(),
    {
        let r = self.io.resize(cols, rows);
        if r.is_ok() {
            self.size = Ghost((cols, rows));
        }
        r
    }
}

/// Why an operation on a session failed.
#[derive(Debug, Clone, PartialEq, Eq)]
pub enum PtyError {
    /// No pseudo-terminal pair could be allocated; carries the system's text.
    Allocation(String),
    /// The shell could not be started on the terminal; carries the system's text.
    Spawn(String),
    /// The writer or reader of the master end could not be obtained; carries
    /// what was attempted and the system's text.
    Handle(String),
    /// No live session has this identifier.
    SessionNotFound(String),
    /// Forwarding input to the shell failed.
    Write(String),
    /// Flushing the forwarded input failed.
    Flush(String),
    /// The identifier minted for a new session was issued before.
    Identifier(String),
    /// The new window size could not be applied.
    Resize(String),
}

/// The text that a message starts with, for each kind of error.
pub open spec fn error_prefix(e: PtyError) -> Seq<char> {
    match e {
        PtyError::Allocation(_) => "Failed to open PTY: "@,
        PtyError::Spawn(_) => "Failed to spawn shell: "@,
        PtyError::Handle(_) => "Failed to "@,
        PtyError::SessionNotFound(_) => "PTY session "@,
        PtyError::Write(_) => "Failed to write to PTY: "@,
        PtyError::Flush(_) => "Failed to flush PTY: "@,
        PtyError::Identifier(_) => "Failed to mint session identifier: "@,
        PtyError::Resize(_) => "Failed to resize PTY: "@,
    }
}

/// The text that an error carries.
pub open spec fn error_detail(e: PtyError) -> Seq<char> {
    match e {
        PtyError::Allocation(s) => s@,
        PtyError::Spawn(s) => s@,
        PtyError::Handle(s) => s@,
        PtyError::SessionNotFound(s) => s@,
        PtyError::Write(s) => s@,
        PtyError::Flush(s) => s@,
        PtyError::Identifier(s) => s@,
        PtyError::Resize(s) => s@,
    }
}

/// The message that an error is reported with.
pub open spec fn error_message(e: PtyError) -> Seq<char> {
    match e {
        PtyError::SessionNotFound(id) => "PTY session "@ + id@ + " not found"@,
        _ => error_prefix(e) + error_detail(e),
    }
}

impl PtyError {
    /// The message that this error is reported with.
    pub fn message(&self) -> (r: String)
        ensures
            r@ == error_message(*self),
    {
        match self {
            PtyError::Allocation(s) => String::from_str("Failed to open PTY: ").concat(s.as_str()),
            PtyError::Spawn(s) => String::from_str("Failed to spawn shell: ").concat(s.as_str()),
            PtyError::Handle(s) => String::from_str("Failed to ").concat(s.as_str()),
            PtyError::SessionNotFound(s) => String::from_str("PTY session ").concat(
                s.as_str(),
            ).concat(" not found"),
            PtyError::Write(s) => String::from_str("Failed to write to PTY: ").concat(s.as_str()),
            PtyError::Flush(s) => String::from_str("Failed to flush PTY: ").concat(s.as_str()),
            PtyError::Identifier(s) => String::from_str("Failed to mint session identifier: ").concat(
                s.as_str(),
            ),
            PtyError::Resize(s) => String::from_str("Failed to resize PTY: ").concat(s.as_str()),
        }
    }
}

/// Whether `r` reports that no live session has identifier `id`.
pub open spec fn is_not_found(r: Result<(), PtyError>, id: Seq<char>) -> bool {
    match r {
        Err(PtyError::SessionNotFound(s)) => s@ == id,
        _ => false,
    }
}

/// What a successful spawn hands back: the new session's identifier.
#[derive(Debug, Clone, PartialEq, Eq)]
pub struct PtySpawnResult {
    pub pty_id: String,
}

/// The table of live sessions: each identifier maps to the session's handle.
///
/// Entries are kept in a vector whose keys are pairwise distinct; the order
/// of the entries carries no meaning. The table also remembers every
/// identifier it ever issued, so that none is handed out twice.
pub struct Registry<W> {
    entries: Vec<(String, W)>,
    issued: Vec<String>,
}

/// The keys of a sequence of entries.
pub open spec fn keys_of<W>(entries: Seq<(String, W)>) -> Seq<Seq<char>> {
    entries.map_values(|e: (String, W)| e.0@)
}

/// The map that a sequence of entries with distinct keys stands for.
pub open spec fn map_of<W>(entries: Seq<(String, W)>) -> Map<Seq<char>, W>
    decreases entries.len(),
{
    if entries.len() == 0 {
        Map::empty()
    } else {
        let last = entries.last();
        map_of(entries.drop_last()).insert(last.0@, last.1)
    }
}


proof fn lemma_keys_drop_last<W>(e: Seq<(String, W)>)
    requires
        e.len() > 0,
    ensures
        keys_of(e) == keys_of(e.drop_last()).push(e.last().0@),
        keys_of(e).no_duplicates() ==> keys_of(e.drop_last()).no_duplicates(),
        keys_of(e).no_duplicates() ==> !keys_of(e.drop_last()).contains(e.last().0@),
{
    assert(keys_of(e) =~= keys_of(e.drop_last()).push(e.last().0@));
    if keys_of(e).no_duplicates() {
        let d = keys_of(e.drop_last());
        assert forall|a: int, b: int| 0 <= a < d.len() && 0 <= b < d.len() && a != b implies d[a]
            != d[b] by {
            assert(d[a] == keys_of(e)[a] && d[b] == keys_of(e)[b]);
        }
        if d.contains(e.last().0@) {
            let j = choose|j: int| 0 <= j < d.len() && d[j] == e.last().0@;
            assert(keys_of(e)[j] == keys_of(e)[e.len() - 1]);
        }
    }
}

proof fn lemma_dom<W>(e: Seq<(String, W)>)
    ensures
        forall|k: Seq<char>| #[trigger] map_of(e).contains_key(k) <==> keys_of(e).contains(k),
    decreases e.len(),
{
    if e.len() > 0 {
        lemma_dom(e.drop_last());
        lemma_keys_drop_last(e);
        let d = keys_of(e.drop_last());
        assert(map_of(e) == map_of(e.drop_last()).insert(e.last().0@, e.last().1));
        assert forall|k: Seq<char>| #[trigger] map_of(e).contains_key(k) <==> keys_of(e).contains(
            k,
        ) by {
            assert(map_of(e.drop_last()).contains_key(k) <==> d.contains(k));
            if k == e.last().0@ {
                assert(keys_of(e)[e.len() - 1] == k);
            } else if d.contains(k) {
                let j = choose|j: int| 0 <= j < d.len() && d[j] == k;
                assert(keys_of(e)[j] == k);
            } else if keys_of(e).contains(k) {
                let j = choose|j: int| 0 <= j < e.len() && keys_of(e)[j] == k;
                assert(d[j] == k);
            }
        }
    }
}

proof fn lemma_value<W>(e: Seq<(String, W)>, i: int)
    requires
        keys_of(e).no_duplicates(),
        0 <= i < e.len(),
    ensures
        map_of(e).contains_key(e[i].0@),
        map_of(e)[e[i].0@] == e[i].1,
    decreases e.len(),
{
    lemma_keys_drop_last(e);
    if i < e.len() - 1 {
        lemma_value(e.drop_last(), i);
        assert(keys_of(e)[i] != keys_of(e)[e.len() - 1]);
    }
}

proof fn lemma_update<W>(e: Seq<(String, W)>, i: int, k: String, v: W)
    requires
        keys_of(e).no_duplicates(),
        0 <= i < e.len(),
        k@ == e[i].0@,
    ensures
        map_of(e.update(i, (k, v))) == map_of(e).insert(k@, v),
        keys_of(e.update(i, (k, v))) == keys_of(e),
    decreases e.len(),
{
    let u = e.update(i, (k, v));
    assert(keys_of(u) =~= keys_of(e));
    lemma_keys_drop_last(e);
    if i == e.len() - 1 {
        assert(u.drop_last() =~= e.drop_last());
        assert(map_of(u) =~= map_of(e).insert(e[i].0@, v));
    } else {
        assert(u.drop_last() =~= e.drop_last().update(i, (k, v)));
        lemma_update(e.drop_last(), i, k, v);
        assert(keys_of(e)[i] != keys_of(e)[e.len() - 1]);
        assert(map_of(u) =~= map_of(e).insert(e[i].0@, v));
    }
}

proof fn lemma_remove<W>(e: Seq<(String, W)>, i: int)
    requires
        keys_of(e).no_duplicates(),
        0 <= i < e.len(),
    ensures
        map_of(e.remove(i)) == map_of(e).remove(e[i].0@),
        keys_of(e.remove(i)) == keys_of(e).remove(i),
        keys_of(e.remove(i)).no_duplicates(),
    decreases e.len(),
{
    let r = e.remove(i);
    let k = keys_of(e);
    assert(keys_of(r) =~= k.remove(i));
    assert forall|a: int, b: int|
        0 <= a < r.len() && 0 <= b < r.len() && a != b implies keys_of(r)[a] != keys_of(r)[b] by {
        let oa = if a < i { a } else { a + 1 };
        let ob = if b < i { b } else { b + 1 };
        assert(keys_of(r)[a] == k[oa] && keys_of(r)[b] == k[ob]);
    }
    lemma_keys_drop_last(e);
    if i == e.len() - 1 {
        assert(r =~= e.drop_last());
        lemma_dom(e.drop_last());
        assert(map_of(r) =~= map_of(e).remove(e[i].0@));
    } else {
        assert(r.drop_last() =~= e.drop_last().remove(i));
        assert(r.last() == e.last());
        lemma_remove(e.drop_last(), i);
        assert(k[i] != k[e.len() - 1]);
        assert(map_of(r) =~= map_of(e).remove(e[i].0@));
    }
}

impl<W> Registry<W> {
    /// Identifiers of the live sessions, mapped to their handles.
    pub closed spec fn view(&self) -> Map<Seq<char>, W> {
        map_of(self.entries@)
    }

    /// Every identifier this table has issued, live or not.
    pub closed spec fn issued(&self) -> Set<Seq<char>> {
        Set::new(|k: Seq<char>| self.issued@.map_values(|s: String| s@).contains(k))
    }

    /// No identifier occurs twice among the entries, and every live one was
    /// issued by this table.
    pub closed spec fn wf(&self) -> bool {
        &&& keys_of(self.entries@).no_duplicates()
        &&& forall|k: Seq<char>| #[trigger] self@.contains_key(k) ==> self.issued().contains(k)
    }

    /// Every live session's identifier was issued by this table.
    pub proof fn lemma_live_were_issued(&self, id: Seq<char>)
        requires
            self.wf(),
            self@.contains_key(id),
        ensures
            self.issued().contains(id),
    {
    }

    /// An empty registry that has issued nothing.
    pub fn new() -> (r: Self)
        ensures
            r.wf(),
            r@ == Map::<Seq<char>, W>::empty(),
            r.issued() == Set::<Seq<char>>::empty(),
    {
        let r = Registry { entries: Vec::new(), issued: Vec::new() };
        assert(r.issued() =~= Set::<Seq<char>>::empty());
        r
    }

    /// Whether this table ever issued `id`.
    pub fn was_issued(&self, id: &String) -> (r: bool)
        ensures
            r == self.issued().contains(id@),
    {
        let mut i: usize = 0;
        while i < self.issued.len()
            invariant
                i <= self.issued@.len(),
                forall|j: int| 0 <= j < i ==> #[trigger] self.issued@[j]@ != id@,
            decreases self.issued@.len() - i,
        {
            if self.issued[i] == *id {
                assert(self.issued@.map_values(|s: String| s@)[i as int] == id@);
                return true;
            }
            i = i + 1;
        }
        let ghost t = self.issued@.map_values(|s: String| s@);
        assert(!t.contains(id@)) by {
            if t.contains(id@) {
                let j = choose|j: int| 0 <= j < t.len() && #[trigger] t[j] == id@;
                assert(self.issued@[j]@ == id@);
            }
        }
        false
    }

    /// Records `id` as issued.
    fn record_issued(&mut self, id: String)
        requires
            old(self).wf(),
        ensures
            final(self).wf(),
            final(self)@ == old(self)@,
            final(self).issued() == old(self).issued().insert(id@),
    {
        let ghost t0 = self.issued@.map_values(|s: String| s@);
        let ghost k = id@;
        self.issued.push(id);
        let ghost t1 = self.issued@.map_values(|s: String| s@);
        assert(t1 =~= t0.push(k));
        assert forall|x: Seq<char>| #[trigger] t1.contains(x) <==> t0.contains(x) || x == k by {
            if t0.contains(x) {
                let j = choose|j: int| 0 <= j < t0.len() && t0[j] == x;
                assert(t1[j] == x);
            }
            if x == k {
                assert(t1[t0.len() as int] == x);
            }
            if t1.contains(x) {
                let j = choose|j: int| 0 <= j < t1.len() && t1[j] == x;
                if j < t0.len() {
                    assert(t0[j] == x);
                }
            }
        }
        assert(self.issued() =~= old(self).issued().insert(k));
        assert forall|x: Seq<char>| #[trigger] self@.contains_key(x) implies self.issued().contains(
            x,
        ) by {
            assert(old(self)@.contains_key(x));
        }
    }

    /// Where `id` stands among the entries, if anywhere.
    fn find(&self, id: &String) -> (r: Option<usize>)
        requires
            self.wf(),
        ensures
            match r {
                Some(i) => i < self.entries@.len() && self.entries@[i as int].0@ == id@,
                None => !self@.contains_key(id@),
            },
    {
        proof {
            lemma_dom(self.entries@);
        }
        let mut i: usize = 0;
        while i < self.entries.len()
            invariant
                i <= self.entries@.len(),
                forall|j: int| 0 <= j < i ==> #[trigger] keys_of(self.entries@)[j] != id@,
            decreases self.entries@.len() - i,
        {
            if self.entries[i].0 == *id {
                return Some(i);
            }
            i = i + 1;
        }
        None
    }

    /// Whether a live session has identifier `id`.
    pub fn contains(&self, id: &String) -> (r: bool)
        requires
            self.wf(),
        ensures
            r == self@.contains_key(id@),
    {
        match self.find(id) {
            Some(i) => {
                proof {
                    lemma_value(self.entries@, i as int);
                }
                true
            },
            None => false,
        }
    }

    /// Binds `id`, which this table issued, to `handle`, replacing the handle
    /// it had, if any.
    fn insert(&mut self, id: String, handle: W)
        requires
            old(self).wf(),
            old(self).issued().contains(id@),
        ensures
            final(self).wf(),
            final(self)@ == old(self)@.insert(id@, handle),
            final(self).issued() == old(self).issued(),
    {
        let ghost pre = self@;
        let ghost pre_issued = self.issued();
        let ghost k0 = id@;
        match self.find(&id) {
            Some(i) => {
                let ghost e = self.entries@;
                proof {
                    lemma_update(e, i as int, id, handle);
                }
                self.entries.set(i, (id, handle));
            },
            None => {
                proof {
                    lemma_dom(self.entries@);
                }
                let ghost e = self.entries@;
                self.entries.push((id, handle));
                assert(self.entries@.drop_last() =~= e);
                proof {
                    lemma_keys_drop_last(self.entries@);
                    let k = keys_of(self.entries@);
                    assert forall|a: int, b: int|
                        0 <= a < k.len() && 0 <= b < k.len() && a != b implies k[a] != k[b] by {
                        if a == k.len() - 1 {
                            assert(keys_of(e)[b] == k[b]);
                        } else if b == k.len() - 1 {
                            assert(keys_of(e)[a] == k[a]);
                        } else {
                            assert(keys_of(e)[a] == k[a] && keys_of(e)[b] == k[b]);
                        }
                    }
                }
            },
        }
        assert(self.issued() =~= pre_issued);
        assert forall|k: Seq<char>| #[trigger] self@.contains_key(k) implies self.issued().contains(
            k,
        ) by {
            if k != k0 {
                assert(pre.contains_key(k));
            }
        }
    }

    /// Takes the session `id` out of the table, handing back its handle.
    pub fn remove(&mut self, id: &String) -> (r: Option<W>)
        requires
            old(self).wf(),
        ensures
            final(self).wf(),
            final(self)@ == old(self)@.remove(id@),
            final(self).issued() == old(self).issued(),
            r == (if old(self)@.contains_key(id@) {
                Some(old(self)@[id@])
            } else {
                None
            }),
    {
        let ghost pre = self@;
        let ghost pre_issued = self.issued();
        let r = match self.find(id) {
            Some(i) => {
                proof {
                    lemma_value(self.entries@, i as int);
                    lemma_remove(self.entries@, i as int);
                }
                let (_, handle) = self.entries.remove(i);
                Some(handle)
            },
            None => {
                assert(self@.remove(id@) =~= self@);
                None
            },
        };
        assert(self.issued() =~= pre_issued);
        assert forall|k: Seq<char>| #[trigger] self@.contains_key(k) implies self.issued().contains(
            k,
        ) by {
            assert(pre.contains_key(k));
        }
        r
    }
}

/// Records a new live session for `handle` under the identifier minted from
/// `random`, and hands that identifier back. An identifier is never issued
/// twice: if the minted one was issued before, nothing changes and the
/// session is refused.
pub fn register_session<W>(reg: &mut Registry<W>, random: [u8; 16], handle: W) -> (r: Result<
    PtySpawnResult,
    PtyError,
>)
    requires
        old(reg).wf(),
    ensures
        final(reg).wf(),
        r is Ok <==> !old(reg).issued().contains(uuid_text_of(random@)),
        r matches Ok(s) ==> {
            &&& s.pty_id@ == uuid_text_of(random@)
            &&& is_uuid_text(s.pty_id@)
            &&& !old(reg)@.contains_key(s.pty_id@)
            &&& final(reg)@ == old(reg)@.insert(s.pty_id@, handle)
            &&& final(reg).issued() == old(reg).issued().insert(s.pty_id@)
        },
        r matches Err(e) ==> {
            &&& e is Identifier
            &&& final(reg)@ == old(reg)@
            &&& final(reg).issued() == old(reg).issued()
        },
{
    let pty_id = uuid_text(random);
    if reg.was_issued(&pty_id) {
        return Err(PtyError::Identifier(String::from_str("identifier already issued")));
    }
    reg.record_issued(pty_id.clone());
    reg.insert(pty_id.clone(), handle);
    Ok(PtySpawnResult { pty_id })
}

/// Forwards `data` to the shell of session `pty_id` and flushes it.
///
/// A failed write or flush leaves the session live; only the handle of
/// `pty_id` may change.
pub fn pty_write<W: SessionIo>(reg: &mut Registry<Session<W>>, pty_id: &String, data: &String) -> (r: Result<
    (),
    PtyError,
>)
    requires
        old(reg).wf(),
    ensures
        final(reg).wf(),
        final(reg).issued() == old(reg).issued(),
        !old(reg)@.contains_key(pty_id@) ==> final(reg)@ == old(reg)@ && is_not_found(r, pty_id@),
        old(reg)@.contains_key(pty_id@) ==> {
            let before = old(reg)@[pty_id@];
            let after = final(reg)@[pty_id@];
            &&& final(reg)@ == old(reg)@.insert(pty_id@, after)
            &&& after.size() == before.size()
            &&& r is Ok ==> after.sent() == before.sent() + vstd::utf8::encode_utf8(data@)
                && after.flushed() == after.sent()
            &&& r matches Err(e) ==> e is Write || e is Flush
            &&& r matches Err(PtyError::Write(_)) ==> after.sent() == before.sent()
                && after.flushed() == before.flushed()
            &&& r matches Err(PtyError::Flush(_)) ==> after.sent() == before.sent()
                + vstd::utf8::encode_utf8(data@) && after.flushed() == before.flushed()
        },
{
    match reg.find(pty_id) {
        None => Err(PtyError::SessionNotFound(pty_id.clone())),
        Some(i) => {
            let ghost e = reg.entries@;
            let ghost pre = reg@;
            let ghost pre_issued = reg.issued();
            proof {
                lemma_value(e, i as int);
            }
            let entry = &mut reg.entries[i];
            let written = entry.1.write_all(data.as_str().as_bytes());
            let r = match written {
                Err(msg) => Err(PtyError::Write(msg)),
                Ok(()) => match entry.1.flush() {
                    Err(msg) => Err(PtyError::Flush(msg)),
                    Ok(()) => Ok(()),
                },
            };
            proof {
                let k = e[i as int].0;
                assert(reg.entries@ == e.update(i as int, (k, reg.entries@[i as int].1)));
                lemma_update(e, i as int, k, reg.entries@[i as int].1);
                lemma_value(reg.entries@, i as int);
                assert(reg.issued() =~= pre_issued);
                assert forall|x: Seq<char>| #[trigger] reg@.contains_key(x) implies reg.issued().contains(
                    x,
                ) by {
                    assert(pre.contains_key(x));
                }
            }
            r
        },
    }
}

/// Applies a new window size to the terminal of session `pty_id`.
///
/// Only the handle of `pty_id` may change, and only in its size; the session
/// stays live either way.
pub fn pty_resize<W: SessionIo>(reg: &mut Registry<Session<W>>, pty_id: &String, cols: u16, rows: u16) -> (r:
    Result<(), PtyError>)
    requires
        old(reg).wf(),
    ensures
        final(reg).wf(),
        final(reg).issued() == old(reg).issued(),
        !old(reg)@.contains_key(pty_id@) ==> final(reg)@ == old(reg)@ && is_not_found(r, pty_id@),
        old(reg)@.contains_key(pty_id@) ==> {
            let before = old(reg)@[pty_id@];
            let after = final(reg)@[pty_id@];
            &&& final(reg)@ == old(reg)@.insert(pty_id@, after)
            &&& after.sent() == before.sent()
            &&& after.flushed() == before.flushed()
            &&& r is Ok ==> after.size() == (cols, rows)
            &&& r is Err ==> after.size() == before.size() && r matches Err(PtyError::Resize(_))
        },
{
    match reg.find(pty_id) {
        None => Err(PtyError::SessionNotFound(pty_id.clone())),
        Some(i) => {
            let ghost e = reg.entries@;
            let ghost pre = reg@;
            let ghost pre_issued = reg.issued();
            proof {
                lemma_value(e, i as int);
            }
            let entry = &mut reg.entries[i];
            let r = match entry.1.resize(cols, rows) {
                Err(msg) => Err(PtyError::Resize(msg)),
                Ok(()) => Ok(()),
            };
            proof {
                let k = e[i as int].0;
                assert(reg.entries@ == e.update(i as int, (k, reg.entries@[i as int].1)));
                lemma_update(e, i as int, k, reg.entries@[i as int].1);
                lemma_value(reg.entries@, i as int);
                assert(reg.issued() =~= pre_issued);
                assert forall|x: Seq<char>| #[trigger] reg@.contains_key(x) implies reg.issued().contains(
                    x,
                ) by {
                    assert(pre.contains_key(x));
                }
            }
            r
        },
    }
}

/// Ends session `pty_id`: its entry leaves the table, and with it the handle.
pub fn pty_kill<W>(reg: &mut Registry<W>, pty_id: &String) -> (r: Result<(), PtyError>)
    requires
        old(reg).wf(),
    ensures
        final(reg).wf(),
        final(reg)@ == old(reg)@.remove(pty_id@),
        final(reg).issued() == old(reg).issued(),
        r is Ok <==> old(reg)@.contains_key(pty_id@),
        !old(reg)@.contains_key(pty_id@) ==> is_not_found(r, pty_id@),
{
    match reg.remove(pty_id) {
        Some(_) => Ok(()),
        None => Err(PtyError::SessionNotFound(pty_id.clone())),
    }
}

/// Once a session has been killed, writing to it fails with `SessionNotFound`:
/// the table that `pty_kill` leaves no longer holds the identifier, which is
/// the case in which `pty_write` reports it.
pub proof fn lemma_write_after_kill<W>(before: Map<Seq<char>, W>, after: Map<Seq<char>, W>, id: Seq<
    char,
>)
    requires
        after == before.remove(id),
    ensures
        !after.contains_key(id),
{
}

/// Killing an unknown session leaves the table as it was, and killing any
/// session leaves every other session and its handle in place.
pub proof fn lemma_kill_keeps_others<W>(before: Map<Seq<char>, W>, id: Seq<char>)
    ensures
        !before.contains_key(id) ==> before.remove(id) == before,
        forall|k: Seq<char>|
            k != id ==> (#[trigger] before.remove(id).contains_key(k) <==> before.contains_key(k)),
        forall|k: Seq<char>|
            k != id && before.contains_key(k) ==> #[trigger] before.remove(id)[k] == before[k],
{
    if !before.contains_key(id) {
        assert(before.remove(id) =~= before);
    }
}

/// A session that has left the table never becomes live again, and no two
/// spawns share an identifier: every identifier the table issued stays
/// issued, and `register_session` adds only identifiers never issued before.
pub proof fn lemma_no_reissue<W>(reg: Registry<W>, earlier: Seq<char>, minted: Seq<char>)
    requires
        reg.wf(),
        reg.issued().contains(earlier),
        !reg.issued().contains(minted),
    ensures
        minted != earlier,
        !reg@.contains_key(minted),
{
}

} // verus!
