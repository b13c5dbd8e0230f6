use vstd::prelude::*;

use crate::session::Registry;

verus! {

/// One outcome of a read from a session's master end: the bytes read (none
/// at all when the stream has ended), or a failure.
#[derive(Debug, Clone, PartialEq, Eq)]
pub enum ReadOutcome {
    Bytes(Vec<u8>),
    Failed,
}

/// A chunk of a session's output, decoded as text. An empty chunk marks the
/// end of the stream.
#[derive(Debug, Clone, PartialEq, Eq)]
pub struct PtyOutput {
    pub pty_id: String,
    pub data: String,
}

/// What the pump reports to its consumer.
#[derive(Debug, Clone, PartialEq, Eq)]
pub enum PtyEvent {
    /// A chunk of output.
    Output(PtyOutput),
    /// The session has ended; sent once, last.
    Close(String),
}

/// A read outcome as a mathematical value.
pub enum ReadView {
    Bytes(Seq<u8>),
    Failed,
}

/// An event as a mathematical value.
pub enum EventView {
    Output(Seq<char>, Seq<char>),
    Close(Seq<char>),
}

impl ReadOutcome {
    pub open spec fn view(&self) -> ReadView {
        match self {
            ReadOutcome::Bytes(b) => ReadView::Bytes(b@),
            ReadOutcome::Failed => ReadView::Failed,
        }
    }
}

impl PtyEvent {
    pub open spec fn view(&self) -> EventView {
        match self {
            PtyEvent::Output(o) => EventView::Output(o.pty_id@, o.data@),
            PtyEvent::Close(id) => EventView::Close(id@),
        }
    }
}

/// The events of a sequence of exec events, as values.
pub open spec fn events_view(evs: Seq<PtyEvent>) -> Seq<EventView> {
    evs.map_values(|e: PtyEvent| e@)
}

/// The text that lossy UTF-8 decoding makes of `b`: valid sequences are kept
/// and each invalid one becomes a replacement character.
pub uninterp spec fn lossy_text(b: Seq<u8>) -> Seq<char>;

/// Relies on `String::from_utf8_lossy`, which never fails, and replaces an
/// invalid sequence rather than dropping it, so some text comes of any bytes.
#[verifier::external_body]
fn decode_lossy(b: &[u8]) -> (r: String)
    ensures
        r@ == lossy_text(b@),
        b@.len() > 0 ==> r@.len() > 0,
{
    String::from_utf8_lossy(b).into_owned()
}

/// Whether the pump stops after this outcome: the stream ended, or the read
/// failed.
pub open spec fn is_terminal(o: ReadView) -> bool {
    match o {
        ReadView::Bytes(b) => b.len() == 0,
        ReadView::Failed => true,
    }
}

/// The events that one read outcome of session `id` gives: a decoded chunk
/// for bytes; an empty chunk and then the close for the end of the stream;
/// the close alone for a failure.
pub open spec fn step_events(id: Seq<char>, o: ReadView) -> Seq<EventView> {
    match o {
        ReadView::Bytes(b) => if b.len() > 0 {
            seq![EventView::Output(id, lossy_text(b))]
        } else {
            seq![EventView::Output(id, Seq::empty()), EventView::Close(id)]
        },
        ReadView::Failed => seq![EventView::Close(id)],
    }
}

/// All the events of session `id` when its reads give `outs` in turn: each
/// outcome is handled until one stops the pump, and later ones are never read.
pub open spec fn pump_trace(id: Seq<char>, outs: Seq<ReadView>) -> Seq<EventView>
    decreases outs.len(),
{
    if outs.len() == 0 {
        Seq::empty()
    } else if is_terminal(outs[0]) {
        step_events(id, outs[0])
    } else {
        step_events(id, outs[0]) + pump_trace(id, outs.drop_first())
    }
}

/// The number of close events in `evs`.
pub open spec fn close_count(evs: Seq<EventView>) -> nat
    decreases evs.len(),
{
    if evs.len() == 0 {
        0
    } else {
        (if evs[0] is Close {
            1nat
        } else {
            0nat
        }) + close_count(evs.drop_first())
    }
}

proof fn lemma_close_count_append(a: Seq<EventView>, b: Seq<EventView>)
    ensures
        close_count(a + b) == close_count(a) + close_count(b),
    decreases a.len(),
{
    if a.len() == 0 {
        assert(a + b =~= b);
    } else {
        assert((a + b).drop_first() =~= a.drop_first() + b);
        lemma_close_count_append(a.drop_first(), b);
    }
}

proof fn lemma_step_closes(id: Seq<char>, o: ReadView)
    ensures
        close_count(step_events(id, o)) == (if is_terminal(o) {
            1nat
        } else {
            0nat
        }),
        forall|j: int|
            0 <= j < step_events(id, o).len() && #[trigger] step_events(id, o)[j] is Close ==> j
                == step_events(id, o).len() - 1,
{
    let s = step_events(id, o);
    let t = s.drop_first();
    assert(close_count(Seq::<EventView>::empty()) == 0);
    if s.len() == 1 {
        assert(t =~= Seq::<EventView>::empty());
        assert(close_count(s) == (if s[0] is Close {
            1nat
        } else {
            0nat
        }) + close_count(t));
    } else {
        assert(t.drop_first() =~= Seq::<EventView>::empty());
        assert(t[0] == s[1]);
        assert(close_count(t) == 1nat + close_count(t.drop_first()));
        assert(close_count(s) == 0nat + close_count(t));
    }
}

/// A session's pump emits at most one close event, exactly one when some read
/// ends the stream or fails, and nothing after it.
pub proof fn lemma_single_close(id: Seq<char>, outs: Seq<ReadView>)
    ensures
        close_count(pump_trace(id, outs)) <= 1,
        close_count(pump_trace(id, outs)) == 1 <==> exists|i: int|
            0 <= i < outs.len() && is_terminal(#[trigger] outs[i]),
        forall|j: int|
            0 <= j < pump_trace(id, outs).len() && #[trigger] pump_trace(id, outs)[j] is Close
                ==> j == pump_trace(id, outs).len() - 1,
    decreases outs.len(),
{
    if outs.len() > 0 {
        let first = step_events(id, outs[0]);
        lemma_step_closes(id, outs[0]);
        if is_terminal(outs[0]) {
            assert(close_count(first) == 1);
        } else {
            let rest = outs.drop_first();
            lemma_single_close(id, rest);
            lemma_close_count_append(first, pump_trace(id, rest));
            assert(close_count(first) == 0);
            if exists|i: int| 0 <= i < outs.len() && is_terminal(#[trigger] outs[i]) {
                let i = choose|i: int| 0 <= i < outs.len() && is_terminal(#[trigger] outs[i]);
                assert(rest[i - 1] == outs[i]);
            }
            if exists|i: int| 0 <= i < rest.len() && is_terminal(#[trigger] rest[i]) {
                let i = choose|i: int| 0 <= i < rest.len() && is_terminal(#[trigger] rest[i]);
                assert(outs[i + 1] == rest[i]);
            }
            let t = pump_trace(id, outs);
            assert forall|j: int| 0 <= j < t.len() && #[trigger] t[j] is Close implies j == t.len()
                - 1 by {
                assert(j >= 1);
                assert(t[j] == pump_trace(id, rest)[j - 1]);
            }
        }
    }
}

/// While every read yields bytes, the pump emits one chunk per read, in the
/// order of the reads, each the decoding of what was read.
pub proof fn lemma_output_order(id: Seq<char>, outs: Seq<ReadView>)
    requires
        forall|i: int| 0 <= i < outs.len() ==> !is_terminal(#[trigger] outs[i]),
    ensures
        pump_trace(id, outs).len() == outs.len(),
        forall|i: int|
            0 <= i < outs.len() ==> #[trigger] pump_trace(id, outs)[i] == EventView::Output(
                id,
                lossy_text(outs[i]->Bytes_0),
            ),
    decreases outs.len(),
{
    if outs.len() > 0 {
        let rest = outs.drop_first();
        assert forall|i: int| 0 <= i < rest.len() implies !is_terminal(#[trigger] rest[i]) by {
            assert(rest[i] == outs[i + 1]);
        }
        lemma_output_order(id, rest);
        assert(!is_terminal(outs[0]));
        let t = pump_trace(id, outs);
        assert forall|i: int| 0 <= i < outs.len() implies #[trigger] t[i] == EventView::Output(
            id,
            lossy_text(outs[i]->Bytes_0),
        ) by {
            if i > 0 {
                assert(t[i] == pump_trace(id, rest)[i - 1]);
                assert(rest[i - 1] == outs[i]);
            }
        }
    }
}

/// The decisions of one session's output pump.
pub struct OutputPump {
    pub pty_id: String,
    pub running: bool,
}

impl OutputPump {
    /// A running pump for session `pty_id`.
    pub fn new(pty_id: String) -> (r: Self)
        ensures
            r.pty_id == pty_id,
            r.running,
    {
        OutputPump { pty_id, running: true }
    }

    /// Handles one read outcome: hands back the events to report, in order.
    /// When the outcome stops the pump, the session leaves `reg` before its
    /// close event is handed back. A stopped pump does nothing.
    pub fn on_read<W>(&mut self, reg: &mut Registry<W>, outcome: ReadOutcome) -> (events: Vec<
        PtyEvent,
    >)
        requires
            old(reg).wf(),
        ensures
            final(reg).wf(),
            final(reg).issued() == old(reg).issued(),
            final(self).pty_id == old(self).pty_id,
            old(self).running && outcome@ is Bytes && outcome@->Bytes_0.len() > 0 ==> (events@.len()
                == 1 && (events@[0] matches PtyEvent::Output(o) && o.data@.len() > 0)),
            !old(self).running ==> events@.len() == 0 && final(reg)@ == old(reg)@
                && !final(self).running,
            old(self).running ==> events_view(events@) == step_events(
                old(self).pty_id@,
                outcome@,
            ) && final(self).running == !is_terminal(outcome@) && final(reg)@ == (if is_terminal(
                outcome@,
            ) {
                old(reg)@.remove(old(self).pty_id@)
            } else {
                old(reg)@
            }),
    {
        let mut events: Vec<PtyEvent> = Vec::new();
        if !self.running {
            return events;
        }
        match outcome {
            ReadOutcome::Bytes(b) => {
                if b.len() > 0 {
                    let data = decode_lossy(b.as_slice());
                    events.push(PtyEvent::Output(PtyOutput { pty_id: self.pty_id.clone(), data }));
                } else {
                    events.push(
                        PtyEvent::Output(PtyOutput { pty_id: self.pty_id.clone(), data: String::new() }),
                    );
                    self.finish(reg, &mut events);
                }
            },
            ReadOutcome::Failed => {
                self.finish(reg, &mut events);
            },
        }
        assert(events_view(events@) =~= step_events(self.pty_id@, outcome@));
        events
    }

    /// Stops the pump: the session leaves `reg`, then its close event is added.
    fn finish<W>(&mut self, reg: &mut Registry<W>, events: &mut Vec<PtyEvent>)
        requires
            old(reg).wf(),
        ensures
            final(reg).wf(),
            final(reg)@ == old(reg)@.remove(old(self).pty_id@),
            final(reg).issued() == old(reg).issued(),
            final(self).pty_id == old(self).pty_id,
            !final(self).running,
            final(events)@ == old(events)@.push(PtyEvent::Close(final(self).pty_id)),
    {
        let _ = reg.remove(&self.pty_id);
        events.push(PtyEvent::Close(self.pty_id.clone()));
        self.running = false;
    }
}

/// Feeding the pump one more outcome while it still runs appends exactly that
/// outcome's events to the trace: handling reads one at a time, as
/// `OutputPump::on_read` does, builds `pump_trace`.
pub proof fn lemma_trace_extends(id: Seq<char>, outs: Seq<ReadView>, o: ReadView)
    requires
        forall|i: int| 0 <= i < outs.len() ==> !is_terminal(#[trigger] outs[i]),
    ensures
        pump_trace(id, outs.push(o)) == pump_trace(id, outs) + step_events(id, o),
    decreases outs.len(),
{
    if outs.len() == 0 {
        assert(outs.push(o) =~= seq![o]);
        assert(seq![o].drop_first() =~= Seq::<ReadView>::empty());
        assert(pump_trace(id, outs) + step_events(id, o) =~= step_events(id, o));
        if !is_terminal(o) {
            assert(pump_trace(id, seq![o].drop_first()) == Seq::<EventView>::empty());
            assert(pump_trace(id, seq![o]) == step_events(id, o) + pump_trace(
                id,
                seq![o].drop_first(),
            ));
            assert(step_events(id, o) + Seq::<EventView>::empty() =~= step_events(id, o));
        }
    } else {
        let rest = outs.drop_first();
        assert forall|i: int| 0 <= i < rest.len() implies !is_terminal(#[trigger] rest[i]) by {
            assert(rest[i] == outs[i + 1]);
        }
        assert(!is_terminal(outs[0]));
        assert(outs.push(o).drop_first() =~= rest.push(o));
        assert(outs.push(o)[0] == outs[0]);
        lemma_trace_extends(id, rest, o);
        assert(pump_trace(id, outs.push(o)) == step_events(id, outs[0]) + pump_trace(
            id,
            rest.push(o),
        ));
        assert(step_events(id, outs[0]) + (pump_trace(id, rest) + step_events(id, o))
            =~= (step_events(id, outs[0]) + pump_trace(id, rest)) + step_events(id, o));
    }
}

} // verus!
