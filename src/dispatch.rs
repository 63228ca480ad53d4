//! Decisions of a session's dispatch loop and of its command issuers.
//!
//! One reader (the dispatch loop) takes frames off the stream; any number of
//! issuers send commands, one at a time. While the loop runs, the next reply
//! after a command is that command's outcome: the loop puts it in a slot that
//! the issuer empties. Pushed events go to the loop's handler and never to the
//! slot. When the loop stops, an issuer that still awaits gets a "loop closed"
//! outcome at once.
//!
//! A command is correlated exactly when the loop runs at the moment it is
//! recorded, before it is written. A command recorded while no loop runs
//! awaits nothing. A reply that no issuer awaits is never dropped: it stops
//! the loop as a desynchronization. So the replies to commands sent while no
//! loop ran must be read (see `read_directly`) before a loop is started.
use crate::error::{Error, StopReason};
use crate::frame::{decode_frame, frame_text, FrameView, ServerFrame};
use vstd::prelude::*;

verus! {

/// Where the dispatch loop stands.
#[derive(Clone, Copy, Debug, PartialEq, Eq, Structural)]
pub enum LoopState {
    Idle,
    Running,
    Stopped(StopReason),
}

/// The outcome of a command, put aside by the loop for its issuer.
#[derive(Debug)]
pub enum Outcome {
    /// The server accepted the command.
    Done,
    /// The server refused the command, with its error code.
    Refused(String),
    /// The loop stopped before the reply came.
    Closed(StopReason),
}

/// An outcome as a value.
pub enum OutcomeView {
    Done,
    Refused(Seq<char>),
    Closed(StopReason),
}

impl View for Outcome {
    type V = OutcomeView;

    open spec fn view(&self) -> OutcomeView {
        match self {
            Outcome::Done => OutcomeView::Done,
            Outcome::Refused(code) => OutcomeView::Refused(code@),
            Outcome::Closed(reason) => OutcomeView::Closed(*reason),
        }
    }
}

/// Whether `r` is what an issuer gets for outcome `o`.
pub open spec fn result_of(r: Result<(), Error>, o: OutcomeView) -> bool {
    match o {
        OutcomeView::Done => r is Ok,
        OutcomeView::Refused(code) => r matches Err(Error::Domain(c)) && c@ == code,
        OutcomeView::Closed(reason) => r == Err::<(), Error>(Error::LoopClosed(reason)),
    }
}

/// The correlation state of a session.
#[derive(Debug)]
pub struct Correlator {
    state: LoopState,
    awaiting: bool,
    slot: Option<Outcome>,
}

/// The correlation state as a value: where the loop stands, whether an
/// issuer awaits a reply, and the outcome put aside for it.
pub struct CorrelatorView {
    pub state: LoopState,
    pub awaiting: bool,
    pub slot: Option<OutcomeView>,
}

impl View for Correlator {
    type V = CorrelatorView;

    closed spec fn view(&self) -> CorrelatorView {
        CorrelatorView {
            state: self.state,
            awaiting: self.awaiting,
            slot: match self.slot {
                Some(o) => Some(o@),
                None => None,
            },
        }
    }
}

impl CorrelatorView {
    /// An outcome is held only for an issuer that awaits one; an issuer
    /// awaits only once a loop has started; and once the loop has stopped,
    /// an awaiting issuer has its outcome.
    pub open spec fn wf(self) -> bool {
        &&& self.slot is Some ==> self.awaiting
        &&& self.awaiting ==> !(self.state is Idle)
        &&& (self.awaiting && self.state is Stopped) ==> self.slot is Some
    }
}

/// What the loop does with a frame it has read.
#[derive(Debug)]
pub enum Dispatch {
    /// The frame was a reply and went to the awaiting issuer: read the next frame.
    Delivered,
    /// The frame is a pushed event: hand it to the handler.
    Handle(ServerFrame),
    /// The loop has stopped with this error.
    Stop(Error),
}

/// What the loop does after its handler has seen an event.
#[derive(Debug)]
pub enum Step<R> {
    /// Read the next frame.
    ReadNext,
    /// The loop has stopped with this result.
    Finish(Result<R, Error>),
}

/// The outcome that a reply stands for.
pub open spec fn reply_outcome(f: FrameView) -> OutcomeView {
    match f {
        FrameView::Error(code) => OutcomeView::Refused(code),
        _ => OutcomeView::Done,
    }
}

pub open spec fn is_reply(f: FrameView) -> bool {
    f is Success || f is Error
}

/// The state after a command was recorded: while the loop runs its issuer
/// awaits the reply; otherwise nothing changes.
pub open spec fn sent(v: CorrelatorView) -> CorrelatorView {
    if v.state is Running {
        CorrelatorView { awaiting: true, ..v }
    } else {
        v
    }
}

/// The state after an awaited command whose sending failed was taken back.
pub open spec fn withdrawn(v: CorrelatorView) -> CorrelatorView {
    CorrelatorView { awaiting: false, slot: None, ..v }
}

/// The state after the loop stopped for `reason`.
pub open spec fn stopped(v: CorrelatorView, reason: StopReason) -> CorrelatorView {
    CorrelatorView {
        state: LoopState::Stopped(reason),
        awaiting: v.awaiting,
        slot: if v.awaiting && v.slot is None {
            Some(OutcomeView::Closed(reason))
        } else {
            v.slot
        },
    }
}

/// Whether a reply now would find an issuer to take it.
pub open spec fn reply_expected(v: CorrelatorView) -> bool {
    v.awaiting && v.slot is None
}

/// The state after the loop read frame `f`.
pub open spec fn received(v: CorrelatorView, f: FrameView) -> CorrelatorView {
    if is_reply(f) {
        if reply_expected(v) {
            CorrelatorView { slot: Some(reply_outcome(f)), ..v }
        } else {
            stopped(v, StopReason::Desynchronized)
        }
    } else {
        v
    }
}

/// The state after an awaiting issuer looked at the slot.
pub open spec fn taken(v: CorrelatorView) -> CorrelatorView {
    if v.slot is Some {
        CorrelatorView { awaiting: false, slot: None, ..v }
    } else {
        v
    }
}

/// The state after the loop read each of `fs` in turn.
pub open spec fn received_all(v: CorrelatorView, fs: Seq<FrameView>) -> CorrelatorView
    decreases fs.len(),
{
    if fs.len() == 0 {
        v
    } else {
        received_all(received(v, fs[0]), fs.skip(1))
    }
}

impl Correlator {
    /// A session whose loop has not started.
    pub fn new() -> (r: Correlator)
        ensures
            r@ == (CorrelatorView {
                state: LoopState::Idle,
                awaiting: false,
                slot: None,
            }),
            r@.wf(),
    {
        Correlator { state: LoopState::Idle, awaiting: false, slot: None }
    }

    pub fn state(&self) -> (r: LoopState)
        ensures
            r == self@.state,
    {
        self.state
    }

    pub fn is_running(&self) -> (r: bool)
        ensures
            r == (self@.state is Running),
    {
        matches!(self.state, LoopState::Running)
    }

    /// Whether a frame may be read outside the loop: only while no loop
    /// runs, since the loop is the one reader while it runs.
    pub fn read_directly(&self) -> (r: Result<(), Error>)
        ensures
            self@.state is Running ==> r == Err::<(), Error>(Error::LoopRunning),
            !(self@.state is Running) ==> r is Ok,
    {
        if self.is_running() {
            Err(Error::LoopRunning)
        } else {
            Ok(())
        }
    }

    /// Whether an issuer awaits its reply.
    pub fn is_awaiting(&self) -> (r: bool)
        ensures
            r == self@.awaiting,
    {
        self.awaiting
    }

    /// Starts the dispatch loop; only one runs at a time.
    pub fn start(&mut self) -> (r: Result<(), Error>)
        requires
            old(self)@.wf(),
        ensures
            final(self)@.wf(),
            old(self)@.state is Running ==> r == Err::<(), Error>(Error::LoopRunning) && final(self)@ == old(self)@,
            !(old(self)@.state is Running) ==> r is Ok && final(self)@ == (CorrelatorView {
                state: LoopState::Running,
                ..old(self)@
            }),
    {
        if self.is_running() {
            return Err(Error::LoopRunning);
        }
        self.state = LoopState::Running;
        Ok(())
    }

    /// Records a command about to be sent. It returns whether the issuer
    /// must await the reply: so it must while the loop runs; otherwise the
    /// command is done.
    pub fn command_sent(&mut self) -> (r: bool)
        requires
            old(self)@.wf(),
            !old(self)@.awaiting,
        ensures
            final(self)@.wf(),
            final(self)@ == sent(old(self)@),
            r == (old(self)@.state is Running),
    {
        if self.is_running() {
            self.awaiting = true;
            true
        } else {
            false
        }
    }

    /// Takes back an awaited command whose sending failed: no reply will
    /// come for it.
    pub fn withdraw(&mut self)
        requires
            old(self)@.wf(),
        ensures
            final(self)@.wf(),
            final(self)@ == withdrawn(old(self)@),
    {
        self.awaiting = false;
        self.slot = None;
    }

    /// Takes the awaited outcome, once the loop has delivered it or stopped.
    pub fn take_outcome(&mut self) -> (r: Option<Result<(), Error>>)
        requires
            old(self)@.wf(),
        ensures
            final(self)@.wf(),
            final(self)@ == taken(old(self)@),
            r is Some == old(self)@.slot is Some,
            r matches Some(x) ==> result_of(x, old(self)@.slot.unwrap()),
    {
        match self.slot.take() {
            None => None,
            Some(o) => {
                self.awaiting = false;
                Some(
                    match o {
                        Outcome::Done => Ok(()),
                        Outcome::Refused(code) => Err(Error::Domain(code)),
                        Outcome::Closed(reason) => Err(Error::LoopClosed(reason)),
                    },
                )
            },
        }
    }

    /// Stops the loop for `reason`; an awaiting issuer then gets "loop closed".
    pub fn stop(&mut self, reason: StopReason)
        requires
            old(self)@.wf(),
        ensures
            final(self)@.wf(),
            final(self)@ == stopped(old(self)@, reason),
    {
        self.state = LoopState::Stopped(reason);
        if self.awaiting && self.slot.is_none() {
            self.slot = Some(Outcome::Closed(reason));
        }
    }

    /// Routes a frame that the loop read: a reply goes to the awaiting
    /// issuer, or stops the loop if none awaits one; an event goes to the
    /// handler.
    pub fn on_frame(&mut self, f: ServerFrame) -> (r: Dispatch)
        requires
            old(self)@.wf(),
            old(self)@.state is Running,
        ensures
            final(self)@.wf(),
            final(self)@ == received(old(self)@, f@),
            is_reply(f@) && reply_expected(old(self)@) ==> r is Delivered,
            is_reply(f@) && !reply_expected(old(self)@) ==> r == Dispatch::Stop(
                Error::Desynchronized,
            ),
            !is_reply(f@) ==> r == Dispatch::Handle(f),
    {
        match f {
            ServerFrame::Success => self.deliver(Outcome::Done),
            ServerFrame::Error(code) => self.deliver(Outcome::Refused(code)),
            _ => Dispatch::Handle(f),
        }
    }

    fn deliver(&mut self, outcome: Outcome) -> (r: Dispatch)
        requires
            old(self)@.wf(),
            old(self)@.state is Running,
        ensures
            final(self)@.wf(),
            reply_expected(old(self)@) ==> r is Delivered && final(self)@ == (CorrelatorView {
                slot: Some(outcome@),
                ..old(self)@
            }),
            !reply_expected(old(self)@) ==> r == Dispatch::Stop(
                Error::Desynchronized,
            ) && final(self)@ == stopped(old(self)@, StopReason::Desynchronized),
    {
        if self.awaiting && self.slot.is_none() {
            self.slot = Some(outcome);
            Dispatch::Delivered
        } else {
            self.stop(StopReason::Desynchronized);
            Dispatch::Stop(Error::Desynchronized)
        }
    }

    /// Decodes and routes a text frame; one that does not decode stops the loop.
    pub fn on_text(&mut self, text: &str) -> (r: Dispatch)
        requires
            old(self)@.wf(),
            old(self)@.state is Running,
        ensures
            final(self)@.wf(),
            forall|g: FrameView| #[trigger] frame_text(g) == text@ && g.wf() ==> {
                &&& final(self)@ == received(old(self)@, g)
                &&& is_reply(g) && reply_expected(old(self)@) ==> r is Delivered
                &&& is_reply(g) && !reply_expected(old(self)@) ==> r
                    == Dispatch::Stop(Error::Desynchronized)
                &&& !is_reply(g) ==> (r matches Dispatch::Handle(h) && h@ == g)
            },
            (forall|g: FrameView| #[trigger] frame_text(g) != text@ || !g.wf()) ==> (r
                == Dispatch::Stop(Error::Protocol) && final(self)@ == stopped(
                old(self)@,
                StopReason::Protocol,
            )),
    {
        match decode_frame(text) {
            Ok(f) => {
                let ghost fv = f@;
                let r = self.on_frame(f);
                proof {
                    assert forall|g: FrameView| #[trigger] frame_text(g) == text@ && g.wf() implies g
                        == fv by {
                        crate::frame::lemma_frame_text_injective(g, fv);
                    }
                }
                r
            },
            Err(_) => {
                self.stop(StopReason::Protocol);
                Dispatch::Stop(Error::Protocol)
            },
        }
    }

    /// Acts on the handler's answer to an event: `None` to go on, `Some(r)`
    /// to stop with `r` as the loop's result. After a stop no frame is read.
    pub fn after_event<R>(&mut self, decision: Option<R>) -> (r: Step<R>)
        requires
            old(self)@.wf(),
        ensures
            final(self)@.wf(),
            decision is None ==> r is ReadNext && final(self)@ == old(self)@,
            decision matches Some(v) ==> r == Step::Finish(Ok::<R, Error>(v)) && final(self)@
                == stopped(old(self)@, StopReason::HandlerStopped),
    {
        match decision {
            None => Step::ReadNext,
            Some(v) => {
                self.stop(StopReason::HandlerStopped);
                Step::Finish(Ok(v))
            },
        }
    }

    /// Stops the loop because reading failed or the stream closed, and gives
    /// the error that the loop ends with.
    pub fn on_receive_end(&mut self, reason: StopReason) -> (r: Error)
        requires
            old(self)@.wf(),
        ensures
            final(self)@.wf(),
            final(self)@ == stopped(old(self)@, reason),
            r == loop_error(reason),
    {
        self.stop(reason);
        stop_error(reason)
    }
}

/// The error that a loop stopped for `reason` ends with; also the error of a
/// read that failed for that reason while no loop runs.
pub fn stop_error(reason: StopReason) -> (r: Error)
    ensures
        r == loop_error(reason),
{
    match reason {
        StopReason::ReceiveClosed => Error::WsClosed,
        StopReason::Transport => Error::Transport,
        StopReason::Protocol => Error::Protocol,
        StopReason::Desynchronized => Error::Desynchronized,
        StopReason::HandlerStopped => Error::LoopClosed(StopReason::HandlerStopped),
    }
}

/// The error that a loop stopped for `reason` ends with.
pub open spec fn loop_error(reason: StopReason) -> Error {
    match reason {
        StopReason::ReceiveClosed => Error::WsClosed,
        StopReason::Transport => Error::Transport,
        StopReason::Protocol => Error::Protocol,
        StopReason::Desynchronized => Error::Desynchronized,
        StopReason::HandlerStopped => Error::LoopClosed(StopReason::HandlerStopped),
    }
}

/// The outcomes that issuers see, one command after another: after the
/// command of round `i` the loop reads the pushed events `rounds[i].0`, then
/// the reply `rounds[i].1`, and the issuer then looks at the slot.
pub open spec fn issue_all(
    v: CorrelatorView,
    rounds: Seq<(Seq<FrameView>, FrameView)>,
) -> Seq<Option<OutcomeView>>
    decreases rounds.len(),
{
    if rounds.len() == 0 {
        Seq::empty()
    } else {
        let w = received_all(sent(v), rounds[0].0.push(rounds[0].1));
        seq![w.slot] + issue_all(taken(w), rounds.skip(1))
    }
}

/// Whether none of `fs` is a reply.
pub open spec fn all_events(fs: Seq<FrameView>) -> bool {
    forall|i: int| 0 <= i < fs.len() ==> !is_reply(#[trigger] fs[i])
}

/// Reading `fs` and then `f` is reading `fs.push(f)`.
pub proof fn lemma_received_all_push(v: CorrelatorView, fs: Seq<FrameView>, f: FrameView)
    ensures
        received_all(v, fs.push(f)) == received(received_all(v, fs), f),
    decreases fs.len(),
{
    if fs.len() == 0 {
        assert(fs.push(f).skip(1) =~= Seq::<FrameView>::empty());
        assert(fs.push(f)[0] == f);
        assert(received_all(received(v, f), Seq::<FrameView>::empty()) == received(v, f));
    } else {
        assert(fs.push(f).skip(1) =~= fs.skip(1).push(f));
        assert(fs.push(f)[0] == fs[0]);
        lemma_received_all_push(received(v, fs[0]), fs.skip(1), f);
    }
}

/// Pushed events leave the correlation state as it is.
pub proof fn lemma_events_keep_state(v: CorrelatorView, fs: Seq<FrameView>)
    requires
        all_events(fs),
    ensures
        received_all(v, fs) == v,
    decreases fs.len(),
{
    if fs.len() > 0 {
        assert(!is_reply(fs[0]));
        assert forall|i: int| 0 <= i < fs.skip(1).len() implies !is_reply(#[trigger] fs.skip(1)[i]) by {
            assert(fs.skip(1)[i] == fs[i + 1]);
        }
        lemma_events_keep_state(v, fs.skip(1));
    }
}

/// Commands issued one at a time while the loop runs each get the outcome
/// of the reply that the server sent for them, in the order issued, whatever
/// pushed events come in between; and the loop is still running after them.
pub proof fn lemma_outcomes_in_order(v: CorrelatorView, rounds: Seq<(Seq<FrameView>, FrameView)>)
    requires
        v.wf(),
        v.state is Running,
        !v.awaiting,
        forall|i: int| 0 <= i < rounds.len() ==> is_reply(#[trigger] rounds[i].1),
        forall|i: int| 0 <= i < rounds.len() ==> all_events(#[trigger] rounds[i].0),
    ensures
        issue_all(v, rounds).len() == rounds.len(),
        forall|i: int|
            0 <= i < rounds.len() ==> #[trigger] issue_all(v, rounds)[i] == Some(
                reply_outcome(rounds[i].1),
            ),
    decreases rounds.len(),
{
    if rounds.len() > 0 {
        let (evs, reply) = rounds[0];
        assert(is_reply(rounds[0].1));
        assert(all_events(rounds[0].0));
        let u = sent(v);
        lemma_received_all_push(u, evs, reply);
        lemma_events_keep_state(u, evs);
        let w = received_all(u, evs.push(reply));
        assert(w.slot == Some(reply_outcome(reply)));
        let rest = rounds.skip(1);
        assert forall|i: int| 0 <= i < rest.len() implies is_reply(#[trigger] rest[i].1) by {
            assert(rest[i] == rounds[i + 1]);
        }
        assert forall|i: int| 0 <= i < rest.len() implies all_events(#[trigger] rest[i].0) by {
            assert(rest[i] == rounds[i + 1]);
        }
        lemma_outcomes_in_order(taken(w), rest);
        assert forall|i: int| 0 <= i < rounds.len() implies #[trigger] issue_all(v, rounds)[i]
            == Some(reply_outcome(rounds[i].1)) by {
            if i > 0 {
                assert(issue_all(v, rounds)[i] == issue_all(taken(w), rest)[i - 1]);
                assert(rest[i - 1] == rounds[i]);
            }
        }
    }
}

/// If the loop stops while an issuer awaits its reply, for any reason, the
/// issuer then finds "loop closed" with that reason, and nothing is left
/// awaiting after it looks.
pub proof fn lemma_stop_wakes_issuer(v: CorrelatorView, reason: StopReason)
    requires
        v.wf(),
        v.awaiting,
        v.slot is None,
    ensures
        stopped(v, reason).wf(),
        stopped(v, reason).slot == Some(OutcomeView::Closed(reason)),
        !taken(stopped(v, reason)).awaiting,
{
}

/// A pushed event read while an issuer awaits leaves the slot empty; the
/// reply read after it fills the slot with that reply's outcome.
pub proof fn lemma_event_then_reply(v: CorrelatorView, event: FrameView, reply: FrameView)
    requires
        v.wf(),
        v.state is Running,
        v.awaiting,
        v.slot is None,
        !is_reply(event),
        is_reply(reply),
    ensures
        received(v, event) == v,
        received(received(v, event), reply).slot == Some(reply_outcome(reply)),
        received(received(v, event), reply).state is Running,
{
}

/// A reply read while no issuer awaits one stops the loop as a
/// desynchronization, and is kept for no later issuer.
pub proof fn lemma_unawaited_reply_stops(v: CorrelatorView, reply: FrameView)
    requires
        v.wf(),
        !reply_expected(v),
        is_reply(reply),
    ensures
        received(v, reply) == stopped(v, StopReason::Desynchronized),
        !(received(v, reply).state is Running),
        received(v, reply).slot == v.slot,
        received(v, reply).wf(),
{
}

/// Two callers that take turns on one running session, A first and then B,
/// each get the outcome of the reply to their own command, whatever events
/// come before each reply: A never gets B's outcome, nor B A's.
pub proof fn lemma_two_callers(
    v: CorrelatorView,
    events_a: Seq<FrameView>,
    reply_a: FrameView,
    events_b: Seq<FrameView>,
    reply_b: FrameView,
)
    requires
        v.wf(),
        v.state is Running,
        !v.awaiting,
        all_events(events_a),
        all_events(events_b),
        is_reply(reply_a),
        is_reply(reply_b),
    ensures
        issue_all(v, seq![(events_a, reply_a), (events_b, reply_b)]) == seq![
            Some(reply_outcome(reply_a)),
            Some(reply_outcome(reply_b)),
        ],
{
    let rounds = seq![(events_a, reply_a), (events_b, reply_b)];
    lemma_outcomes_in_order(v, rounds);
    let out = issue_all(v, rounds);
    assert(out[0] == Some(reply_outcome(rounds[0].1)));
    assert(out[1] == Some(reply_outcome(rounds[1].1)));
    assert(out =~= seq![Some(reply_outcome(reply_a)), Some(reply_outcome(reply_b))]);
}

} // verus!
