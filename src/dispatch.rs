use vstd::prelude::*;

verus! {

/// How many commands may wait between the rules and the dispatcher; a
/// producer that finds the queue full waits until the dispatcher takes one.
pub const COMMAND_QUEUE_CAPACITY: usize = 10;

/// Where the dispatcher stands between the command queue and the window
/// manager.
#[derive(Clone, Copy, Debug, PartialEq, Eq, Structural)]
pub enum DispatchState {
    /// Waiting for the next command from the queue.
    Idle,
    /// One command has been submitted and is not yet acknowledged.
    Sending,
    /// The queue was closed and drained.
    Closed,
    /// A submission failed; nothing more is sent.
    Failed,
}

/// What the dispatcher learns from the outside.
#[derive(Debug)]
pub enum DispatchEvent {
    /// The queue handed out its next command, or `None` once it is closed and empty.
    Pulled(Option<String>),
    /// The window manager answered the submitted command: `true` on success.
    Submitted(bool),
}

/// What the dispatcher asks the outside to do next.
#[derive(Debug)]
pub enum DispatchAction {
    /// Submit this command and report the answer.
    Submit(String),
    /// Take the next command from the queue.
    Pull,
    /// Stop: the queue is closed and drained.
    Finish,
    /// Stop with an error: a submission failed.
    Abort,
    /// The event does not belong to the current state; nothing to do.
    Ignore,
}

/// The dispatcher's transition on one event.
pub open spec fn transition(s: DispatchState, e: DispatchEvent) -> (DispatchState, DispatchAction) {
    match (s, e) {
        (DispatchState::Idle, DispatchEvent::Pulled(Some(c))) => (
            DispatchState::Sending,
            DispatchAction::Submit(c),
        ),
        (DispatchState::Idle, DispatchEvent::Pulled(None)) => (
            DispatchState::Closed,
            DispatchAction::Finish,
        ),
        (DispatchState::Sending, DispatchEvent::Submitted(true)) => (
            DispatchState::Idle,
            DispatchAction::Pull,
        ),
        (DispatchState::Sending, DispatchEvent::Submitted(false)) => (
            DispatchState::Failed,
            DispatchAction::Abort,
        ),
        (s, _) => (s, DispatchAction::Ignore),
    }
}

/// The state reached and the actions asked for over a run of events.
pub open spec fn run(s: DispatchState, es: Seq<DispatchEvent>) -> (DispatchState, Seq<
    DispatchAction,
>)
    decreases es.len(),
{
    if es.len() == 0 {
        (s, Seq::empty())
    } else {
        let (s1, a) = transition(s, es[0]);
        let (s2, rest) = run(s1, es.drop_first());
        (s2, seq![a] + rest)
    }
}

/// The texts of the commands submitted by a sequence of actions, in order.
pub open spec fn submitted(acts: Seq<DispatchAction>) -> Seq<Seq<char>>
    decreases acts.len(),
{
    if acts.len() == 0 {
        Seq::empty()
    } else {
        let rest = submitted(acts.drop_first());
        match acts[0] {
            DispatchAction::Submit(c) => seq![c@] + rest,
            _ => rest,
        }
    }
}

/// Each command pulled from the queue in turn, each acknowledged before
/// the next is pulled.
pub open spec fn deliveries(cs: Seq<String>) -> Seq<DispatchEvent>
    decreases cs.len(),
{
    if cs.len() == 0 {
        Seq::empty()
    } else {
        seq![DispatchEvent::Pulled(Some(cs[0])), DispatchEvent::Submitted(true)] + deliveries(
            cs.drop_first(),
        )
    }
}

/// The texts of a sequence of commands.
pub open spec fn texts(cs: Seq<String>) -> Seq<Seq<char>> {
    cs.map_values(|c: String| c@)
}

/// The sole consumer of the command queue: it submits one command at a time
/// and pulls the next only once the previous one is acknowledged.
pub struct Dispatcher {
    pub state: DispatchState,
}

impl Dispatcher {
    /// A dispatcher waiting for its first command.
    pub fn new() -> (d: Dispatcher)
        ensures
            d.state == DispatchState::Idle,
    {
        Dispatcher { state: DispatchState::Idle }
    }

    /// Takes one event and says what to do next.
    pub fn step(&mut self, e: DispatchEvent) -> (a: DispatchAction)
        ensures
            (final(self).state, a) == transition(old(self).state, e),
    {
        match (self.state, e) {
            (DispatchState::Idle, DispatchEvent::Pulled(Some(c))) => {
                self.state = DispatchState::Sending;
                DispatchAction::Submit(c)
            },
            (DispatchState::Idle, DispatchEvent::Pulled(None)) => {
                self.state = DispatchState::Closed;
                DispatchAction::Finish
            },
            (DispatchState::Sending, DispatchEvent::Submitted(ok)) => {
                if ok {
                    self.state = DispatchState::Idle;
                    DispatchAction::Pull
                } else {
                    self.state = DispatchState::Failed;
                    DispatchAction::Abort
                }
            },
            _ => DispatchAction::Ignore,
        }
    }
}

/// Commands handed out by the queue while the dispatcher waited are
/// submitted in the order in which they were handed out, and the dispatcher
/// is idle again afterwards.
pub proof fn lemma_submits_in_order(cs: Seq<String>)
    ensures
        run(DispatchState::Idle, deliveries(cs)).0 == DispatchState::Idle,
        submitted(run(DispatchState::Idle, deliveries(cs)).1) == texts(cs),
    decreases cs.len(),
{
    if cs.len() > 0 {
        let rest = cs.drop_first();
        lemma_submits_in_order(rest);
        let es = deliveries(cs);
        let pair = seq![DispatchEvent::Pulled(Some(cs[0])), DispatchEvent::Submitted(true)];
        assert(es.drop_first().drop_first() =~= deliveries(rest));
        assert(es[0] == pair[0]);
        assert(es.drop_first()[0] == pair[1]);
        let r1 = run(DispatchState::Sending, es.drop_first());
        assert(r1.1 =~= seq![DispatchAction::Pull] + run(DispatchState::Idle, deliveries(rest)).1);
        let acts = run(DispatchState::Idle, es).1;
        assert(acts =~= seq![DispatchAction::Submit(cs[0])] + r1.1);
        assert(acts.drop_first() =~= r1.1);
        assert(r1.1.drop_first() =~= run(DispatchState::Idle, deliveries(rest)).1);
        assert(submitted(r1.1) == submitted(run(DispatchState::Idle, deliveries(rest)).1));
        assert(submitted(acts) == seq![cs[0]@] + submitted(r1.1));
        assert(texts(cs) =~= seq![cs[0]@] + texts(rest));
    } else {
        assert(texts(cs) =~= Seq::empty());
    }
}

} // verus!
