//! The actor runtime: a stateful dispatcher for one-way ("cast") and
//! two-way ("call") messages and for the exit signals of linked processes.
use vstd::prelude::*;
use crate::mailbox::ExitCause;
use crate::tag::Tag;

verus! {

/// What an actor does with a linked process's exit signal.
pub enum ExitDecision<S> {
    /// Keep running with the given state.
    Continue(S),
    /// Stop with the given cause; the state is handed to `terminate`.
    Terminate(S, ExitCause),
}

/// The behaviour of one kind of actor, implemented once per actor type.
/// Each handler is stated by a spec function, which the runtime's
/// contracts are written over.
pub trait AbstractProcess: Sized {
    type Arg;
    type Msg;
    type Request;
    type Response;

    /// The initial state, or `None` when initialisation fails.
    spec fn init_spec(arg: Self::Arg) -> Option<Self>;

    spec fn cast_spec(self, msg: Self::Msg) -> Self;

    /// The response (`None`: a deferred reply) and the next state.
    spec fn call_spec(self, req: Self::Request) -> (Option<Self::Response>, Self);

    spec fn exit_spec(self, cause: ExitCause) -> ExitDecision<Self>;

    fn init(arg: Self::Arg) -> (r: Option<Self>)
        ensures
            r == Self::init_spec(arg),
    ;

    fn handle_cast(self, msg: Self::Msg) -> (r: Self)
        ensures
            r == self.cast_spec(msg),
    ;

    fn handle_call(self, req: Self::Request) -> (r: (Option<Self::Response>, Self))
        ensures
            r == self.call_spec(req),
    ;

    fn handle_exit(self, cause: ExitCause) -> (r: ExitDecision<Self>)
        ensures
            r == self.exit_spec(cause),
    ;

    /// Runs once on the way out, after a normal or an abnormal exit.
    fn terminate(self, cause: ExitCause);
}

/// The default reaction to a peer's exit: an abnormal exit is passed on,
/// a normal one is ignored.
pub open spec fn default_exit_spec<S>(state: S, cause: ExitCause) -> ExitDecision<S> {
    match cause {
        ExitCause::Normal => ExitDecision::Continue(state),
        ExitCause::Abnormal(_) => ExitDecision::Terminate(state, cause),
    }
}

/// The default reaction to a peer's exit, for `handle_exit` impls that
/// do not trap exits.
pub fn default_exit<S>(state: S, cause: ExitCause) -> (r: ExitDecision<S>)
    ensures
        r == default_exit_spec(state, cause),
{
    match cause {
        ExitCause::Normal => ExitDecision::Continue(state),
        ExitCause::Abnormal(_) => ExitDecision::Terminate(state, cause),
    }
}

/// An inbound message, as the runtime sees it.
pub enum Inbound<M, Q> {
    Cast(M),
    /// A request, with the tag that the caller waits for.
    Call(Tag, Q),
    Exit(ExitCause),
}

/// A response, tagged with the tag of the request it answers.
pub struct Reply<R> {
    pub tag: Tag,
    pub response: R,
}

/// An actor: running with its state, or ended with a cause.
pub enum Actor<A> {
    Running(A),
    Terminated(ExitCause),
}

/// Why a spawn failed: the process never became observable.
#[derive(Clone, Copy, Debug, PartialEq, Eq, Structural)]
pub enum SpawnError {
    InitFailed,
}

/// The actor after `init`.
pub open spec fn start_spec<A: AbstractProcess>(arg: A::Arg) -> Result<A, SpawnError> {
    match A::init_spec(arg) {
        Some(s) => Ok(s),
        None => Err(SpawnError::InitFailed),
    }
}

/// The actor after handling one message, and the reply that it sends.
pub open spec fn dispatch_spec<A: AbstractProcess>(
    state: A,
    m: Inbound<A::Msg, A::Request>,
) -> (Actor<A>, Option<Reply<A::Response>>) {
    match m {
        Inbound::Cast(msg) => (Actor::Running(state.cast_spec(msg)), None),
        Inbound::Call(tag, req) => {
            let (resp, next) = state.call_spec(req);
            (
                Actor::Running(next),
                match resp {
                    Some(response) => Some(Reply { tag, response }),
                    None => None,
                },
            )
        },
        Inbound::Exit(cause) => match state.exit_spec(cause) {
            ExitDecision::Continue(next) => (Actor::Running(next), None),
            ExitDecision::Terminate(_, c) => (Actor::Terminated(c), None),
        },
    }
}

/// The actor after handling `ms` in order, one at a time, and the replies
/// that it sent, in order. Once ended, it handles nothing more.
pub open spec fn run_spec<A: AbstractProcess>(state: A, ms: Seq<Inbound<A::Msg, A::Request>>) -> (
    Actor<A>,
    Seq<Reply<A::Response>>,
)
    decreases ms.len(),
{
    if ms.len() == 0 {
        (Actor::Running(state), Seq::empty())
    } else {
        let (before, replies) = run_spec(state, ms.drop_last());
        match before {
            Actor::Terminated(c) => (Actor::Terminated(c), replies),
            Actor::Running(s) => {
                let (after, reply) = dispatch_spec(s, ms.last());
                (
                    after,
                    match reply {
                        Some(r) => replies.push(r),
                        None => replies,
                    },
                )
            },
        }
    }
}

/// Runs `init`; a failure aborts the spawn.
pub fn start<A: AbstractProcess>(arg: A::Arg) -> (r: Result<A, SpawnError>)
    ensures
        r == start_spec::<A>(arg),
{
    match A::init(arg) {
        Some(s) => Ok(s),
        None => Err(SpawnError::InitFailed),
    }
}

/// Ends a running actor with `cause`, normal or not; `terminate` runs on
/// the way out.
pub fn stop<A: AbstractProcess>(state: A, cause: ExitCause) -> (r: Actor<A>)
    ensures
        r == Actor::<A>::Terminated(cause),
{
    state.terminate(cause);
    Actor::Terminated(cause)
}

/// Handles one inbound message. On termination `terminate` has run.
pub fn dispatch<A: AbstractProcess>(state: A, m: Inbound<A::Msg, A::Request>) -> (r: (
    Actor<A>,
    Option<Reply<A::Response>>,
))
    ensures
        r == dispatch_spec(state, m),
{
    match m {
        Inbound::Cast(msg) => (Actor::Running(state.handle_cast(msg)), None),
        Inbound::Call(tag, req) => {
            let (resp, next) = state.handle_call(req);
            let reply = match resp {
                Some(response) => Some(Reply { tag, response }),
                None => None,
            };
            (Actor::Running(next), reply)
        },
        Inbound::Exit(cause) => match state.handle_exit(cause) {
            ExitDecision::Continue(next) => (Actor::Running(next), None),
            ExitDecision::Terminate(last, c) => {
                last.terminate(c);
                (Actor::Terminated(c), None)
            },
        },
    }
}

/// Handles `inbox` in delivery order, one message at a time, and returns the
/// actor and the replies that it sent.
pub fn run<A: AbstractProcess>(state: A, inbox: Vec<Inbound<A::Msg, A::Request>>) -> (r: (
    Actor<A>,
    Vec<Reply<A::Response>>,
))
    ensures
        (r.0, r.1@) == run_spec(state, inbox@),
{
    let ghost all = inbox@;
    let mut inbox = inbox;
    let mut actor: Actor<A> = Actor::Running(state);
    let mut replies: Vec<Reply<A::Response>> = Vec::new();
    let mut i: usize = 0;
    let n = inbox.len();
    while inbox.len() > 0
        invariant
            n == all.len(),
            i + inbox@.len() == n,
            inbox@ == all.subrange(i as int, n as int),
            (actor, replies@) == run_spec(state, all.take(i as int)),
        decreases inbox@.len(),
    {
        let m = inbox.remove(0);
        proof {
            assert(all.take(i as int + 1).drop_last() =~= all.take(i as int));
            assert(all.take(i as int + 1).last() == m);
        }
        actor = match actor {
            Actor::Terminated(c) => Actor::Terminated(c),
            Actor::Running(s) => {
                let (after, reply) = dispatch(s, m);
                match reply {
                    Some(r) => {
                        replies.push(r);
                    },
                    None => {},
                }
                after
            },
        };
        i = i + 1;
    }
    proof {
        assert(all.take(n as int) =~= all);
    }
    (actor, replies)
}

/// Casts only: the state after `msgs` is `handle_cast` folded over the
/// initial state in delivery order, and nothing is sent back.
pub proof fn lemma_casts_fold<A: AbstractProcess>(state: A, msgs: Seq<A::Msg>)
    ensures
        run_spec(state, msgs.map_values(|m: A::Msg| Inbound::<A::Msg, A::Request>::Cast(m)))
            == (
            Actor::<A>::Running(msgs.fold_left(state, |s: A, m: A::Msg| s.cast_spec(m))),
            Seq::<Reply<A::Response>>::empty(),
        ),
    decreases msgs.len(),
{
    let casts = msgs.map_values(|m: A::Msg| Inbound::<A::Msg, A::Request>::Cast(m));
    if msgs.len() > 0 {
        lemma_casts_fold::<A>(state, msgs.drop_last());
        assert(casts.drop_last() =~= msgs.drop_last().map_values(
            |m: A::Msg| Inbound::<A::Msg, A::Request>::Cast(m),
        ));
    } else {
        assert(casts.len() == 0);
    }
}

} // verus!
