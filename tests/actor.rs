use lunatic::actor::{default_exit, dispatch, run, start, stop, AbstractProcess, Actor, ExitDecision, Inbound, SpawnError};
use lunatic::mailbox::ExitCause;
use lunatic::tag::Tag;

/// Keeps a running list of the numbers it was sent.
#[derive(Debug, PartialEq)]
struct Log {
    items: Vec<i64>,
}

impl AbstractProcess for Log {
    type Arg = i64;
    type Msg = i64;
    type Request = bool;
    type Response = usize;

    fn init_spec(arg: i64) -> Option<Log> {
        Self::init(arg)
    }

    fn cast_spec(self, msg: i64) -> Log {
        self.handle_cast(msg)
    }

    fn call_spec(self, answer: bool) -> (Option<usize>, Log) {
        self.handle_call(answer)
    }

    fn exit_spec(self, cause: ExitCause) -> ExitDecision<Log> {
        self.handle_exit(cause)
    }

    fn init(arg: i64) -> Option<Log> {
        if arg < 0 { None } else { Some(Log { items: vec![arg] }) }
    }

    fn handle_cast(mut self, msg: i64) -> Log {
        self.items.push(msg);
        self
    }

    fn handle_call(self, answer: bool) -> (Option<usize>, Log) {
        let n = self.items.len();
        (if answer { Some(n) } else { None }, self)
    }

    fn handle_exit(self, cause: ExitCause) -> ExitDecision<Log> {
        default_exit(self, cause)
    }

    fn terminate(self, _cause: ExitCause) {}
}

#[test]
fn casts_fold_in_delivery_order() {
    let init = start::<Log>(1).unwrap();
    let (actor, replies) = run(init, vec![Inbound::Cast(5), Inbound::Cast(3), Inbound::Cast(9)]);
    assert!(replies.is_empty());
    match actor {
        Actor::Running(log) => assert_eq!(log.items, vec![1, 5, 3, 9]),
        Actor::Terminated(_) => panic!("the actor ended"),
    }
}

#[test]
fn failed_init_aborts_spawn() {
    assert_eq!(start::<Log>(-1).unwrap_err(), SpawnError::InitFailed);
}

#[test]
fn calls_are_answered_with_their_tag() {
    let init = start::<Log>(0).unwrap();
    let inbox = vec![
        Inbound::Call(Tag { id: 11 }, true),
        Inbound::Cast(2),
        Inbound::Call(Tag { id: 12 }, false),
        Inbound::Call(Tag { id: 13 }, true),
    ];
    let (actor, replies) = run(init, inbox);
    assert!(matches!(actor, Actor::Running(_)));
    assert_eq!(replies.len(), 2);
    assert_eq!((replies[0].tag, replies[0].response), (Tag { id: 11 }, 1));
    assert_eq!((replies[1].tag, replies[1].response), (Tag { id: 13 }, 2));
}

#[test]
fn abnormal_peer_exit_terminates_and_stops_handling() {
    let init = start::<Log>(0).unwrap();
    let inbox = vec![
        Inbound::Exit(ExitCause::Normal),
        Inbound::Call(Tag { id: 1 }, true),
        Inbound::Exit(ExitCause::Abnormal(4)),
        Inbound::Call(Tag { id: 2 }, true),
    ];
    let (actor, replies) = run(init, inbox);
    assert!(matches!(actor, Actor::Terminated(ExitCause::Abnormal(4))));
    assert_eq!(replies.len(), 1);
    assert_eq!(replies[0].tag, Tag { id: 1 });
}

#[test]
fn dispatch_one_cast() {
    let (actor, reply) = dispatch(Log { items: vec![] }, Inbound::Cast(6));
    assert!(reply.is_none());
    assert!(matches!(actor, Actor::Running(Log { ref items }) if items == &vec![6]));
}

#[test]
fn stop_ends_with_the_given_cause() {
    let s = start::<Log>(3).unwrap();
    assert!(matches!(stop(s, ExitCause::Normal), Actor::Terminated(ExitCause::Normal)));
}
