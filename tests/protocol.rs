use lunatic::mailbox::{Body, Envelope, ExitCause, Mailbox};
use lunatic::protocol::{CloseOutcome, Protocol, Session, SessionError, Status, Step, CHOICE_KIND};
use lunatic::tag::Tag;

const INT: u64 = 1;
const STRING: u64 = 2;

fn send_int_recv_string() -> Protocol {
    Protocol::new(vec![
        Step::Send { kind: INT, next: 1 },
        Step::Recv { kind: STRING, next: 2 },
        Step::End,
    ])
    .unwrap()
}

#[test]
fn recv_before_send_is_a_violation() {
    let mut s = Session::new(send_int_recv_string(), Tag { id: 4 });
    let mut mb = Mailbox::new();
    assert_eq!(s.recv(&mut mb).unwrap_err(), SessionError::ProtocolViolation);
    assert_eq!(s.status_now(), Status::Broken);
    assert_eq!(s.send(INT, vec![42]).unwrap_err(), SessionError::ProtocolViolation);
    assert_eq!(s.close(), CloseOutcome::Abandoned);
}

#[test]
fn send_then_recv_then_close() {
    let tag = Tag { id: 4 };
    let mut s = Session::new(send_int_recv_string(), tag);
    let out = s.send(INT, vec![42]).unwrap();
    assert_eq!(out.kind, INT);
    assert_eq!(out.tag, Some(tag));
    assert!(matches!(out.body, Body::Data(ref b) if b == &vec![42]));
    let mut mb = Mailbox::new();
    assert_eq!(s.recv(&mut mb).unwrap_err(), SessionError::Timeout);
    assert_eq!(s.status_now(), Status::Open);
    mb.deliver(Envelope { kind: STRING, tag: Some(Tag { id: 99 }), body: Body::Data(b"no".to_vec()) });
    mb.deliver(Envelope { kind: STRING, tag: Some(tag), body: Body::Data(b"hi".to_vec()) });
    let got = s.recv(&mut mb).unwrap();
    assert!(matches!(got.body, Body::Data(ref b) if b == b"hi"));
    assert_eq!(mb.len(), 1);
    assert!(s.is_at_end());
    assert_eq!(s.close(), CloseOutcome::Completed);
    assert_eq!(s.close(), CloseOutcome::AlreadyClosed);
    assert_eq!(s.status_now(), Status::Closed);
}

#[test]
fn wrong_message_kind_is_a_violation() {
    let mut s = Session::new(send_int_recv_string(), Tag { id: 1 });
    assert_eq!(s.send(STRING, vec![]).unwrap_err(), SessionError::ProtocolViolation);
}

#[test]
fn peer_exit_during_recv() {
    let tag = Tag { id: 4 };
    let mut s = Session::new(send_int_recv_string(), tag);
    s.send(INT, vec![1]).unwrap();
    let mut mb = Mailbox::new();
    mb.deliver(Envelope { kind: 0, tag: None, body: Body::Exit(ExitCause::Abnormal(7)) });
    assert_eq!(s.recv(&mut mb).unwrap_err(), SessionError::LinkDown(ExitCause::Abnormal(7)));
    assert_eq!(s.status_now(), Status::Broken);
}

#[test]
fn invalid_protocols_are_refused() {
    assert!(Protocol::new(vec![]).is_none());
    assert!(Protocol::new(vec![Step::Send { kind: 1, next: 0 }, Step::End]).is_none());
    assert!(Protocol::new(vec![Step::Recv { kind: 1, next: 2 }, Step::End]).is_none());
    assert!(Protocol::new(vec![Step::Choose { branches: vec![] }, Step::End]).is_none());
    assert!(Protocol::new(vec![Step::Offer { branches: vec![1, 0] }, Step::End]).is_none());
    assert!(Protocol::new(vec![Step::End]).is_some());
}

fn branching() -> Protocol {
    Protocol::new(vec![
        Step::Choose { branches: vec![1, 2] },
        Step::Send { kind: INT, next: 3 },
        Step::End,
        Step::End,
    ])
    .unwrap()
}

#[test]
fn choose_branch_moves_and_announces() {
    let tag = Tag { id: 8 };
    let mut s = Session::new(branching(), tag);
    assert_eq!(s.choose_branch(2).unwrap_err(), SessionError::ProtocolViolation);
    let mut s = Session::new(branching(), tag);
    let e = s.choose_branch(1).unwrap();
    assert_eq!(e.kind, CHOICE_KIND);
    assert!(matches!(e.body, Body::Choice(1)));
    assert!(s.is_at_end());
    let mut s = Session::new(branching(), tag);
    s.choose_branch(0).unwrap();
    assert!(!s.is_at_end());
    assert_eq!(s.close(), CloseOutcome::Abandoned);
}

#[test]
fn offer_follows_the_peer() {
    let tag = Tag { id: 8 };
    let p = || {
        Protocol::new(vec![Step::Offer { branches: vec![1, 2] }, Step::Recv { kind: INT, next: 3 }, Step::End, Step::End])
            .unwrap()
    };
    let mut s = Session::new(p(), tag);
    let mut mb = Mailbox::new();
    assert_eq!(s.offer(&mut mb).unwrap_err(), SessionError::Timeout);
    mb.deliver(Envelope { kind: CHOICE_KIND, tag: Some(tag), body: Body::Choice(0) });
    assert_eq!(s.offer(&mut mb).unwrap(), 0);
    assert!(!s.is_at_end());
    let mut s = Session::new(p(), tag);
    mb.deliver(Envelope { kind: CHOICE_KIND, tag: Some(tag), body: Body::Choice(1) });
    assert_eq!(s.offer(&mut mb).unwrap(), 1);
    assert!(s.is_at_end());
    let mut s = Session::new(p(), tag);
    mb.deliver(Envelope { kind: CHOICE_KIND, tag: Some(tag), body: Body::Choice(5) });
    assert_eq!(s.offer(&mut mb).unwrap_err(), SessionError::ProtocolViolation);
    assert_eq!(s.status_now(), Status::Broken);
}
