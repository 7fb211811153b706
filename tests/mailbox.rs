use lunatic::mailbox::{Body, Envelope, ExitCause, Filter, Mailbox};
use lunatic::tag::{Tag, TagGenerator};

fn data(kind: u64, tag: Option<u64>, byte: u8) -> Envelope {
    Envelope { kind, tag: tag.map(|id| Tag { id }), body: Body::Data(vec![byte]) }
}

fn payload(e: &Envelope) -> u8 {
    match &e.body {
        Body::Data(b) => b[0],
        _ => panic!("not a data envelope"),
    }
}

#[test]
fn selective_receive_skips_other_types() {
    let mut mb = Mailbox::new();
    mb.deliver(data(1, None, b'A'));
    mb.deliver(data(2, None, b'B'));
    mb.deliver(data(1, None, b'C'));
    let first = mb.receive(&Filter::of_kind(1)).unwrap();
    assert_eq!(payload(&first), b'A');
    assert_eq!(mb.len(), 2);
    let second = mb.receive(&Filter::of_kind(1)).unwrap();
    assert_eq!(payload(&second), b'C');
    assert_eq!(mb.len(), 1);
    let rest = mb.receive(&Filter::any()).unwrap();
    assert_eq!(payload(&rest), b'B');
    assert_eq!(mb.len(), 0);
}

#[test]
fn receive_without_match_leaves_queue() {
    let mut mb = Mailbox::new();
    mb.deliver(data(2, None, b'B'));
    assert!(mb.receive(&Filter::of_kind(1)).is_none());
    assert_eq!(mb.len(), 1);
    assert!(Mailbox::new().receive(&Filter::any()).is_none());
}

#[test]
fn exit_signal_passes_every_filter() {
    let mut mb = Mailbox::new();
    mb.deliver(data(2, None, b'B'));
    mb.deliver(Envelope { kind: 9, tag: None, body: Body::Exit(ExitCause::Abnormal(3)) });
    mb.deliver(data(1, Some(5), b'C'));
    let f = Filter { kind: Some(1), tag: Some(Tag { id: 5 }) };
    let e = mb.receive(&f).unwrap();
    assert!(e.is_exit());
    assert_eq!(payload(&mb.receive(&f).unwrap()), b'C');
}

#[test]
fn replies_reach_their_own_callers() {
    let mut gen = TagGenerator::new();
    let t1 = gen.next_tag().unwrap();
    let t2 = gen.next_tag().unwrap();
    assert_ne!(t1, t2);
    let build = || {
        let mut mb = Mailbox::new();
        mb.deliver(data(7, None, b'x'));
        mb.deliver(data(3, Some(t2.id), b'2'));
        mb.deliver(data(3, Some(t1.id), b'1'));
        mb
    };
    let mut a = build();
    let r1 = a.receive(&Filter::of_tag(t1)).unwrap();
    let r2 = a.receive(&Filter::of_tag(t2)).unwrap();
    assert_eq!((r1.tag, payload(&r1)), (Some(t1), b'1'));
    assert_eq!((r2.tag, payload(&r2)), (Some(t2), b'2'));
    let mut b = build();
    let s2 = b.receive(&Filter::of_tag(t2)).unwrap();
    let s1 = b.receive(&Filter::of_tag(t1)).unwrap();
    assert_eq!(payload(&s1), b'1');
    assert_eq!(payload(&s2), b'2');
    assert_eq!(a.len(), 1);
    assert_eq!(b.len(), 1);
}

#[test]
fn tags_increase() {
    let mut gen = TagGenerator::new();
    let a = gen.next_tag().unwrap();
    let b = gen.next_tag().unwrap();
    assert_eq!(a.id(), 1);
    assert_eq!(b.id(), 2);
}

#[test]
fn exit_cause_kinds() {
    assert!(ExitCause::Abnormal(0).is_abnormal());
    assert!(!ExitCause::Normal.is_abnormal());
}
