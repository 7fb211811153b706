use lunatic::process::{Links, Monitors, ProcessHandle};

fn p(id: u64) -> ProcessHandle {
    ProcessHandle { node: 0, id }
}

fn sorted(mut v: Vec<ProcessHandle>) -> Vec<u64> {
    v.sort_by_key(|h| h.id);
    v.into_iter().map(|h| h.id).collect()
}

#[test]
fn link_is_symmetric_and_idempotent() {
    let mut l = Links::new();
    assert!(!l.is_linked(p(1), p(2)));
    l.link(p(1), p(2));
    l.link(p(2), p(1));
    assert!(l.is_linked(p(2), p(1)));
    l.unlink(p(1), p(2));
    assert!(!l.is_linked(p(1), p(2)));
    assert!(!l.is_linked(p(2), p(1)));
}

#[test]
fn handles_differ_by_node() {
    let mut l = Links::new();
    l.link(ProcessHandle { node: 1, id: 5 }, p(6));
    assert!(!l.is_linked(p(5), p(6)));
}

#[test]
fn failure_spreads_around_a_cycle() {
    let mut l = Links::new();
    l.link(p(1), p(2));
    l.link(p(2), p(3));
    l.link(p(3), p(1));
    l.link(p(4), p(5));
    assert_eq!(sorted(l.cascade(p(2), &vec![])), vec![1, 2, 3]);
    assert_eq!(sorted(l.cascade(p(9), &vec![])), vec![9]);
}

#[test]
fn trapping_process_stops_the_spread() {
    let mut l = Links::new();
    l.link(p(1), p(2));
    l.link(p(2), p(3));
    assert_eq!(sorted(l.cascade(p(1), &vec![p(2)])), vec![1]);
    assert_eq!(sorted(l.cascade(p(2), &vec![p(2)])), vec![1, 2, 3]);
}

#[test]
fn monitors_notify_watchers_once() {
    let mut m = Monitors::new();
    m.monitor(p(1), p(3));
    m.monitor(p(2), p(3));
    m.monitor(p(1), p(3));
    m.monitor(p(3), p(4));
    assert_eq!(sorted(m.watchers_of(p(3))), vec![1, 2]);
    assert_eq!(sorted(m.watchers_of(p(4))), vec![3]);
    assert!(m.watchers_of(p(1)).is_empty());
}
