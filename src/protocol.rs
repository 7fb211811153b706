//! Two-party protocol sessions, checked step by step at run time.
//!
//! A protocol is a table of steps. Each step names the steps that may
//! follow it, and every such index points further down the table, so every
//! path through a valid protocol ends at an `End` step.
use vstd::prelude::*;
use crate::mailbox::{Body, Envelope, ExitCause, Filter, Mailbox, received, remaining};
use crate::tag::Tag;

verus! {

/// The kind under which a session's branch choices travel; user message
/// kinds should avoid it.
pub const CHOICE_KIND: u64 = 0xffff_ffff_ffff_ffff;

/// One step of a protocol.
#[derive(Clone, Debug)]
pub enum Step {
    /// Send a message of `kind`, then continue at `next`.
    Send { kind: u64, next: usize },
    /// Receive a message of `kind`, then continue at `next`.
    Recv { kind: u64, next: usize },
    /// Pick one of the branches and tell the peer.
    Choose { branches: Vec<usize> },
    /// Let the peer pick one of the branches.
    Offer { branches: Vec<usize> },
    End,
}

/// The successors of the step at `i` lie strictly between `i` and `n`.
pub open spec fn step_ok(s: Step, i: int, n: int) -> bool {
    match s {
        Step::Send { next, .. } => i < next < n,
        Step::Recv { next, .. } => i < next < n,
        Step::Choose { branches } => branches@.len() > 0 && forall|b: int|
            0 <= b < branches@.len() ==> i < #[trigger] branches@[b] < n,
        Step::Offer { branches } => branches@.len() > 0 && forall|b: int|
            0 <= b < branches@.len() ==> i < #[trigger] branches@[b] < n,
        Step::End => true,
    }
}

pub open spec fn steps_ok(steps: Seq<Step>) -> bool {
    steps.len() > 0 && forall|i: int| 0 <= i < steps.len() ==> step_ok(#[trigger] steps[i], i, steps.len() as int)
}

fn check_branches(branches: &Vec<usize>, i: usize, n: usize) -> (r: bool)
    ensures
        r == (branches@.len() > 0 && forall|b: int|
            0 <= b < branches@.len() ==> i < #[trigger] branches@[b] < n),
{
    if branches.len() == 0 {
        return false;
    }
    let mut b: usize = 0;
    while b < branches.len()
        invariant
            b <= branches@.len(),
            forall|c: int| 0 <= c < b ==> i < #[trigger] branches@[c] < n,
        decreases branches@.len() - b,
    {
        if branches[b] <= i || branches[b] >= n {
            return false;
        }
        b = b + 1;
    }
    true
}

fn check_step(s: &Step, i: usize, n: usize) -> (r: bool)
    ensures
        r == step_ok(*s, i as int, n as int),
{
    match s {
        Step::Send { next, .. } => i < *next && *next < n,
        Step::Recv { next, .. } => i < *next && *next < n,
        Step::Choose { branches } => check_branches(branches, i, n),
        Step::Offer { branches } => check_branches(branches, i, n),
        Step::End => true,
    }
}

/// A valid protocol.
pub struct Protocol {
    steps: Vec<Step>,
}

impl Protocol {
    pub closed spec fn steps(&self) -> Seq<Step> {
        self.steps@
    }

    pub closed spec fn wf(&self) -> bool {
        steps_ok(self.steps@)
    }

    /// Accepts `steps` exactly when it is a valid protocol: not empty, and
    /// every successor index points further down the table.
    pub fn new(steps: Vec<Step>) -> (r: Option<Protocol>)
        ensures
            r is Some <==> steps_ok(steps@),
            r matches Some(p) ==> p.wf() && p.steps() == steps@,
    {
        let n = steps.len();
        if n == 0 {
            return None;
        }
        let mut i: usize = 0;
        while i < n
            invariant
                n == steps@.len(),
                i <= n,
                forall|j: int| 0 <= j < i ==> step_ok(#[trigger] steps@[j], j, n as int),
            decreases n - i,
        {
            if !check_step(&steps[i], i, n) {
                return None;
            }
            i = i + 1;
        }
        Some(Protocol { steps })
    }
}

/// In a valid protocol the last step is `End`: no step there has anywhere
/// further to go, so every path through the table ends at an `End`.
pub proof fn lemma_last_step_ends(steps: Seq<Step>)
    requires
        steps_ok(steps),
    ensures
        steps.last() is End,
{
    let n = steps.len() as int;
    assert(step_ok(steps[n - 1], n - 1, n));
    match steps[n - 1] {
        Step::Choose { branches } => {
            assert(n - 1 < branches@[0] < n);
        },
        Step::Offer { branches } => {
            assert(n - 1 < branches@[0] < n);
        },
        _ => {},
    }
}

#[derive(Clone, Copy, Debug, PartialEq, Eq, Structural)]
pub enum Status {
    Open,
    /// A step out of order was attempted, or the peer failed.
    Broken,
    Closed,
}

/// Why a session operation did not go through.
#[derive(Clone, Copy, Debug, PartialEq, Eq, Structural)]
pub enum SessionError {
    /// The operation is not the one that the current step allows. The
    /// session is broken from then on, and the peer should be told.
    ProtocolViolation,
    /// Nothing that the current step expects is queued yet.
    Timeout,
    /// The peer's exit signal arrived instead.
    LinkDown(ExitCause),
}

/// How a close went.
#[derive(Clone, Copy, Debug, PartialEq, Eq, Structural)]
pub enum CloseOutcome {
    /// The session had reached `End`.
    Completed,
    /// The session ended early or broken: the peer must be told, so that it
    /// does not wait for ever.
    Abandoned,
    /// It was closed before; nothing happens.
    AlreadyClosed,
}

/// One side of a conversation that follows a protocol. Its messages carry
/// the session's tag.
pub struct Session {
    steps: Vec<Step>,
    at: usize,
    status: Status,
    tag: Tag,
}

impl Session {
    pub closed spec fn steps(&self) -> Seq<Step> {
        self.steps@
    }

    /// The index of the current step.
    pub closed spec fn at(&self) -> nat {
        self.at as nat
    }

    pub closed spec fn status(&self) -> Status {
        self.status
    }

    pub closed spec fn tag(&self) -> Tag {
        self.tag
    }

    pub closed spec fn wf(&self) -> bool {
        steps_ok(self.steps@) && self.at < self.steps@.len()
    }

    pub open spec fn current(&self) -> Step {
        self.steps()[self.at() as int]
    }

    /// What the session's messages are received by.
    pub open spec fn filter_for(&self, kind: u64) -> Filter {
        Filter { kind: Some(kind), tag: Some(self.tag()) }
    }

    /// The state after a violation: broken if it was open.
    pub open spec fn violated(&self, s: Session) -> bool {
        s.steps() == self.steps() && s.at() == self.at() && s.tag() == self.tag() && s.status() == (
        if self.status() == Status::Open {
            Status::Broken
        } else {
            self.status()
        })
    }

    /// The same session, moved to step `at`.
    pub open spec fn moved(&self, s: Session, at: int) -> bool {
        s.steps() == self.steps() && s.at() == at && s.tag() == self.tag() && s.status()
            == self.status()
    }

    pub fn new(protocol: Protocol, tag: Tag) -> (r: Session)
        requires
            protocol.wf(),
        ensures
            r.wf(),
            r.steps() == protocol.steps(),
            r.at() == 0,
            r.status() == Status::Open,
            r.tag() == tag,
    {
        Session { steps: protocol.steps, at: 0, status: Status::Open, tag }
    }

    pub fn status_now(&self) -> (r: Status)
        ensures
            r == self.status(),
    {
        self.status
    }

    pub fn is_at_end(&self) -> (r: bool)
        requires
            self.wf(),
        ensures
            r == (self.current() is End),
    {
        match self.steps[self.at] {
            Step::End => true,
            _ => false,
        }
    }

    fn break_off(&mut self)
        ensures
            old(self).violated(*final(self)),
            final(self).steps@ == old(self).steps@,
    {
        if self.status == Status::Open {
            self.status = Status::Broken;
        }
    }

    /// Sends a message of `kind`: allowed on an open session whose current
    /// step is a send of that kind. Returns the envelope for the peer.
    pub fn send(&mut self, kind: u64, payload: Vec<u8>) -> (r: Result<Envelope, SessionError>)
        requires
            old(self).wf(),
        ensures
            final(self).wf(),
            match old(self).current() {
                Step::Send { kind: k, next } if old(self).status() == Status::Open && k == kind => {
                    &&& r == Ok::<Envelope, SessionError>(
                        Envelope { kind, tag: Some(old(self).tag()), body: Body::Data(payload) },
                    )
                    &&& old(self).moved(*final(self), next as int)
                },
                _ => r == Err::<Envelope, SessionError>(SessionError::ProtocolViolation) && old(
                    self,
                ).violated(*final(self)),
            },
    {
        if self.status == Status::Open {
            match self.steps[self.at] {
                Step::Send { kind: k, next } => {
                    if k == kind {
                        proof {
                            assert(step_ok(self.steps@[self.at as int], self.at as int, self.steps@.len() as int));
                        }
                        self.at = next;
                        return Ok(Envelope { kind, tag: Some(self.tag), body: Body::Data(payload) });
                    }
                },
                _ => {},
            }
        }
        self.break_off();
        Err(SessionError::ProtocolViolation)
    }

    /// Receives the message that the current step expects, from the
    /// session's own traffic in `mailbox`.
    pub fn recv(&mut self, mailbox: &mut Mailbox) -> (r: Result<Envelope, SessionError>)
        requires
            old(self).wf(),
        ensures
            final(self).wf(),
            match old(self).current() {
                Step::Recv { kind, next } if old(self).status() == Status::Open => {
                    &&& final(mailbox)@ == remaining(old(mailbox)@, old(self).filter_for(kind))
                    &&& match received(old(mailbox)@, old(self).filter_for(kind)) {
                        None => r == Err::<Envelope, SessionError>(SessionError::Timeout)
                            && *final(self) == *old(self),
                        Some(e) => match e.body {
                            Body::Exit(c) => r == Err::<Envelope, SessionError>(
                                SessionError::LinkDown(c),
                            ) && old(self).violated(*final(self)),
                            _ => r == Ok::<Envelope, SessionError>(e) && old(self).moved(
                                *final(self),
                                next as int,
                            ),
                        },
                    }
                },
                _ => r == Err::<Envelope, SessionError>(SessionError::ProtocolViolation) && old(
                    self,
                ).violated(*final(self)) && final(mailbox)@ == old(mailbox)@,
            },
    {
        if self.status == Status::Open {
            match self.steps[self.at] {
                Step::Recv { kind, next } => {
                    proof {
                        assert(step_ok(self.steps@[self.at as int], self.at as int, self.steps@.len() as int));
                    }
                    let f = Filter { kind: Some(kind), tag: Some(self.tag) };
                    match mailbox.receive(&f) {
                        None => {
                            return Err(SessionError::Timeout);
                        },
                        Some(e) => {
                            match e.body {
                                Body::Exit(c) => {
                                    self.break_off();
                                    return Err(SessionError::LinkDown(c));
                                },
                                _ => {
                                    self.at = next;
                                    return Ok(e);
                                },
                            }
                        },
                    }
                },
                _ => {},
            }
        }
        self.break_off();
        Err(SessionError::ProtocolViolation)
    }
    /// Picks branch `branch` of the current choice step. Returns the
    /// envelope that tells the peer.
    pub fn choose_branch(&mut self, branch: u64) -> (r: Result<Envelope, SessionError>)
        requires
            old(self).wf(),
        ensures
            final(self).wf(),
            match old(self).current() {
                Step::Choose { branches } if old(self).status() == Status::Open && branch
                    < branches@.len() => {
                    &&& r == Ok::<Envelope, SessionError>(
                        Envelope {
                            kind: CHOICE_KIND,
                            tag: Some(old(self).tag()),
                            body: Body::Choice(branch),
                        },
                    )
                    &&& old(self).moved(*final(self), branches@[branch as int] as int)
                },
                _ => r == Err::<Envelope, SessionError>(SessionError::ProtocolViolation) && old(
                    self,
                ).violated(*final(self)),
            },
    {
        if self.status == Status::Open {
            match &self.steps[self.at] {
                Step::Choose { branches } => {
                    if branch < branches.len() as u64 {
                        proof {
                            assert(step_ok(self.steps@[self.at as int], self.at as int, self.steps@.len() as int));
                            assert(self.at < branches@[branch as int]);
                        }
                        let next = branches[branch as usize];
                        self.at = next;
                        return Ok(
                            Envelope { kind: CHOICE_KIND, tag: Some(self.tag), body: Body::Choice(branch) },
                        );
                    }
                },
                _ => {},
            }
        }
        self.break_off();
        Err(SessionError::ProtocolViolation)
    }

    /// Takes the peer's choice at the current offer step from `mailbox` and
    /// moves to that branch. A choice that names no branch, or a message of
    /// the wrong shape, is a violation by the peer.
    pub fn offer(&mut self, mailbox: &mut Mailbox) -> (r: Result<u64, SessionError>)
        requires
            old(self).wf(),
        ensures
            final(self).wf(),
            match old(self).current() {
                Step::Offer { branches } if old(self).status() == Status::Open => {
                    &&& final(mailbox)@ == remaining(old(mailbox)@, old(self).filter_for(CHOICE_KIND))
                    &&& match received(old(mailbox)@, old(self).filter_for(CHOICE_KIND)) {
                        None => r == Err::<u64, SessionError>(SessionError::Timeout)
                            && *final(self) == *old(self),
                        Some(e) => match e.body {
                            Body::Exit(c) => r == Err::<u64, SessionError>(
                                SessionError::LinkDown(c),
                            ) && old(self).violated(*final(self)),
                            Body::Choice(b) if b < branches@.len() => r == Ok::<u64, SessionError>(b)
                                && old(self).moved(*final(self), branches@[b as int] as int),
                            _ => r == Err::<u64, SessionError>(SessionError::ProtocolViolation)
                                && old(self).violated(*final(self)),
                        },
                    }
                },
                _ => r == Err::<u64, SessionError>(SessionError::ProtocolViolation) && old(
                    self,
                ).violated(*final(self)) && final(mailbox)@ == old(mailbox)@,
            },
    {
        if self.status == Status::Open {
            let at = self.at;
            match &self.steps[at] {
                Step::Offer { branches } => {
                    proof {
                        assert(step_ok(self.steps@[self.at as int], self.at as int, self.steps@.len() as int));
                    }
                    let f = Filter { kind: Some(CHOICE_KIND), tag: Some(self.tag) };
                    match mailbox.receive(&f) {
                        None => {
                            return Err(SessionError::Timeout);
                        },
                        Some(e) => {
                            match e.body {
                                Body::Exit(c) => {
                                    self.break_off();
                                    return Err(SessionError::LinkDown(c));
                                },
                                Body::Choice(b) => {
                                    if b < branches.len() as u64 {
                                        proof {
                                            assert(self.at < branches@[b as int]);
                                        }
                                        let next = branches[b as usize];
                                        self.at = next;
                                        return Ok(b);
                                    }
                                },
                                _ => {},
                            }
                            self.break_off();
                            return Err(SessionError::ProtocolViolation);
                        },
                    }
                },
                _ => {},
            }
        }
        self.break_off();
        Err(SessionError::ProtocolViolation)
    }

    /// Closes the session; a second close does nothing.
    pub fn close(&mut self) -> (r: CloseOutcome)
        requires
            old(self).wf(),
        ensures
            final(self).wf(),
            final(self).steps() == old(self).steps(),
            final(self).at() == old(self).at(),
            final(self).tag() == old(self).tag(),
            final(self).status() == Status::Closed,
            r == (if old(self).status() == Status::Closed {
                CloseOutcome::AlreadyClosed
            } else if old(self).status() == Status::Open && old(self).current() is End {
                CloseOutcome::Completed
            } else {
                CloseOutcome::Abandoned
            }),
    {
        if self.status == Status::Closed {
            return CloseOutcome::AlreadyClosed;
        }
        let done = self.status == Status::Open && self.is_at_end();
        self.status = Status::Closed;
        if done {
            CloseOutcome::Completed
        } else {
            CloseOutcome::Abandoned
        }
    }
}

} // verus!
