//! The per-process inbound queue and its selective receive.
use vstd::prelude::*;
use crate::tag::Tag;

verus! {

/// Why a process ended.
#[derive(Clone, Copy, Debug, PartialEq, Eq, Structural)]
pub enum ExitCause {
    Normal,
    /// An abnormal end, with a code that the failing process chose.
    Abnormal(u64),
}

impl ExitCause {
    pub fn is_abnormal(&self) -> (r: bool)
        ensures
            r == (*self is Abnormal),
    {
        match self {
            ExitCause::Normal => false,
            ExitCause::Abnormal(_) => true,
        }
    }
}

/// What an envelope carries.
#[derive(Clone, Debug)]
pub enum Body {
    /// An encoded payload.
    Data(Vec<u8>),
    /// The branch that a peer chose in a protocol session.
    Choice(u64),
    /// The exit signal of a linked process.
    Exit(ExitCause),
}

/// The unit stored in a mailbox: a body, its type discriminator and an
/// optional correlation tag.
#[derive(Clone, Debug)]
pub struct Envelope {
    pub kind: u64,
    pub tag: Option<Tag>,
    pub body: Body,
}

impl Envelope {
    pub open spec fn is_exit_signal(self) -> bool {
        self.body is Exit
    }

    pub fn is_exit(&self) -> (r: bool)
        ensures
            r == self.is_exit_signal(),
    {
        match self.body {
            Body::Exit(_) => true,
            _ => false,
        }
    }
}

/// Selects envelopes by type discriminator and/or correlation tag; a field
/// left `None` accepts any value.
#[derive(Clone, Copy, Debug)]
pub struct Filter {
    pub kind: Option<u64>,
    pub tag: Option<Tag>,
}

/// An exit signal passes every filter; any other envelope passes when its
/// kind and tag agree with those that the filter names.
pub open spec fn matches(f: Filter, e: Envelope) -> bool {
    e.is_exit_signal() || ((f.kind is None || f.kind == Some(e.kind)) && (f.tag is None
        || f.tag == e.tag))
}

impl Filter {
    pub fn any() -> (r: Filter)
        ensures
            r.kind is None && r.tag is None,
    {
        Filter { kind: None, tag: None }
    }

    pub fn of_kind(kind: u64) -> (r: Filter)
        ensures
            r.kind == Some(kind) && r.tag is None,
    {
        Filter { kind: Some(kind), tag: None }
    }

    pub open spec fn of_tag_spec(tag: Tag) -> Filter {
        Filter { kind: None, tag: Some(tag) }
    }

    pub fn of_tag(tag: Tag) -> (r: Filter)
        ensures
            r == Filter::of_tag_spec(tag),
    {
        Filter { kind: None, tag: Some(tag) }
    }

    pub fn accepts(&self, e: &Envelope) -> (r: bool)
        ensures
            r == matches(*self, *e),
    {
        if e.is_exit() {
            return true;
        }
        let kind_ok = match self.kind {
            None => true,
            Some(k) => k == e.kind,
        };
        let tag_ok = match (self.tag, e.tag) {
            (None, _) => true,
            (Some(t), Some(u)) => t.id == u.id,
            (Some(_), None) => false,
        };
        kind_ok && tag_ok
    }
}

/// `i` is the position of the first envelope of `q` that `f` accepts.
pub open spec fn is_first_match(q: Seq<Envelope>, f: Filter, i: int) -> bool {
    0 <= i < q.len() && matches(f, q[i]) && forall|j: int| 0 <= j < i ==> !matches(f, #[trigger] q[j])
}

/// The position of the first envelope of `q` that `f` accepts, or -1.
pub open spec fn first_match(q: Seq<Envelope>, f: Filter) -> int {
    if exists|i: int| is_first_match(q, f, i) {
        choose|i: int| is_first_match(q, f, i)
    } else {
        -1
    }
}

/// What a receive with `f` takes from the queue `q`.
pub open spec fn received(q: Seq<Envelope>, f: Filter) -> Option<Envelope> {
    if first_match(q, f) >= 0 {
        Some(q[first_match(q, f)])
    } else {
        None
    }
}

/// The queue `q` after a receive with `f`: the taken envelope is gone, all
/// others keep their relative order.
pub open spec fn remaining(q: Seq<Envelope>, f: Filter) -> Seq<Envelope> {
    if first_match(q, f) >= 0 {
        q.remove(first_match(q, f))
    } else {
        q
    }
}

pub proof fn lemma_first_match_is(q: Seq<Envelope>, f: Filter, i: int)
    requires
        is_first_match(q, f, i),
    ensures
        first_match(q, f) == i,
{
    let k = first_match(q, f);
    assert(is_first_match(q, f, k));
    if k < i {
        assert(!matches(f, q[k]));
    } else if i < k {
        assert(!matches(f, q[i]));
    }
}

pub proof fn lemma_no_match(q: Seq<Envelope>, f: Filter)
    requires
        forall|j: int| 0 <= j < q.len() ==> !matches(f, #[trigger] q[j]),
    ensures
        first_match(q, f) == -1,
{
    if exists|i: int| is_first_match(q, f, i) {
        let i = choose|i: int| is_first_match(q, f, i);
        assert(matches(f, q[i]));
    }
}

/// Where some envelope matches, a first match exists, no later than it.
pub proof fn lemma_some_match(q: Seq<Envelope>, f: Filter, j: int)
    requires
        0 <= j < q.len(),
        matches(f, q[j]),
    ensures
        0 <= first_match(q, f) <= j,
    decreases j,
{
    if exists|x: int| 0 <= x < j && matches(f, #[trigger] q[x]) {
        let x = choose|x: int| 0 <= x < j && matches(f, #[trigger] q[x]);
        lemma_some_match(q, f, x);
    } else {
        assert(is_first_match(q, f, j));
        lemma_first_match_is(q, f, j);
    }
}

/// Removing an envelope that `f` rejects shifts the first match of `f` by
/// one if it stood behind the removed one, and keeps it otherwise.
pub proof fn lemma_remove_rejected(q: Seq<Envelope>, f: Filter, i: int)
    requires
        0 <= i < q.len(),
        !matches(f, q[i]),
    ensures
        first_match(q.remove(i), f) == (if first_match(q, f) < 0 {
            -1
        } else if first_match(q, f) < i {
            first_match(q, f)
        } else {
            first_match(q, f) - 1
        }),
{
    let r = q.remove(i);
    let k = first_match(q, f);
    if k >= 0 {
        lemma_first_match_is(q, f, choose|x: int| is_first_match(q, f, x));
        if k < i {
            assert forall|j: int| 0 <= j < k implies !matches(f, #[trigger] r[j]) by {
                assert(r[j] == q[j]);
            }
            assert(is_first_match(r, f, k));
            lemma_first_match_is(r, f, k);
        } else {
            assert(k != i);
            assert forall|j: int| 0 <= j < k - 1 implies !matches(f, #[trigger] r[j]) by {
                if j < i {
                    assert(r[j] == q[j]);
                } else {
                    assert(r[j] == q[j + 1]);
                }
            }
            assert(r[k - 1] == q[k]);
            assert(is_first_match(r, f, k - 1));
            lemma_first_match_is(r, f, k - 1);
        }
    } else {
        assert forall|j: int| 0 <= j < r.len() implies !matches(f, #[trigger] r[j]) by {
            let src = if j < i { j } else { j + 1 };
            assert(r[j] == q[src]);
            if matches(f, q[src]) {
                lemma_some_match(q, f, src);
            }
        }
        lemma_no_match(r, f);
    }
}

/// Call correlation: two callers that wait for the replies tagged `t1` and
/// `t2` each get the reply that carries their own tag, and it does not
/// matter which of them takes its reply first.
pub proof fn lemma_call_correlation(q: Seq<Envelope>, t1: Tag, t2: Tag)
    requires
        t1 != t2,
        forall|j: int| 0 <= j < q.len() ==> !(#[trigger] q[j]).is_exit_signal(),
    ensures
        received(q, Filter::of_tag_spec(t1)) matches Some(e) ==> e.tag == Some(t1),
        received(q, Filter::of_tag_spec(t2)) matches Some(e) ==> e.tag == Some(t2),
        received(remaining(q, Filter::of_tag_spec(t1)), Filter::of_tag_spec(t2)) == received(
            q,
            Filter::of_tag_spec(t2),
        ),
        received(remaining(q, Filter::of_tag_spec(t2)), Filter::of_tag_spec(t1)) == received(
            q,
            Filter::of_tag_spec(t1),
        ),
        remaining(remaining(q, Filter::of_tag_spec(t1)), Filter::of_tag_spec(t2)) == remaining(
            remaining(q, Filter::of_tag_spec(t2)),
            Filter::of_tag_spec(t1),
        ),
{
    let f1 = Filter::of_tag_spec(t1);
    let f2 = Filter::of_tag_spec(t2);
    let i = first_match(q, f1);
    let k = first_match(q, f2);
    if i >= 0 {
        lemma_first_match_is(q, f1, choose|x: int| is_first_match(q, f1, x));
        assert(!matches(f2, q[i]));
        lemma_remove_rejected(q, f2, i);
    }
    if k >= 0 {
        lemma_first_match_is(q, f2, choose|x: int| is_first_match(q, f2, x));
        assert(!matches(f1, q[k]));
        lemma_remove_rejected(q, f1, k);
    }
    if i >= 0 && k >= 0 {
        let a = q.remove(i).remove(if k < i { k } else { k - 1 });
        let b = q.remove(k).remove(if i < k { i } else { i - 1 });
        assert(a =~= b);
    }
}

/// A process's inbound queue, in arrival order.
pub struct Mailbox {
    queue: Vec<Envelope>,
}

impl View for Mailbox {
    type V = Seq<Envelope>;

    closed spec fn view(&self) -> Seq<Envelope> {
        self.queue@
    }
}

impl Mailbox {
    pub fn new() -> (r: Mailbox)
        ensures
            r@ == Seq::<Envelope>::empty(),
    {
        Mailbox { queue: Vec::new() }
    }

    pub fn len(&self) -> (r: usize)
        ensures
            r == self@.len(),
    {
        self.queue.len()
    }

    /// Appends an envelope that the substrate delivered.
    pub fn deliver(&mut self, e: Envelope)
        ensures
            final(self)@ == old(self)@.push(e),
    {
        self.queue.push(e);
    }

    /// Takes the first queued envelope that `f` accepts, wherever it stands;
    /// the envelopes ahead of it stay queued in their order. `None` means
    /// that nothing queued matches (the caller may wait for more and retry).
    pub fn receive(&mut self, f: &Filter) -> (r: Option<Envelope>)
        ensures
            r == received(old(self)@, *f),
            final(self)@ == remaining(old(self)@, *f),
    {
        let mut i: usize = 0;
        while i < self.queue.len()
            invariant
                self@ == old(self)@,
                i <= self.queue.len(),
                forall|j: int| 0 <= j < i ==> !matches(*f, #[trigger] self@[j]),
            decreases self.queue.len() - i,
        {
            if f.accepts(&self.queue[i]) {
                proof {
                    lemma_first_match_is(self@, *f, i as int);
                }
                let e = self.queue.remove(i);
                return Some(e);
            }
            i = i + 1;
        }
        proof {
            lemma_no_match(self@, *f);
        }
        None
    }
}

} // verus!
