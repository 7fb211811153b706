//! Process handles and the link graph between processes.
//!
//! Links form an undirected graph over handles, cycles included. When a
//! process fails abnormally, the failure spreads along links to every
//! process that does not trap exit signals; a trapping process receives the
//! signal as a message and stops the spread.
use vstd::prelude::*;

verus! {

broadcast use vstd::seq_lib::lemma_seq_contains_after_push;

/// Names one process, on one node.
#[derive(Clone, Copy, Debug, PartialEq, Eq, Structural, Hash)]
pub struct ProcessHandle {
    pub node: u64,
    pub id: u64,
}

pub open spec fn is_link(e: (ProcessHandle, ProcessHandle), a: ProcessHandle, b: ProcessHandle) -> bool {
    e == (a, b) || e == (b, a)
}

/// `s` holds every process that a failure inside `s` reaches over one link.
pub open spec fn closed_under(
    s: Set<ProcessHandle>,
    edges: Seq<(ProcessHandle, ProcessHandle)>,
    trapping: Set<ProcessHandle>,
) -> bool {
    forall|k: int|
        0 <= k < edges.len() ==> {
            &&& (s.contains((#[trigger] edges[k]).0) && !trapping.contains(edges[k].1)
                ==> s.contains(edges[k].1))
            &&& (s.contains(edges[k].1) && !trapping.contains(edges[k].0) ==> s.contains(
                edges[k].0,
            ))
        }
}

/// The number of links with an end outside `d`.
pub open spec fn open_links(edges: Seq<(ProcessHandle, ProcessHandle)>, d: Seq<ProcessHandle>) -> nat
    decreases edges.len(),
{
    if edges.len() == 0 {
        0
    } else {
        open_links(edges.drop_last(), d) + if d.contains(edges.last().0) && d.contains(
            edges.last().1,
        ) {
            0nat
        } else {
            1nat
        }
    }
}

proof fn lemma_open_links_shrink(
    edges: Seq<(ProcessHandle, ProcessHandle)>,
    d: Seq<ProcessHandle>,
    x: ProcessHandle,
    k: int,
)
    requires
        0 <= k < edges.len(),
        d.contains(edges[k].0) || d.contains(edges[k].1),
        !d.contains(x),
        edges[k].0 == x || edges[k].1 == x,
    ensures
        open_links(edges, d.push(x)) < open_links(edges, d),
    decreases edges.len(),
{
    lemma_open_links_grow(edges.drop_last(), d, x);
    if k < edges.len() - 1 {
        assert(edges.drop_last()[k] == edges[k]);
        lemma_open_links_shrink(edges.drop_last(), d, x, k);
    }
}

proof fn lemma_open_links_grow(
    edges: Seq<(ProcessHandle, ProcessHandle)>,
    d: Seq<ProcessHandle>,
    x: ProcessHandle,
)
    ensures
        open_links(edges, d.push(x)) <= open_links(edges, d),
    decreases edges.len(),
{
    if edges.len() > 0 {
        lemma_open_links_grow(edges.drop_last(), d, x);
    }
}

fn holds(v: &Vec<ProcessHandle>, x: ProcessHandle) -> (r: bool)
    ensures
        r == v@.contains(x),
{
    let mut i: usize = 0;
    while i < v.len()
        invariant
            i <= v@.len(),
            forall|j: int| 0 <= j < i ==> v@[j] != x,
        decreases v@.len() - i,
    {
        if v[i] == x {
            return true;
        }
        i = i + 1;
    }
    false
}

/// The links between processes, as an undirected graph.
pub struct Links {
    edges: Vec<(ProcessHandle, ProcessHandle)>,
}

impl View for Links {
    type V = Seq<(ProcessHandle, ProcessHandle)>;

    closed spec fn view(&self) -> Seq<(ProcessHandle, ProcessHandle)> {
        self.edges@
    }
}

impl Links {
    /// `a` and `b` are linked.
    pub open spec fn linked(&self, a: ProcessHandle, b: ProcessHandle) -> bool {
        exists|k: int| 0 <= k < self@.len() && is_link(#[trigger] self@[k], a, b)
    }

    pub fn new() -> (r: Links)
        ensures
            forall|a: ProcessHandle, b: ProcessHandle| !r.linked(a, b),
    {
        Links { edges: Vec::new() }
    }

    pub fn is_linked(&self, a: ProcessHandle, b: ProcessHandle) -> (r: bool)
        ensures
            r == self.linked(a, b),
    {
        let mut k: usize = 0;
        while k < self.edges.len()
            invariant
                k <= self@.len(),
                forall|j: int| 0 <= j < k ==> !is_link(#[trigger] self@[j], a, b),
            decreases self@.len() - k,
        {
            let e = self.edges[k];
            if (e.0 == a && e.1 == b) || (e.0 == b && e.1 == a) {
                return true;
            }
            k = k + 1;
        }
        false
    }

    /// Links `a` and `b`; linking twice is the same as linking once.
    pub fn link(&mut self, a: ProcessHandle, b: ProcessHandle)
        ensures
            forall|x: ProcessHandle, y: ProcessHandle|
                #[trigger] final(self).linked(x, y) == (old(self).linked(x, y) || is_link((x, y), a, b)),
    {
        if !self.is_linked(a, b) {
            let ghost before = self@;
            self.edges.push((a, b));
            assert forall|x: ProcessHandle, y: ProcessHandle|
                #[trigger] self.linked(x, y) == (old(self).linked(x, y) || is_link((x, y), a, b)) by {
                if old(self).linked(x, y) {
                    let k = choose|k: int| 0 <= k < before.len() && is_link(before[k], x, y);
                    assert(self@[k] == before[k]);
                }
                if is_link((x, y), a, b) {
                    assert(self@[before.len() as int] == (a, b));
                }
                if self.linked(x, y) {
                    let k = choose|k: int| 0 <= k < self@.len() && is_link(self@[k], x, y);
                    if k < before.len() {
                        assert(before[k] == self@[k]);
                    }
                }
            }
        }
    }

    /// Removes the link between `a` and `b`, if any.
    pub fn unlink(&mut self, a: ProcessHandle, b: ProcessHandle)
        ensures
            forall|x: ProcessHandle, y: ProcessHandle|
                #[trigger] final(self).linked(x, y) == (old(self).linked(x, y) && !is_link((x, y), a, b)),
    {
        let mut kept: Vec<(ProcessHandle, ProcessHandle)> = Vec::new();
        let mut k: usize = 0;
        while k < self.edges.len()
            invariant
                self@ == old(self)@,
                k <= self@.len(),
                forall|j: int| 0 <= j < kept@.len() ==> !is_link(#[trigger] kept@[j], a, b)
                    && exists|i: int| 0 <= i < k && self@[i] == kept@[j],
                forall|i: int| 0 <= i < k && !is_link(#[trigger] self@[i], a, b) ==> kept@.contains(
                    self@[i],
                ),
            decreases self@.len() - k,
        {
            let e = self.edges[k];
            if !((e.0 == a && e.1 == b) || (e.0 == b && e.1 == a)) {
                kept.push(e);
                assert(kept@[kept@.len() - 1] == self@[k as int]);
            }
            k = k + 1;
        }
        let ghost before = self@;
        self.edges = kept;
        assert forall|x: ProcessHandle, y: ProcessHandle|
            #[trigger] self.linked(x, y) == (old(self).linked(x, y) && !is_link((x, y), a, b)) by {
            if self.linked(x, y) {
                let j = choose|j: int| 0 <= j < self@.len() && is_link(self@[j], x, y);
                let i = choose|i: int| 0 <= i < before.len() && before[i] == self@[j];
                assert(is_link(before[i], x, y));
            }
            if old(self).linked(x, y) && !is_link((x, y), a, b) {
                let i = choose|i: int| 0 <= i < before.len() && is_link(before[i], x, y);
                assert(!is_link(before[i], a, b));
                let j = choose|j: int| 0 <= j < self@.len() && self@[j] == before[i];
                assert(is_link(self@[j], x, y));
            }
        }
    }

    /// The processes that end when `failed` ends abnormally: `failed`, and
    /// every process that the failure reaches over links without passing a
    /// process in `trapping`. This is the least set that holds `failed` and
    /// is closed under such links.
    #[verifier::loop_isolation(false)]
    pub fn cascade(&self, failed: ProcessHandle, trapping: &Vec<ProcessHandle>) -> (r: Vec<
        ProcessHandle,
    >)
        ensures
            r@.contains(failed),
            closed_under(r@.to_set(), self@, trapping@.to_set()),
            forall|s: Set<ProcessHandle>|
                closed_under(s, self@, trapping@.to_set()) && s.contains(failed) ==> r@.to_set()
                    <= s,
            r@.no_duplicates(),
    {
        let ghost edges = self@;
        let ghost traps = trapping@.to_set();
        let mut dead: Vec<ProcessHandle> = Vec::new();
        dead.push(failed);
        let mut growing = true;
        assert(dead@[0] == failed);
        while growing
            invariant
                edges == self@,
                traps == trapping@.to_set(),
                dead@.contains(failed),
                dead@.no_duplicates(),
                forall|s: Set<ProcessHandle>|
                    closed_under(s, edges, traps) && s.contains(failed) ==> dead@.to_set() <= s,
                !growing ==> closed_under(dead@.to_set(), edges, traps),
            decreases open_links(edges, dead@) + if growing { 1nat } else { 0nat },
        {
            let mut found: Option<ProcessHandle> = None;
            let mut k: usize = 0;
            let ghost at: int = 0;
            while k < self.edges.len() && found.is_none()
                invariant
                    edges == self@,
                    k <= edges.len(),
                    found matches Some(x) ==> !dead@.contains(x) && !traps.contains(x) && 0 <= at
                        < edges.len() && (edges[at].0 == x || edges[at].1 == x) && (
                    dead@.contains(edges[at].0) || dead@.contains(edges[at].1)) && (dead@.contains(
                        edges[at].0,
                    ) && edges[at].1 == x || dead@.contains(edges[at].1) && edges[at].0 == x),
                    found is None ==> forall|j: int|
                        0 <= j < k ==> {
                            &&& (dead@.contains((#[trigger] edges[j]).0) && !traps.contains(
                                edges[j].1,
                            ) ==> dead@.contains(edges[j].1))
                            &&& (dead@.contains(edges[j].1) && !traps.contains(edges[j].0)
                                ==> dead@.contains(edges[j].0))
                        },
                decreases edges.len() - k,
            {
                let e = self.edges[k];
                let a_dead = holds(&dead, e.0);
                let b_dead = holds(&dead, e.1);
                if a_dead && !b_dead && !holds(trapping, e.1) {
                    found = Some(e.1);
                    proof {
                        at = k as int;
                    }
                } else if b_dead && !a_dead && !holds(trapping, e.0) {
                    found = Some(e.0);
                    proof {
                        at = k as int;
                    }
                }
                k = k + 1;
            }
            match found {
                None => {
                    growing = false;
                    assert forall|j: int| 0 <= j < edges.len() implies {
                        &&& (dead@.to_set().contains((#[trigger] edges[j]).0) && !traps.contains(
                            edges[j].1,
                        ) ==> dead@.to_set().contains(edges[j].1))
                        &&& (dead@.to_set().contains(edges[j].1) && !traps.contains(edges[j].0)
                            ==> dead@.to_set().contains(edges[j].0))
                    } by {}
                },
                Some(x) => {
                    proof {
                        lemma_open_links_shrink(edges, dead@, x, at);
                        assert forall|s: Set<ProcessHandle>|
                            closed_under(s, edges, traps) && s.contains(
                                failed,
                            ) implies dead@.push(x).to_set() <= s by {
                            assert(dead@.to_set() <= s);
                            if dead@.contains(edges[at].0) && edges[at].1 == x {
                                assert(s.contains(edges[at].0));
                            } else {
                                assert(s.contains(edges[at].1));
                            }
                            dead@.lemma_push_to_set_commute(x);
                        }
                        assert(dead@.push(x)[dead@.len() as int] == x);
                        let old_dead = dead@;
                        assert forall|i: int, j: int|
                            0 <= i < j < old_dead.push(x).len() implies old_dead.push(x)[i]
                            != old_dead.push(x)[j] by {
                            if j == old_dead.len() {
                                assert(old_dead[i] == old_dead.push(x)[i]);
                            }
                        }
                    }
                    dead.push(x);
                },
            }
        }
        dead
    }
}

/// Monitors: one-directional watches. When a watched process ends, each of
/// its watchers is told, and none of them ends on that account.
pub struct Monitors {
    pairs: Vec<(ProcessHandle, ProcessHandle)>,
}

impl View for Monitors {
    /// The (watcher, watched) pairs.
    type V = Seq<(ProcessHandle, ProcessHandle)>;

    closed spec fn view(&self) -> Seq<(ProcessHandle, ProcessHandle)> {
        self.pairs@
    }
}

impl Monitors {
    pub open spec fn watches(&self, watcher: ProcessHandle, watched: ProcessHandle) -> bool {
        self@.contains((watcher, watched))
    }

    pub fn new() -> (r: Monitors)
        ensures
            r@ == Seq::<(ProcessHandle, ProcessHandle)>::empty(),
    {
        Monitors { pairs: Vec::new() }
    }

    /// `watcher` starts to monitor `watched`.
    pub fn monitor(&mut self, watcher: ProcessHandle, watched: ProcessHandle)
        ensures
            forall|w: ProcessHandle, t: ProcessHandle|
                #[trigger] final(self).watches(w, t) == (old(self).watches(w, t) || (w, t) == (
                watcher,
                watched,
            )),
    {
        self.pairs.push((watcher, watched));
    }

    /// The processes to notify when `ended` ends: its watchers, each once.
    pub fn watchers_of(&self, ended: ProcessHandle) -> (r: Vec<ProcessHandle>)
        ensures
            forall|w: ProcessHandle| #[trigger] r@.contains(w) == self.watches(w, ended),
            r@.no_duplicates(),
    {
        let mut r: Vec<ProcessHandle> = Vec::new();
        let mut k: usize = 0;
        while k < self.pairs.len()
            invariant
                k <= self@.len(),
                r@.no_duplicates(),
                forall|w: ProcessHandle|
                    #[trigger] r@.contains(w) == self@.subrange(0, k as int).contains((w, ended)),
            decreases self@.len() - k,
        {
            let (w, t) = self.pairs[k];
            proof {
                assert(self@.subrange(0, k as int + 1) =~= self@.subrange(0, k as int).push(
                    self@[k as int],
                ));
            }
            if t == ended && !holds(&r, w) {
                proof {
                    let old_r = r@;
                    assert forall|i: int, j: int|
                        0 <= i < j < old_r.push(w).len() implies old_r.push(w)[i] != old_r.push(
                            w,
                        )[j] by {
                        if j == old_r.len() {
                            assert(old_r[i] == old_r.push(w)[i]);
                        }
                    }
                }
                r.push(w);
            }
            k = k + 1;
        }
        proof {
            assert(self@.subrange(0, self@.len() as int) =~= self@);
        }
        r
    }
}

} // verus!
