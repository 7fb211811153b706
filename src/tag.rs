//! Per-process correlation tags.
use vstd::prelude::*;

verus! {

/// A correlation identifier, unique within the process that made it.
#[derive(Clone, Copy, Debug, PartialEq, Eq, Structural, Hash)]
pub struct Tag {
    pub id: u64,
}

impl Tag {
    pub fn id(&self) -> (r: u64)
        ensures
            r == self.id,
    {
        self.id
    }
}

/// The per-process source of tags: each tag it hands out is larger than
/// every tag handed out before, so none is ever reused.
pub struct TagGenerator {
    next: u64,
    exhausted: bool,
}

impl TagGenerator {
    /// The smallest id that the generator may still hand out.
    pub closed spec fn next_id(&self) -> nat {
        if self.exhausted { u64::MAX as nat + 1 } else { self.next as nat }
    }

    pub fn new() -> (r: TagGenerator)
        ensures
            r.next_id() == 1,
    {
        TagGenerator { next: 1, exhausted: false }
    }

    /// Hands out a fresh tag, or `None` once every `u64` id has been used.
    pub fn next_tag(&mut self) -> (r: Option<Tag>)
        ensures
            old(self).next_id() <= u64::MAX ==> r == Some(Tag { id: old(self).next_id() as u64 })
                && final(self).next_id() == old(self).next_id() + 1,
            old(self).next_id() > u64::MAX ==> r.is_none() && final(self).next_id()
                == old(self).next_id(),
    {
        if self.exhausted {
            None
        } else {
            let t = Tag { id: self.next };
            if self.next == u64::MAX {
                self.exhausted = true;
            } else {
                self.next = self.next + 1;
            }
            Some(t)
        }
    }
}

} // verus!
