use vstd::prelude::*;
use crate::local::LocalNodeIndex;

verus! {

/// A first-in first-out queue of sections for one layer of the walk.
/// Popped items stay in storage until `reset` rewinds it.
pub struct BfsQueue {
    elements: Vec<LocalNodeIndex>,
    head: usize,
}

impl BfsQueue {
    pub closed spec fn wf(&self) -> bool {
        self.head <= self.elements@.len()
    }

    /// The items waiting, oldest first.
    pub closed spec fn view(&self) -> Seq<LocalNodeIndex> {
        self.elements@.subrange(self.head as int, self.elements@.len() as int)
    }

    pub fn new() -> (r: Self)
        ensures
            r.wf(),
            r@ == Seq::<LocalNodeIndex>::empty(),
    {
        let r = BfsQueue { elements: Vec::new(), head: 0 };
        assert(r@ =~= Seq::<LocalNodeIndex>::empty());
        r
    }

    pub fn push(&mut self, index: LocalNodeIndex)
        requires
            old(self).wf(),
        ensures
            final(self).wf(),
            final(self)@ == old(self)@.push(index),
    {
        self.elements.push(index);
        assert(self@ =~= old(self)@.push(index));
    }

    /// Pushes `index` only where `cond` holds.
    pub fn push_conditionally(&mut self, index: LocalNodeIndex, cond: bool)
        requires
            old(self).wf(),
        ensures
            final(self).wf(),
            final(self)@ == if cond { old(self)@.push(index) } else { old(self)@ },
    {
        if cond {
            self.push(index);
        }
    }

    /// Takes the oldest item, if any.
    pub fn pop(&mut self) -> (r: Option<LocalNodeIndex>)
        requires
            old(self).wf(),
        ensures
            final(self).wf(),
            old(self)@.len() == 0 ==> r.is_none() && final(self)@ == old(self)@,
            old(self)@.len() > 0 ==> r == Some(old(self)@[0]) && final(self)@ == old(self)@.drop_first(),
    {
        if self.head < self.elements.len() {
            let r = self.elements[self.head];
            self.head = self.head + 1;
            assert(self@ =~= old(self)@.drop_first());
            Some(r)
        } else {
            None
        }
    }

    pub fn is_empty(&self) -> (r: bool)
        requires
            self.wf(),
        ensures
            r == (self@.len() == 0),
    {
        self.head >= self.elements.len()
    }

    /// Rewinds to the start of storage, with nothing waiting.
    pub fn reset(&mut self)
        ensures
            final(self).wf(),
            final(self)@ == Seq::<LocalNodeIndex>::empty(),
    {
        self.elements.clear();
        self.head = 0;
        assert(self@ =~= Seq::<LocalNodeIndex>::empty());
    }
}

} // verus!
