//! Where live descriptors lie.
//!
//! A table gives each descriptor in use an address: a multiple of eight above
//! seven, so that the low bits are free for tags. An address stays valid until
//! its descriptor is removed, and may then be given to another.
use vstd::prelude::*;

use crate::resumable::common::pool::Node;

verus! {

/// The most descriptors that a table holds at a time: as many as there are
/// addresses for them.
pub const MAX_LIVE_TASKS: usize = usize::MAX / 8 - 1;

/// The live descriptors, by address.
pub struct TaskTable<D> {
    slots: Vec<Option<Node<D>>>,
    vacant: Vec<usize>,
}

/// The slot of an address.
pub open spec fn addr_slot(addr: usize) -> int {
    addr as int / 8 - 1
}

impl<D> View for TaskTable<D> {
    type V = Map<usize, Node<D>>;

    closed spec fn view(&self) -> Map<usize, Node<D>> {
        Map::new(
            |addr: usize|
                addr % 8 == 0 && 0 <= addr_slot(addr) < self.slots@.len()
                    && self.slots@[addr_slot(addr)] is Some,
            |addr: usize| self.slots@[addr_slot(addr)]->0,
        )
    }
}

impl<D> TaskTable<D> {
    /// The vacant slots are listed once each, and every other slot holds a
    /// descriptor.
    pub closed spec fn wf(&self) -> bool {
        &&& self.slots@.len() <= MAX_LIVE_TASKS
        &&& self@.dom().finite()
        &&& self@.dom().len() + self.vacant@.len() == self.slots@.len()
        &&& forall|i: int|
            0 <= i < self.vacant@.len() ==> (#[trigger] self.vacant@[i]) < self.slots@.len()
                && self.slots@[self.vacant@[i] as int] is None
        &&& self.vacant@.no_duplicates()
    }

    /// Whether another descriptor can be put in.
    pub open spec fn has_room(&self) -> bool {
        self@.dom().len() < MAX_LIVE_TASKS
    }

    /// An empty table.
    pub fn new() -> (r: Self)
        ensures
            r.wf(),
            r@ == Map::<usize, Node<D>>::empty(),
    {
        let r = TaskTable { slots: Vec::new(), vacant: Vec::new() };
        assert(r@ =~= Map::<usize, Node<D>>::empty());
        r
    }

    /// A table holds finitely many descriptors, and no more than there are
    /// addresses for.
    pub proof fn law_is_finite(&self)
        requires
            self.wf(),
        ensures
            self@.dom().finite(),
            self@.dom().len() <= MAX_LIVE_TASKS,
    {
    }

    /// Whether another descriptor can be put in.
    pub fn can_insert(&self) -> (r: bool)
        requires
            self.wf(),
        ensures
            r == self.has_room(),
    {
        self.vacant.len() > 0 || self.slots.len() < MAX_LIVE_TASKS
    }

    /// Puts a descriptor in and gives it an address that no other one has.
    pub fn insert(&mut self, node: Node<D>) -> (addr: usize)
        requires
            old(self).wf(),
            old(self).has_room(),
        ensures
            final(self).wf(),
            final(self)@.dom().len() == old(self)@.dom().len() + 1,
            crate::resumable::common::desc::is_desc_addr(addr),
            !old(self)@.dom().contains(addr),
            final(self)@ == old(self)@.insert(addr, node),
    {
        let slot: usize = match self.vacant.pop() {
            Some(slot) => {
                assert(old(self).vacant@.last() == slot);
                assert(self.slots@[slot as int] is None);
                self.slots[slot] = Some(node);
                slot
            },
            None => {
                self.slots.push(Some(node));
                self.slots.len() - 1
            },
        };
        let addr: usize = 8 * (slot + 1);
        assert(addr_slot(addr) == slot);
        assert forall|i: int| 0 <= i < self.vacant@.len() implies (#[trigger] self.vacant@[i])
            < self.slots@.len() && self.slots@[self.vacant@[i] as int] is None by {
            assert(self.vacant@[i] == old(self).vacant@[i]);
        }
        assert forall|a: usize|
            a % 8 == 0 && a != addr && 0 <= #[trigger] addr_slot(a) implies addr_slot(a) != slot by {
        }
        assert(self@ =~= old(self)@.insert(addr, node));
        assert(self@.dom() =~= old(self)@.dom().insert(addr));
        addr
    }

    /// The descriptor at an address.
    pub fn get(&self, addr: usize) -> (r: &Node<D>)
        requires
            self@.dom().contains(addr),
        ensures
            *r == self@[addr],
    {
        self.slots[addr / 8 - 1].as_ref().unwrap()
    }

    /// The descriptor at an address, to change it.
    pub fn get_mut(&mut self, addr: usize) -> (r: &mut Node<D>)
        requires
            old(self).wf(),
            old(self)@.dom().contains(addr),
        ensures
            *r == old(self)@[addr],
            final(self).wf(),
            final(self).has_room() == old(self).has_room(),
            final(self)@ == old(self)@.insert(addr, *final(r)),
    {
        let slot: usize = addr / 8 - 1;
        assert forall|t: Self|
            t.slots@.len() == self.slots@.len() && t.vacant == self.vacant && (forall|i: int|
                0 <= i < t.slots@.len() ==> ((#[trigger] t.slots@[i]) is Some) == (
                self.slots@[i] is Some)) implies #[trigger] t@.dom() == self@.dom() by {
            assert(t@.dom() =~= self@.dom());
        }
        self.slots[slot].as_mut().unwrap()
    }

    /// Takes the descriptor at an address out.
    pub fn remove(&mut self, addr: usize) -> (r: Node<D>)
        requires
            old(self).wf(),
            old(self)@.dom().contains(addr),
        ensures
            final(self).wf(),
            final(self).has_room(),
            r == old(self)@[addr],
            final(self)@ == old(self)@.remove(addr),
    {
        let slot: usize = addr / 8 - 1;
        let node = self.slots[slot].take().unwrap();
        self.vacant.push(slot);
        assert forall|a: usize|
            a % 8 == 0 && a != addr && 0 <= #[trigger] addr_slot(a) implies addr_slot(a) != slot by {
        }
        assert(self@ =~= old(self)@.remove(addr));
        assert(self@.dom() =~= old(self)@.dom().remove(addr));
        node
    }
}

} // verus!
