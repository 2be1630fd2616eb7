//! Storage that belongs to a task and moves with it.
use core::marker::PhantomData;
use std::collections::HashMap;
use vstd::prelude::*;

use crate::resumable::common::desc::DescOwned;

verus! {

/// The index of a slot that has none yet.
pub const TLS_ANCHOR_UNASSIGNED: usize = usize::MAX;

/// What a task has stored, by key.
pub open spec fn stored(d: DescOwned) -> Map<usize, usize> {
    match d.tls {
        Some(m) => m@,
        None => Map::empty(),
    }
}

/// A slot of a system: each of its tasks has an address of its own there; null
/// where it has stored none.
pub struct UltTls<S, T> {
    index: usize,
    marker: PhantomData<(S, T)>,
}

impl<S, T> UltTls<S, T> {
    /// The key of the slot, once it has one.
    pub closed spec fn assigned(&self) -> Option<usize> {
        if self.index == TLS_ANCHOR_UNASSIGNED {
            None
        } else {
            Some(self.index)
        }
    }

    /// The key, if there is one, was drawn before the counter came to
    /// `next_key`.
    pub open spec fn counted(&self, next_key: int) -> bool {
        self.assigned() matches Some(i) ==> i < next_key
    }

    /// A slot without a key.
    pub fn new() -> (r: Self)
        ensures
            r.assigned() is None,
    {
        UltTls { index: TLS_ANCHOR_UNASSIGNED, marker: PhantomData }
    }

    /// The key of the slot. The first one to ask draws it from the counter
    /// that all slots share.
    pub fn key(&mut self, next_key: &mut usize) -> (r: usize)
        requires
            old(self).assigned() is None ==> *old(next_key) < TLS_ANCHOR_UNASSIGNED,
        ensures
            final(self).assigned() == Some(r),
            old(self).assigned() is Some ==> *final(self) == *old(self),
            match old(self).assigned() {
                Some(key) => r == key && *final(next_key) == *old(next_key),
                None => r == *old(next_key) && *final(next_key) == *old(next_key) + 1,
            },
    {
        if self.index != TLS_ANCHOR_UNASSIGNED {
            return self.index;
        }
        let candidate: usize = *next_key;
        *next_key = candidate + 1;
        self.index = candidate;
        candidate
    }

    /// What the task with the fields `owned` has stored in the slot. A slot
    /// without a key draws it only when the task has stored anything at all.
    pub fn get(&mut self, next_key: &mut usize, owned: &DescOwned) -> (r: usize)
        requires
            owned.tls is Some && old(self).assigned() is None ==> *old(next_key)
                < TLS_ANCHOR_UNASSIGNED,
        ensures
            owned.tls is None || old(self).assigned() is Some ==> *final(self) == *old(self)
                && *final(next_key) == *old(next_key),
            owned.tls is Some && old(self).assigned() is None ==> final(self).assigned() == Some(
                *old(next_key),
            ) && *final(next_key) == *old(next_key) + 1,
            match final(self).assigned() {
                Some(key) => r == held(stored(*owned), key),
                None => r == 0,
            },
    {
        broadcast use vstd::std_specs::hash::group_hash_axioms;

        match &owned.tls {
            Some(m) => {
                let key: usize = self.key(next_key);
                match m.get(&key) {
                    Some(p) => *p,
                    None => 0,
                }
            },
            None => 0,
        }
    }

    /// Stores an address in the slot, for the task with the fields `owned`.
    pub fn set(&mut self, next_key: &mut usize, owned: &mut DescOwned, p: usize)
        requires
            old(self).assigned() is None ==> *old(next_key) < TLS_ANCHOR_UNASSIGNED,
        ensures
            final(self).assigned() is Some,
            old(self).assigned() is Some ==> final(self).assigned() == old(self).assigned()
                && *final(next_key) == *old(next_key),
            old(self).assigned() is None ==> final(self).assigned() == Some(*old(next_key))
                && *final(next_key) == *old(next_key) + 1,
            stored(*final(owned)) == stored(*old(owned)).insert(final(self).assigned()->0, p),
    {
        broadcast use vstd::std_specs::hash::group_hash_axioms;

        let key: usize = self.key(next_key);
        let mut m: HashMap<usize, usize> = match owned.tls.take() {
            Some(m) => m,
            None => HashMap::new(),
        };
        m.insert(key, p);
        owned.tls = Some(m);
        assert(stored(*owned) =~= stored(*old(owned)).insert(key, p));
    }
}

/// What a slot with the key `key` holds for a task that has stored `m`.
pub open spec fn held(m: Map<usize, usize>, key: usize) -> usize {
    if m.dom().contains(key) {
        m[key]
    } else {
        0
    }
}

/// A task reads back what it stored last in a slot, and what it stored in other
/// slots stays.
pub proof fn law_tls_reads_back(before: Map<usize, usize>, key: usize, p: usize, other: usize)
    ensures
        held(before.insert(key, p), key) == p,
        other != key ==> held(before.insert(key, p), other) == held(before, other),
        !before.dom().contains(other) ==> held(before, other) == 0,
        held(Map::empty(), other) == 0,
{
}

/// Slots do not share keys: one that draws its key gets another one than every
/// slot that drew before it.
pub proof fn law_keys_are_distinct<S, T, U>(
    earlier: UltTls<S, T>,
    drawn: UltTls<S, U>,
    next_key: usize,
)
    requires
        earlier.counted(next_key as int),
        drawn.assigned() == Some(next_key),
    ensures
        earlier.assigned() != drawn.assigned(),
        earlier.counted(next_key + 1),
        drawn.counted(next_key + 1),
{
}

/// A task that has stored nothing holds nothing, and one that has holds what its
/// table holds.
pub proof fn law_new_task_has_stored_nothing(d: DescOwned, key: usize)
    ensures
        d.tls is None ==> held(stored(d), key) == 0,
        d.tls matches Some(m) ==> held(stored(d), key) == (if m@.dom().contains(key) {
            m@[key]
        } else {
            0
        }),
{
}

} // verus!
