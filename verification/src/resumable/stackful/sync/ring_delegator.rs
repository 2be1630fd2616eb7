//! The ring of positions behind a delegator.
use vstd::prelude::*;

use crate::resumable::common::stack;
use crate::resumable::stackful::suspended::StackfulOnlyResumableCore;
use crate::resumable::stackful::sync::delegator::{DelegatorNode, SyncQueue, SyncQueueModel, WorkItem};

verus! {

/// One place of the ring.
pub struct RingSlot<W, K> {
    ready: bool,
    node: DelegatorNode<W, K>,
}

/// A queue of at most `N` positions in a ring; `N` is a power of two. The
/// counters run on past the end of the ring and wrap with the word.
pub struct RingBufQueue<W, K, const N: usize> {
    head: usize,
    tail: usize,
    nodes: Vec<RingSlot<W, K>>,
}

/// A power of two divides the number of words.
proof fn lemma_words_multiple(n: usize)
    requires
        stack::is_pow2(n),
    ensures
        n > 0,
        (usize::MAX + 1) % n as int == 0,
{
    let k = choose|k: nat| stack::is_pow2_of(n, k);
    vstd::bits::lemma_usize_pow2_no_overflow(k);
    let bits = usize::BITS as nat;
    let d = (bits - k) as nat;
    vstd::arithmetic::power2::lemma_pow2_adds(d, k);
    vstd::arithmetic::power2::lemma2_to64();
    vstd::arithmetic::power2::lemma2_to64_rest();
    vstd::arithmetic::div_mod::lemma_mod_multiples_basic(
        vstd::arithmetic::power2::pow2(d) as int,
        n as int,
    );
}

/// The place in a ring of `n` of the `i`th position from the counter `head`.
pub open spec fn ring_place(head: usize, i: int, n: usize) -> int {
    (head + i) % (n as int)
}

/// A counter's place is counted from any other counter across the wrap.
proof fn lemma_counter_place(head: usize, t: usize, n: usize)
    requires
        stack::is_pow2(n),
    ensures
        t % n == ring_place(head, t.wrapping_sub(head) as int, n),
{
    lemma_words_multiple(n);
    let w = usize::MAX + 1;
    if t < head {
        assert(head + t.wrapping_sub(head) == t + w);
        vstd::arithmetic::div_mod::lemma_add_mod_noop(t as int, w, n as int);
        vstd::arithmetic::div_mod::lemma_mod_twice(t as int, n as int);
    }
}

/// Stepping the counter steps every position by one.
proof fn lemma_step(head: usize, n: usize)
    requires
        stack::is_pow2(n),
    ensures
        forall|i: int|
            i >= 0 ==> #[trigger] ring_place(head.wrapping_add(1), i, n) == ring_place(
                head,
                i + 1,
                n,
            ),
{
    lemma_words_multiple(n);
    assert forall|i: int| i >= 0 implies #[trigger] ring_place(head.wrapping_add(1), i, n)
        == ring_place(head, i + 1, n) by {
        if head == usize::MAX {
            let w = usize::MAX + 1;
            vstd::arithmetic::div_mod::lemma_add_mod_noop(w, i, n as int);
            vstd::arithmetic::div_mod::lemma_add_mod_noop(0, i, n as int);
        }
    }
}

/// Positions lie in the ring, and within one turn at different places.
proof fn lemma_places(head: usize, n: usize)
    requires
        n > 0,
    ensures
        forall|i: int| 0 <= #[trigger] ring_place(head, i, n) < n,
        forall|i: int, j: int|
            0 <= i < j < n ==> #[trigger] ring_place(head, i, n) != #[trigger] ring_place(
                head,
                j,
                n,
            ),
        ring_place(head, n as int, n) == ring_place(head, 0, n),
{
    let m = n as int;
    assert forall|i: int| 0 <= #[trigger] ring_place(head, i, n) < n by {
        vstd::arithmetic::div_mod::lemma_mod_bound(head + i, m);
    }
    assert forall|i: int, j: int| 0 <= i < j < n implies #[trigger] ring_place(head, i, n)
        != #[trigger] ring_place(head, j, n) by {
        if ring_place(head, i, n) == ring_place(head, j, n) {
            let h = head as int;
            let r = (h + i) % m;
            let a = (h + i) / m;
            let b = (h + j) / m;
            vstd::arithmetic::div_mod::lemma_fundamental_div_mod(h + i, m);
            vstd::arithmetic::div_mod::lemma_fundamental_div_mod(h + j, m);
            assert(false) by (nonlinear_arith)
                requires
                    h + i == m * a + r,
                    h + j == m * b + r,
                    0 <= i < j < m,
            ;
        }
    }
    vstd::arithmetic::div_mod::lemma_mod_add_multiples_vanish(head as int, m);
}

impl<W: StackfulOnlyResumableCore, K: WorkItem, const N: usize> RingBufQueue<W, K, N> {
    /// The place in the ring of a counter.
    pub fn mask(idx: usize) -> (r: usize)
        requires
            stack::is_pow2(N),
        ensures
            r == idx % N,
            r < N,
    {
        proof {
            stack::lemma_mask_rounds_down(idx, N);
            vstd::arithmetic::div_mod::lemma_mod_bound(idx as int, N as int);
        }
        idx & (N - 1)
    }

    /// The place of the position at a counter.
    pub fn slot_node(&self, idx: usize) -> (r: usize)
        requires
            stack::is_pow2(N),
        ensures
            r == idx % N,
            r < N,
    {
        Self::mask(idx)
    }
}

impl<W: StackfulOnlyResumableCore, K: WorkItem, const N: usize> SyncQueueModel<W, K> for RingBufQueue<
    W,
    K,
    N,
> {
    closed spec fn len(&self) -> nat {
        self.tail.wrapping_sub(self.head) as nat
    }

    open spec fn capacity() -> nat {
        N as nat
    }

    open spec fn valid_config() -> bool {
        stack::is_pow2(N)
    }

    closed spec fn slot(&self, i: int) -> usize {
        ring_place(self.head, i, N) as usize
    }

    closed spec fn ready(&self, i: int) -> bool {
        self.nodes@[ring_place(self.head, i, N)].ready
    }

    closed spec fn node(&self, i: int) -> DelegatorNode<W, K> {
        self.nodes@[ring_place(self.head, i, N)].node
    }

    /// Only taken positions after the first are published; at a place that is
    /// not taken nobody is parked.
    closed spec fn wf(&self) -> bool {
        &&& stack::is_pow2(N)
        &&& self.nodes@.len() == N
        &&& self.tail.wrapping_sub(self.head) <= N
        &&& !self.nodes@[ring_place(self.head, 0, N)].ready
        &&& forall|i: int|
            self.tail.wrapping_sub(self.head) <= i < N ==> !self.nodes@[(
            #[trigger] ring_place(self.head, i, N))].ready
        &&& forall|i: int|
            self.tail.wrapping_sub(self.head) <= i < N ==> self.nodes@[(
            #[trigger] ring_place(self.head, i, N))].node.sth.parked() is None
    }
}

impl<W: StackfulOnlyResumableCore, K: WorkItem, const N: usize> SyncQueue<W, K> for RingBufQueue<
    W,
    K,
    N,
> {
    proof fn slots_differ(&self, i: int, j: int) {
        lemma_words_multiple(N);
        lemma_places(self.head, N);
    }

    fn new_queue() -> (r: Self) {
        proof {
            lemma_words_multiple(N);
        }
        let mut nodes: Vec<RingSlot<W, K>> = Vec::new();
        for i in 0..N
            invariant
                nodes@.len() == i,
                forall|j: int| 0 <= j < i ==> !(#[trigger] nodes@[j]).ready,
                forall|j: int| 0 <= j < i ==> (#[trigger] nodes@[j]).node.is_blank(),
        {
            nodes.push(RingSlot { ready: false, node: DelegatorNode::new() });
        }
        let r = RingBufQueue { head: 0, tail: 0, nodes };
        proof {
            lemma_places(0, N);
        }
        r
    }

    fn start_lock(&mut self) -> (r: Option<(bool, Option<usize>, usize)>) {
        let tail: usize = self.tail;
        let head: usize = self.head;
        if tail.wrapping_sub(head) >= N {
            return None;
        }
        proof {
            lemma_words_multiple(N);
            lemma_places(head, N);
            lemma_counter_place(head, tail, N);
            lemma_counter_place(head, tail.wrapping_sub(1), N);
        }
        let is_locked = tail == head;
        self.tail = tail.wrapping_add(1);
        let prev = if is_locked {
            None
        } else {
            Some(self.slot_node(tail.wrapping_sub(1)))
        };
        let cur: usize = self.slot_node(tail);
        Some((is_locked, prev, cur))
    }

    fn node_mut(&mut self, slot: usize) -> (r: &mut DelegatorNode<W, K>) {
        proof {
            lemma_words_multiple(N);
            lemma_places(self.head, N);
        }
        let ghost i = choose|i: int| 0 <= i < self.len() && #[trigger] self.slot(i) == slot;
        assert(self.slot(i) == slot);
        &mut self.nodes[slot].node
    }

    fn set_next(&mut self, cur: usize) {
        proof {
            lemma_words_multiple(N);
            lemma_places(self.head, N);
        }
        let ghost i = choose|i: int| 1 <= i < self.len() && #[trigger] self.slot(i) == cur;
        assert(self.slot(i) == cur);
        self.nodes[cur].ready = true;
    }

    fn get_head(&self) -> (r: usize) {
        self.slot_node(self.head)
    }

    fn head_is_set(&self) -> (r: bool) {
        proof {
            lemma_words_multiple(N);
            lemma_places(self.head, N);
        }
        let slot: usize = self.slot_node(self.head);
        self.nodes[slot].node.sth.is_set()
    }

    fn try_unlock(&mut self) -> (r: bool) {
        proof {
            lemma_words_multiple(N);
            lemma_places(self.head, N);
        }
        if self.tail == self.head.wrapping_add(1) {
            self.tail = self.head;
            true
        } else {
            false
        }
    }

    fn try_follow_head(&mut self) -> (r: Option<usize>) {
        proof {
            lemma_words_multiple(N);
            lemma_places(self.head, N);
            lemma_places(self.head.wrapping_add(1), N);
            lemma_step(self.head, N);
        }
        let head_slot: usize = self.slot_node(self.head);
        let next_idx: usize = self.head.wrapping_add(1);
        let next: usize = self.slot_node(next_idx);
        if self.nodes[next].ready {
            self.nodes[next].ready = false;
            self.nodes[head_slot].node = DelegatorNode::new();
            self.head = next_idx;
            return Some(next);
        }
        None
    }
}

proof fn lemma_some_pow2(n: usize)
    requires
        stack::is_pow2(n),
    ensures
        exists|k: nat| #[trigger] vstd::arithmetic::power2::pow2(k) == n,
{
    let k = choose|k: nat| stack::is_pow2_of(n, k);
    assert(vstd::arithmetic::power2::pow2(k) == n);
}

/// A ring uses every place it has: it takes as many positions as it has places,
/// each position lies one place after the one before it, and the position after
/// the last place lies at the first again.
pub proof fn law_ring_uses_every_place<W: StackfulOnlyResumableCore, K: WorkItem, const N: usize>(
    q: RingBufQueue<W, K, N>,
    i: int,
)
    requires
        q.wf(),
        i >= 0,
    ensures
        RingBufQueue::<W, K, N>::capacity() == N,
        exists|k: nat| #[trigger] vstd::arithmetic::power2::pow2(k) == N,
        q.len() <= N,
        q.slot(i) < N,
        q.slot(i + 1) == (if q.slot(i) + 1 == N {
            0
        } else {
            q.slot(i) + 1
        }),
        q.slot(i + N) == q.slot(i),
{
    lemma_words_multiple(N);
    lemma_places(q.head, N);
    let m = N as int;
    let h = q.head as int;
    lemma_some_pow2(N);
    vstd::arithmetic::div_mod::lemma_mod_bound(h + i, m);
    vstd::arithmetic::div_mod::lemma_fundamental_div_mod(h + i, m);
    let d = (h + i) / m;
    let r = (h + i) % m;
    if r + 1 == m {
        assert(h + i + 1 == (d + 1) * m + 0) by (nonlinear_arith)
            requires
                h + i == m * d + r,
                r + 1 == m,
        ;
        vstd::arithmetic::div_mod::lemma_fundamental_div_mod_converse(h + i + 1, m, d + 1, 0);
    } else {
        assert(h + i + 1 == d * m + (r + 1)) by (nonlinear_arith)
            requires
                h + i == m * d + r,
        ;
        vstd::arithmetic::div_mod::lemma_fundamental_div_mod_converse(h + i + 1, m, d, r + 1);
    }
    vstd::arithmetic::div_mod::lemma_mod_add_multiples_vanish(h + i, m);
    assert(ring_place(q.head, i + N, N) == (m + (h + i)) % m);
}

} // verus!
