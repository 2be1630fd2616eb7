//! Descriptor and block pools.
//!
//! [`ReturnPool`] and [`BlockPool`] share one free-list core: a node returns
//! to the worker that allocated it, and returns from other workers are staged
//! in batches so that the home worker's mailbox is locked once for a batch.
//! [`SimplePool`] keeps one bounded list for each worker and returns nothing.
use vstd::multiset::Multiset;
use vstd::prelude::*;

use crate::resumable::common::desc::{HasDescOwned, TaskDescAlloc};
use crate::resumable::common::layout::Layout;
use crate::resumable::common::stack::StackMem;

verus! {

// ---------------------------------------------------------------------------
// Free-list core
// ---------------------------------------------------------------------------

/// A node of the free lists: it remembers the worker that allocated it.
pub trait PoolNode: Sized {
    /// The worker that allocated the node.
    spec fn home(&self) -> usize;

    /// The worker that allocated the node.
    fn alloc_wk(&self) -> (r: usize)
        ensures
            r == self.home(),
    ;
}

/// Nodes on their way back to one home worker, staged by one other worker.
pub struct ProList<N> {
    items: Vec<N>,
}

impl<N> ProList<N> {
    /// An empty staging list.
    pub fn empty() -> (r: Self)
        ensures
            r@ == Seq::<N>::empty(),
    {
        ProList { items: Vec::new() }
    }
}

impl<N> View for ProList<N> {
    type V = Seq<N>;

    /// The staged nodes, the one staged last at the end.
    closed spec fn view(&self) -> Seq<N> {
        self.items@
    }
}

/// What one worker has: a list of its own, and a mailbox that other workers
/// put whole batches into.
pub struct WorkerEntry<N> {
    con_local: Vec<N>,
    con_remote: Vec<N>,
}

impl<N> WorkerEntry<N> {
    /// The worker's own list, the node to take next at the end.
    pub closed spec fn local(&self) -> Seq<N> {
        self.con_local@
    }

    /// The worker's mailbox, the node to take next at the end.
    pub closed spec fn remote(&self) -> Seq<N> {
        self.con_remote@
    }
}

/// The lists of all workers.
pub struct FreeLists<N> {
    workers: Vec<WorkerEntry<N>>,
    pro_arrays: Vec<Vec<ProList<N>>>,
}

/// The lists of all workers, as sequences with the most recent node last.
#[verifier::ext_equal]
pub struct ListsView<N> {
    /// Each worker's own list.
    pub local: Seq<Seq<N>>,
    /// Each worker's mailbox.
    pub remote: Seq<Seq<N>>,
    /// What each worker has staged for each home worker.
    pub staged: Seq<Seq<Seq<N>>>,
}

impl<N> View for FreeLists<N> {
    type V = ListsView<N>;

    closed spec fn view(&self) -> ListsView<N> {
        ListsView {
            local: Seq::new(self.workers@.len(), |w: int| self.workers@[w].con_local@),
            remote: Seq::new(self.workers@.len(), |w: int| self.workers@[w].con_remote@),
            staged: Seq::new(
                self.pro_arrays@.len(),
                |c: int|
                    Seq::new(
                        self.pro_arrays@[c]@.len(),
                        |h: int| self.pro_arrays@[c]@[h].items@,
                    ),
            ),
        }
    }
}

/// Whether every node of a list was allocated by `w`.
pub open spec fn all_from<N: PoolNode>(list: Seq<N>, w: int) -> bool {
    forall|i: int| 0 <= i < list.len() ==> #[trigger] list[i].home() == w
}

impl<N: PoolNode> ListsView<N> {
    /// The lists serve `n` workers with batches of `threshold`, and every node
    /// is in a list of its home worker or on its way there: a worker's own
    /// list and mailbox hold its own nodes, staging lists hold nodes of the
    /// worker they are for, never more than a batch, and nobody stages for
    /// itself.
    pub open spec fn wf(self, n: nat, threshold: nat) -> bool {
        &&& self.local.len() == n
        &&& self.remote.len() == n
        &&& self.staged.len() == n
        &&& forall|w: int| 0 <= w < n ==> all_from(#[trigger] self.local[w], w)
        &&& forall|w: int| 0 <= w < n ==> all_from(#[trigger] self.remote[w], w)
        &&& forall|c: int| 0 <= c < n ==> (#[trigger] self.staged[c]).len() == n
        &&& forall|c: int, h: int|
            0 <= c < n && 0 <= h < n ==> all_from(#[trigger] self.staged[c][h], h)
        &&& forall|c: int, h: int|
            0 <= c < n && 0 <= h < n ==> (#[trigger] self.staged[c][h]).len() <= threshold
        &&& forall|c: int| 0 <= c < n ==> (#[trigger] self.staged[c])[c].len() == 0
    }

    /// Empty lists for `n` workers.
    pub open spec fn empty(n: nat) -> Self {
        ListsView {
            local: Seq::new(n, |w: int| Seq::empty()),
            remote: Seq::new(n, |w: int| Seq::empty()),
            staged: Seq::new(n, |c: int| Seq::new(n, |h: int| Seq::empty())),
        }
    }

    /// The node that worker `w` takes: the last of its own list, or else the
    /// last of its mailbox.
    pub open spec fn next_for(self, w: int) -> Option<N> {
        if self.local[w].len() > 0 {
            Some(self.local[w].last())
        } else if self.remote[w].len() > 0 {
            Some(self.remote[w].last())
        } else {
            None
        }
    }

    /// The lists after worker `w` took a node. A mailbox is drained whole.
    pub open spec fn after_take(self, w: int) -> Self {
        if self.local[w].len() > 0 {
            ListsView { local: self.local.update(w, self.local[w].drop_last()), ..self }
        } else if self.remote[w].len() > 0 {
            ListsView {
                local: self.local.update(w, self.remote[w].drop_last()),
                remote: self.remote.update(w, Seq::empty()),
                ..self
            }
        } else {
            self
        }
    }

    /// The lists after worker `c` gave `node` back. At home the node goes to
    /// the worker's own list. Elsewhere it is staged; a full batch is first
    /// put on top of the home worker's mailbox.
    pub open spec fn after_give(self, c: int, node: N, threshold: nat) -> Self {
        let h = node.home() as int;
        if h == c {
            ListsView { local: self.local.update(c, self.local[c].push(node)), ..self }
        } else if self.staged[c][h].len() < threshold {
            ListsView {
                staged: self.staged.update(
                    c,
                    self.staged[c].update(h, self.staged[c][h].push(node)),
                ),
                ..self
            }
        } else {
            ListsView {
                remote: self.remote.update(h, self.remote[h] + self.staged[c][h]),
                staged: self.staged.update(c, self.staged[c].update(h, seq![node])),
                ..self
            }
        }
    }
}

/// Empty lists for `num_workers` workers.
pub fn new_workers_and_pro_arrays<N: PoolNode>(num_workers: usize) -> (r: FreeLists<N>)
    ensures
        r@ == ListsView::<N>::empty(num_workers as nat),
{
    let mut workers: Vec<WorkerEntry<N>> = Vec::new();
    let mut pro_arrays: Vec<Vec<ProList<N>>> = Vec::new();
    for c in 0..num_workers
        invariant
            workers.len() == c,
            pro_arrays.len() == c,
            forall|w: int| 0 <= w < c ==> (#[trigger] workers@[w]).con_local@ == Seq::<N>::empty(),
            forall|w: int| 0 <= w < c ==> (#[trigger] workers@[w]).con_remote@ == Seq::<N>::empty(),
            forall|w: int|
                0 <= w < c ==> (#[trigger] pro_arrays@[w])@.len() == num_workers && forall|h: int|
                    0 <= h < num_workers ==> (#[trigger] pro_arrays@[w]@[h]).items@ == Seq::<
                        N,
                    >::empty(),
    {
        workers.push(WorkerEntry { con_local: Vec::new(), con_remote: Vec::new() });
        let mut pros: Vec<ProList<N>> = Vec::new();
        for h in 0..num_workers
            invariant
                pros.len() == h,
                forall|i: int| 0 <= i < h ==> (#[trigger] pros@[i]).items@ == Seq::<N>::empty(),
        {
            pros.push(ProList::empty());
        }
        pro_arrays.push(pros);
    }
    let r = FreeLists { workers, pro_arrays };
    assert(r@ =~~= ListsView::<N>::empty(num_workers as nat));
    r
}

/// Takes a node for worker `wk_num`: from its own list, or else, draining it,
/// from its mailbox.
pub fn node_take<N: PoolNode>(lists: &mut FreeLists<N>, wk_num: usize) -> (r: Option<N>)
    requires
        wk_num < old(lists)@.local.len(),
    ensures
        r == old(lists)@.next_for(wk_num as int),
        final(lists)@ == old(lists)@.after_take(wk_num as int),
{
    if lists.workers[wk_num].con_local.len() > 0 {
        let node = lists.workers[wk_num].con_local.pop();
        assert(lists@ =~~= old(lists)@.after_take(wk_num as int));
        return node;
    }
    let mut batch: Vec<N> = Vec::new();
    std::mem::swap(&mut batch, &mut lists.workers[wk_num].con_remote);
    let node = batch.pop();
    lists.workers[wk_num].con_local = batch;
    assert(lists@ =~~= old(lists)@.after_take(wk_num as int));
    node
}

/// Gives `node` back from worker `cur_wk`.
pub fn node_give<N: PoolNode>(lists: &mut FreeLists<N>, cur_wk: usize, node: N, threshold: usize)
    requires
        cur_wk < old(lists)@.local.len(),
        cur_wk < old(lists)@.staged.len(),
        node.home() < old(lists)@.remote.len(),
        node.home() < old(lists)@.staged[cur_wk as int].len(),
    ensures
        final(lists)@ == old(lists)@.after_give(cur_wk as int, node, threshold as nat),
{
    let alloc_wk: usize = node.alloc_wk();
    if alloc_wk == cur_wk {
        lists.workers[cur_wk].con_local.push(node);
        assert(lists@ =~~= old(lists)@.after_give(cur_wk as int, node, threshold as nat));
        return;
    }
    let old_num: usize = lists.pro_arrays[cur_wk][alloc_wk].items.len();
    if old_num < threshold {
        lists.pro_arrays[cur_wk][alloc_wk].items.push(node);
        assert(lists@ =~~= old(lists)@.after_give(cur_wk as int, node, threshold as nat));
    } else {
        let mut batch: Vec<N> = Vec::new();
        std::mem::swap(&mut batch, &mut lists.pro_arrays[cur_wk][alloc_wk].items);
        lists.workers[alloc_wk].con_remote.append(&mut batch);
        lists.pro_arrays[cur_wk][alloc_wk].items.push(node);
        assert(lists@ =~~= old(lists)@.after_give(cur_wk as int, node, threshold as nat));
    }
}

/// The order in which a list is freed: most recent node first.
pub open spec fn chain<N>(list: Seq<N>) -> Seq<N> {
    list.reverse()
}

/// The chains of the first `k` lists, one after the other.
pub open spec fn chains<N>(lists: Seq<Seq<N>>, k: nat) -> Seq<N>
    decreases k,
{
    if k == 0 {
        Seq::empty()
    } else {
        chains(lists, (k - 1) as nat) + chain(lists[k - 1])
    }
}

impl<N> ListsView<N> {
    /// The order in which the nodes of the first `k` workers are freed: each
    /// worker's own list, its mailbox, then what it has staged.
    pub open spec fn free_order(self, k: nat) -> Seq<N>
        decreases k,
    {
        if k == 0 {
            Seq::empty()
        } else {
            self.free_order((k - 1) as nat) + chain(self.local[k - 1]) + chain(self.remote[k - 1])
                + chains(self.staged[k - 1], self.staged[k - 1].len())
        }
    }
}

/// Moves a list to `out`, most recent node first.
fn free_chain<N>(list: &mut Vec<N>, out: &mut Vec<N>)
    ensures
        final(list)@ == Seq::<N>::empty(),
        final(out)@ == old(out)@ + chain(old(list)@),
{
    let ghost all = list@;
    let ghost base = out@;
    while list.len() > 0
        invariant
            list@.len() <= all.len(),
            list@ == all.take(list@.len() as int),
            out@ == base + chain(all).take(all.len() - list@.len()),
        decreases list.len(),
    {
        let ghost n = list@.len() as int;
        let last = list.pop();
        if let Some(node) = last {
            out.push(node);
        }
        assert(list@ =~= all.take(n - 1));
        assert(out@ =~= base + chain(all).take(all.len() - n + 1));
    }
    assert(chain(all).take(all.len() as int) =~= chain(all));
    assert(list@ =~= Seq::<N>::empty());
}

/// Empties all lists and hands their nodes out in the order in which they are
/// freed.
pub fn drop_all_nodes<N: PoolNode>(lists: FreeLists<N>) -> (out: Vec<N>)
    requires
        lists@.staged.len() == lists@.local.len(),
    ensures
        out@ == lists@.free_order(lists@.local.len()),
{
    let ghost v = lists@;
    let mut lists = lists;
    let mut out: Vec<N> = Vec::new();
    let n: usize = lists.workers.len();
    for w in 0..n
        invariant
            n == v.local.len(),
            lists.workers.len() == n,
            lists.pro_arrays.len() == n,
            v.staged.len() == n,
            v.remote.len() == n,
            forall|i: int| w <= i < n ==> (#[trigger] lists.workers@[i]).con_local@ == v.local[i],
            forall|i: int| w <= i < n ==> (#[trigger] lists.workers@[i]).con_remote@ == v.remote[i],
            forall|i: int|
                w <= i < n ==> (#[trigger] lists.pro_arrays@[i])@.len() == v.staged[i].len(),
            forall|i: int, h: int|
                w <= i < n && 0 <= h < v.staged[i].len() ==> (#[trigger] lists.pro_arrays@[i]@[h]).items@
                    == v.staged[i][h],
            out@ == v.free_order(w as nat),
    {
        free_chain(&mut lists.workers[w].con_local, &mut out);
        free_chain(&mut lists.workers[w].con_remote, &mut out);
        let m: usize = lists.pro_arrays[w].len();
        let ghost base = out@;
        for h in 0..m
            invariant
                n == v.local.len(),
                w < n,
                v.staged.len() == n,
                v.remote.len() == n,
                m == v.staged[w as int].len(),
                lists.workers.len() == n,
                lists.pro_arrays.len() == n,
                lists.pro_arrays@[w as int]@.len() == m,
                forall|i: int|
                    w < i < n ==> (#[trigger] lists.workers@[i]).con_local@ == v.local[i],
                forall|i: int|
                    w < i < n ==> (#[trigger] lists.workers@[i]).con_remote@ == v.remote[i],
                forall|i: int|
                    w < i < n ==> (#[trigger] lists.pro_arrays@[i])@.len() == v.staged[i].len(),
                forall|i: int, g: int|
                    w < i < n && 0 <= g < v.staged[i].len() ==> (
                    #[trigger] lists.pro_arrays@[i]@[g]).items@ == v.staged[i][g],
                forall|g: int|
                    h <= g < m ==> (#[trigger] lists.pro_arrays@[w as int]@[g]).items@
                        == v.staged[w as int][g],
                out@ == base + chains(v.staged[w as int], h as nat),
        {
            free_chain(&mut lists.pro_arrays[w][h].items, &mut out);
            assert(out@ =~= base + chains(v.staged[w as int], (h + 1) as nat));
        }
    }
    out
}

// ---------------------------------------------------------------------------
// Laws of the free lists
// ---------------------------------------------------------------------------

/// All nodes of a sequence of lists.
pub open spec fn bag<N>(lists: Seq<Seq<N>>) -> Multiset<N>
    decreases lists.len(),
{
    if lists.len() == 0 {
        Multiset::empty()
    } else {
        bag(lists.drop_last()).add(lists.last().to_multiset())
    }
}

/// All nodes of a table of lists.
pub open spec fn bag2<N>(table: Seq<Seq<Seq<N>>>) -> Multiset<N>
    decreases table.len(),
{
    if table.len() == 0 {
        Multiset::empty()
    } else {
        bag2(table.drop_last()).add(bag(table.last()))
    }
}

impl<N> ListsView<N> {
    /// All nodes in the lists.
    pub open spec fn nodes(self) -> Multiset<N> {
        bag(self.local).add(bag(self.remote)).add(bag2(self.staged))
    }
}

/// Replacing one list replaces its nodes among all nodes.
pub proof fn lemma_bag_update<N>(lists: Seq<Seq<N>>, i: int, s: Seq<N>)
    requires
        0 <= i < lists.len(),
    ensures
        forall|x: N| #[trigger]
            bag(lists.update(i, s)).count(x) + lists[i].to_multiset().count(x) == bag(lists).count(x)
                + s.to_multiset().count(x),
    decreases lists.len(),
{
    let u = lists.update(i, s);
    if i == lists.len() - 1 {
        assert(u.drop_last() =~= lists.drop_last());
    } else {
        lemma_bag_update(lists.drop_last(), i, s);
        assert(u.drop_last() =~= lists.drop_last().update(i, s));
        assert(u.last() == lists.last());
    }
    assert forall|x: N| #[trigger]
        bag(lists.update(i, s)).count(x) + lists[i].to_multiset().count(x) == bag(lists).count(x)
            + s.to_multiset().count(x) by {
        assert(bag(u).count(x) == bag(u.drop_last()).count(x) + u.last().to_multiset().count(x));
        assert(bag(lists).count(x) == bag(lists.drop_last()).count(x)
            + lists.last().to_multiset().count(x));
    }
}

proof fn lemma_bag2_update<N>(table: Seq<Seq<Seq<N>>>, i: int, s: Seq<Seq<N>>)
    requires
        0 <= i < table.len(),
    ensures
        forall|x: N| #[trigger]
            bag2(table.update(i, s)).count(x) + bag(table[i]).count(x) == bag2(table).count(x)
                + bag(s).count(x),
    decreases table.len(),
{
    let u = table.update(i, s);
    if i == table.len() - 1 {
        assert(u.drop_last() =~= table.drop_last());
    } else {
        lemma_bag2_update(table.drop_last(), i, s);
        assert(u.drop_last() =~= table.drop_last().update(i, s));
        assert(u.last() == table.last());
    }
    assert forall|x: N| #[trigger]
        bag2(table.update(i, s)).count(x) + bag(table[i]).count(x) == bag2(table).count(x)
            + bag(s).count(x) by {
        assert(bag2(u).count(x) == bag2(u.drop_last()).count(x) + bag(u.last()).count(x));
        assert(bag2(table).count(x) == bag2(table.drop_last()).count(x)
            + bag(table.last()).count(x));
    }
}

/// The nodes of lists that are put together or taken apart.
pub proof fn lemma_multiset_of_parts<N>(a: Seq<N>, b: Seq<N>, x: N)
    ensures
        (a + b).to_multiset() == a.to_multiset().add(b.to_multiset()),
        a.push(x).to_multiset() == a.to_multiset().insert(x),
        a.len() > 0 ==> a.to_multiset() == a.drop_last().to_multiset().insert(a.last()),
        Seq::<N>::empty().to_multiset() == Multiset::<N>::empty(),
        seq![x].to_multiset() == Multiset::<N>::empty().insert(x),
        a.reverse().to_multiset() == a.to_multiset(),
{
    broadcast use vstd::seq_lib::group_to_multiset_ensures;

    vstd::seq_lib::lemma_multiset_commutative(a, b);
    a.lemma_reverse_to_multiset();
    if a.len() > 0 {
        assert(a =~= a.drop_last().push(a.last()));
    }
    assert(Seq::<N>::empty().push(x) =~= seq![x]);
    assert(Seq::<N>::empty().to_multiset().len() == 0);
    assert(Seq::<N>::empty().to_multiset() =~= Multiset::<N>::empty());
}

/// Giving a node back keeps the lists well formed and adds exactly that node
/// to them.
pub proof fn law_give<N: PoolNode>(v: ListsView<N>, c: int, node: N, n: nat, threshold: nat)
    requires
        v.wf(n, threshold),
        threshold >= 1,
        0 <= c < n,
        node.home() < n,
    ensures
        v.after_give(c, node, threshold).wf(n, threshold),
        v.after_give(c, node, threshold).nodes() == v.nodes().insert(node),
{
    let h = node.home() as int;
    let u = v.after_give(c, node, threshold);
    let none = Seq::<N>::empty();
    if h == c {
        lemma_bag_update(v.local, c, v.local[c].push(node));
        lemma_multiset_of_parts(v.local[c], none, node);
    } else if v.staged[c][h].len() < threshold {
        lemma_bag_update(v.staged[c], h, v.staged[c][h].push(node));
        lemma_bag2_update(v.staged, c, v.staged[c].update(h, v.staged[c][h].push(node)));
        lemma_multiset_of_parts(v.staged[c][h], none, node);
    } else {
        lemma_bag_update(v.remote, h, v.remote[h] + v.staged[c][h]);
        lemma_bag_update(v.staged[c], h, seq![node]);
        lemma_bag2_update(v.staged, c, v.staged[c].update(h, seq![node]));
        lemma_multiset_of_parts(v.remote[h], v.staged[c][h], node);
    }
    assert(u.nodes() =~= v.nodes().insert(node));
}

/// Taking a node keeps the lists well formed, removes exactly that node, and
/// hands a worker only nodes that it allocated itself. Nothing is taken only
/// when the worker's own list and mailbox are both empty.
pub proof fn law_take<N: PoolNode>(v: ListsView<N>, w: int, n: nat, threshold: nat)
    requires
        v.wf(n, threshold),
        0 <= w < n,
    ensures
        v.after_take(w).wf(n, threshold),
        v.next_for(w) matches Some(node) ==> {
            &&& node.home() == w
            &&& v.nodes() == v.after_take(w).nodes().insert(node)
        },
        v.next_for(w) is None ==> v.after_take(w) == v && v.local[w].len() == 0
            && v.remote[w].len() == 0,
{
    let none = Seq::<N>::empty();
    if v.local[w].len() > 0 {
        let node = v.local[w].last();
        lemma_bag_update(v.local, w, v.local[w].drop_last());
        lemma_multiset_of_parts(v.local[w], none, node);
        assert(node.home() == w);
        assert(v.nodes() =~= v.after_take(w).nodes().insert(node));
    } else if v.remote[w].len() > 0 {
        let node = v.remote[w].last();
        lemma_bag_update(v.local, w, v.remote[w].drop_last());
        lemma_bag_update(v.remote, w, none);
        lemma_multiset_of_parts(v.remote[w], none, node);
        assert(v.local[w] =~= none);
        assert(node.home() == w);
        assert(v.nodes() =~= v.after_take(w).nodes().insert(node));
    }
}

/// New lists are well formed and hold nothing.
pub proof fn law_new_lists_are_empty<N: PoolNode>(n: nat, threshold: nat)
    ensures
        ListsView::<N>::empty(n).wf(n, threshold),
        ListsView::<N>::empty(n).nodes() == Multiset::<N>::empty(),
{
    lemma_multiset_of_parts_empty::<N>();
    lemma_bag_of_empties::<N>(n);
    lemma_bag2_of_empties::<N>(n, n);
}

pub proof fn lemma_multiset_of_parts_empty<N>()
    ensures
        Seq::<N>::empty().to_multiset() == Multiset::<N>::empty(),
{
    broadcast use vstd::seq_lib::group_to_multiset_ensures;

    assert(Seq::<N>::empty().to_multiset().len() == 0);
    assert(Seq::<N>::empty().to_multiset() =~= Multiset::<N>::empty());
}

proof fn lemma_bag_of_empties<N>(n: nat)
    ensures
        bag(Seq::new(n, |w: int| Seq::<N>::empty())) == Multiset::<N>::empty(),
    decreases n,
{
    lemma_multiset_of_parts_empty::<N>();
    let s = Seq::new(n, |w: int| Seq::<N>::empty());
    if n > 0 {
        let m = (n - 1) as nat;
        lemma_bag_of_empties::<N>(m);
        assert(s.drop_last() =~= Seq::new(m, |w: int| Seq::<N>::empty()));
    }
    assert(bag(s) =~= Multiset::<N>::empty());
}

proof fn lemma_bag2_of_empties<N>(n: nat, k: nat)
    ensures
        bag2(Seq::new(k, |c: int| Seq::new(n, |h: int| Seq::<N>::empty()))) == Multiset::<
            N,
        >::empty(),
    decreases k,
{
    lemma_bag_of_empties::<N>(n);
    let s = Seq::new(k, |c: int| Seq::new(n, |h: int| Seq::<N>::empty()));
    if k > 0 {
        let m = (k - 1) as nat;
        lemma_bag2_of_empties::<N>(n, m);
        assert(s.drop_last() =~= Seq::new(m, |c: int| Seq::new(n, |h: int| Seq::<N>::empty())));
        assert(s.last() =~= Seq::new(n, |h: int| Seq::<N>::empty()));
    }
    assert(bag2(s) =~= Multiset::<N>::empty());
}

proof fn lemma_chains_bag<N>(lists: Seq<Seq<N>>, k: nat)
    requires
        k <= lists.len(),
    ensures
        chains(lists, k).to_multiset() == bag(lists.take(k as int)),
    decreases k,
{
    lemma_multiset_of_parts_empty::<N>();
    if k > 0 {
        let m = (k - 1) as nat;
        lemma_chains_bag(lists, m);
        assert(lists.take(k as int).drop_last() =~= lists.take(m as int));
        if lists[m as int].len() > 0 {
            lemma_multiset_of_parts(lists[m as int], lists[m as int], lists[m as int][0]);
        } else {
            assert(chain(lists[m as int]) =~= lists[m as int]);
        }
        vstd::seq_lib::lemma_multiset_commutative(chains(lists, m), chain(lists[m as int]));
    }
}

/// Freeing hands out every node in the lists exactly once.
pub proof fn law_drop_frees_every_node_once<N>(v: ListsView<N>)
    requires
        v.remote.len() == v.local.len(),
        v.staged.len() == v.local.len(),
    ensures
        v.free_order(v.local.len()).to_multiset() == v.nodes(),
{
    lemma_free_order_bag(v, v.local.len());
    assert(v.local.take(v.local.len() as int) =~= v.local);
    assert(v.remote.take(v.local.len() as int) =~= v.remote);
    assert(v.staged.take(v.local.len() as int) =~= v.staged);
}

proof fn lemma_free_order_bag<N>(v: ListsView<N>, k: nat)
    requires
        v.remote.len() == v.local.len(),
        v.staged.len() == v.local.len(),
        k <= v.local.len(),
    ensures
        v.free_order(k).to_multiset() == bag(v.local.take(k as int)).add(
            bag(v.remote.take(k as int)),
        ).add(bag2(v.staged.take(k as int))),
    decreases k,
{
    lemma_multiset_of_parts_empty::<N>();
    if k == 0 {
        assert(v.free_order(k).to_multiset() =~= bag(v.local.take(0)).add(
            bag(v.remote.take(0)),
        ).add(bag2(v.staged.take(0))));
    } else {
        let m = (k - 1) as nat;
        let i = m as int;
        lemma_free_order_bag(v, m);
        assert(v.local.take(k as int).drop_last() =~= v.local.take(i));
        assert(v.remote.take(k as int).drop_last() =~= v.remote.take(i));
        assert(v.staged.take(k as int).drop_last() =~= v.staged.take(i));
        v.local[i].lemma_reverse_to_multiset();
        v.remote[i].lemma_reverse_to_multiset();
        lemma_chains_bag(v.staged[i], v.staged[i].len());
        assert(v.staged[i].take(v.staged[i].len() as int) =~= v.staged[i]);
        let a = v.free_order(m);
        let b = chain(v.local[i]);
        let c = chain(v.remote[i]);
        let d = chains(v.staged[i], v.staged[i].len());
        vstd::seq_lib::lemma_multiset_commutative(a, b);
        vstd::seq_lib::lemma_multiset_commutative(a + b, c);
        vstd::seq_lib::lemma_multiset_commutative(a + b + c, d);
        assert(v.free_order(k).to_multiset() =~= bag(v.local.take(k as int)).add(
            bag(v.remote.take(k as int)),
        ).add(bag2(v.staged.take(k as int))));
    }
}

/// Batches reach their home: once a full batch is followed by one more node,
/// its home worker, when it has nothing of its own, takes the batch's most
/// recent node next.
pub proof fn law_full_batch_reaches_home<N: PoolNode>(
    v: ListsView<N>,
    c: int,
    node: N,
    n: nat,
    threshold: nat,
)
    requires
        v.wf(n, threshold),
        threshold >= 1,
        0 <= c < n,
        node.home() < n,
        node.home() != c,
        v.staged[c][node.home() as int].len() == threshold,
        v.local[node.home() as int].len() == 0,
    ensures
        v.after_give(c, node, threshold).next_for(node.home() as int) == Some(
            v.staged[c][node.home() as int].last(),
        ),
{
    let h = node.home() as int;
    assert((v.remote[h] + v.staged[c][h]).last() == v.staged[c][h].last());
}

// ---------------------------------------------------------------------------
// Descriptor pools
// ---------------------------------------------------------------------------

/// A descriptor with the pool's bookkeeping around it.
pub struct Node<D> {
    /// The worker that allocated the node.
    pub alloc_wk: usize,
    /// Whether the node was made for one oversized request.
    pub oversized: bool,
    /// The descriptor.
    pub payload: D,
}

impl<D> PoolNode for Node<D> {
    open spec fn home(&self) -> usize {
        self.alloc_wk
    }

    fn alloc_wk(&self) -> (r: usize) {
        self.alloc_wk
    }
}

impl<D> Node<D> {
    /// Puts the bookkeeping around a new descriptor.
    pub fn wrap_fresh(alloc_wk: usize, oversized: bool, payload: D) -> (r: Self)
        ensures
            r == (Node { alloc_wk, oversized, payload }),
    {
        Node { alloc_wk, oversized, payload }
    }

    /// The descriptor of a node that leaves the pools for good.
    pub fn free_desc(self) -> (r: D)
        ensures
            r == self.payload,
    {
        self.payload
    }
}

/// Whether `node` is what `make` and worker `wk` make of a request for `size`
/// bytes.
pub open spec fn is_fresh_node<D: TaskDescAlloc, F: FnOnce(usize) -> StackMem>(
    node: Node<D>,
    wk: usize,
    oversized: bool,
    has_handle: bool,
    size: usize,
    make: F,
) -> bool {
    exists|stack: StackMem| #[trigger]
        call_ensures(make, (size,), stack) && node == (Node {
            alloc_wk: wk,
            oversized,
            payload: D::fresh(stack, has_handle),
        })
}

/// A node taken from a pool, reset for its next task.
pub open spec fn recycled_node<D: TaskDescAlloc>(node: Node<D>, has_handle: bool) -> Node<D> {
    Node { payload: node.payload.recycled(has_handle), ..node }
}

/// What can be said of a pool of descriptors.
pub trait DescPoolModel<D: TaskDescAlloc>: Sized {
    /// What the pool's lists are: which node lies where, and in what order.
    type Lists;

    /// Whether the pool's parameters make sense.
    spec fn valid_config() -> bool;

    /// The pool's internal invariant.
    spec fn wf(&self) -> bool;

    /// How many workers the pool serves.
    spec fn num_workers(&self) -> nat;

    /// The largest request that the pool serves from its lists.
    spec fn slot_size(&self) -> usize;

    /// The node that worker `wk` gets next, if it need not be made.
    spec fn reusable(&self, wk: usize) -> Option<Node<D>>;

    /// Whether the pool keeps the next node that worker `wk` gives back.
    spec fn keeps(&self, wk: usize) -> bool;

    /// All nodes in the pool.
    spec fn pooled(&self) -> Multiset<Node<D>>;

    /// The pool's lists.
    spec fn contents(&self) -> Self::Lists;

    /// Lists without nodes, for `n` workers.
    spec fn no_nodes(n: nat) -> Self::Lists;

    /// The lists after worker `wk` took the node that it gets next.
    spec fn after_take(lists: Self::Lists, wk: usize) -> Self::Lists;

    /// The lists after worker `wk` gave `node` back and it was kept.
    spec fn after_give(lists: Self::Lists, wk: usize, node: Node<D>) -> Self::Lists;
}

/// The size of the stack that has to be made to serve a request of worker
/// `wk`, if one has to be made.
pub open spec fn stack_needed<D: TaskDescAlloc, P: DescPoolModel<D>>(
    pool: P,
    wk: usize,
    size: usize,
) -> Option<usize> {
    if size > pool.slot_size() {
        Some(size)
    } else if pool.reusable(wk) is None {
        Some(pool.slot_size())
    } else {
        None
    }
}

/// Whether `after` is `pool` after it served a request of worker `wk`
/// with `node`.
pub open spec fn node_allocated<
    D: TaskDescAlloc,
    P: DescPoolModel<D>,
    F: FnOnce(usize) -> StackMem,
>(
    pool: P,
    after: P,
    wk: usize,
    has_handle: bool,
    size: usize,
    make: F,
    node: Node<D>,
) -> bool {
    &&& after.num_workers() == pool.num_workers()
    &&& after.slot_size() == pool.slot_size()
    &&& match stack_needed(pool, wk, size) {
        Some(made) => {
            &&& is_fresh_node(node, wk, size > pool.slot_size(), has_handle, made, make)
            &&& after.pooled() == pool.pooled()
            &&& after.contents() == pool.contents()
        },
        None => {
            &&& node == recycled_node(pool.reusable(wk)->0, has_handle)
            &&& pool.pooled() == after.pooled().insert(pool.reusable(wk)->0)
            &&& after.contents() == P::after_take(pool.contents(), wk)
        },
    }
}

/// Whether `after` is `pool` after worker `wk` gave `node` back and
/// `freed` was handed out to be freed.
pub open spec fn node_returned<D: TaskDescAlloc, P: DescPoolModel<D>>(
    pool: P,
    after: P,
    wk: usize,
    node: Node<D>,
    freed: Option<Node<D>>,
) -> bool {
    &&& after.num_workers() == pool.num_workers()
    &&& after.slot_size() == pool.slot_size()
    &&& if !node.oversized && pool.keeps(wk) {
        &&& freed is None
        &&& after.pooled() == pool.pooled().insert(node)
        &&& after.contents() == P::after_give(pool.contents(), wk, node)
    } else {
        &&& freed == Some(node)
        &&& after.pooled() == pool.pooled()
        &&& after.contents() == pool.contents()
    }
}

/// A pool of descriptors for a fixed set of workers. A request that fits the
/// slot size is served from the pool; a larger one gets a node of its own
/// that never enters the pool.
pub trait DescPool<D: TaskDescAlloc>: DescPoolModel<D> {
    /// Makes an empty pool.
    fn new_pool(num_workers: usize, stack_size: usize) -> (r: Self)
        requires
            Self::valid_config(),
        ensures
            r.wf(),
            r.num_workers() == num_workers,
            r.slot_size() == stack_size,
            r.pooled() == Multiset::<Node<D>>::empty(),
            r.contents() == Self::no_nodes(num_workers as nat),
    ;

    /// A descriptor for worker `wk_num` with at least `size` bytes of stack.
    /// `make` makes a stack of a given size.
    fn alloc_node<F: FnOnce(usize) -> StackMem>(
        &mut self,
        wk_num: usize,
        has_handle: bool,
        size: usize,
        make: F,
    ) -> (r: Node<D>)
        requires
            old(self).wf(),
            wk_num < old(self).num_workers(),
            stack_needed(*old(self), wk_num, size) matches Some(made) ==> call_requires(
                make,
                (made,),
            ),
        ensures
            final(self).wf(),
            node_allocated(*old(self), *final(self), wk_num, has_handle, size, make, r),
            r.home() < old(self).num_workers(),
    ;

    /// Gives a finished descriptor back from worker `wk_num`. A node that does
    /// not enter the pool is handed back, to be freed.
    fn dealloc(&mut self, wk_num: usize, node: Node<D>) -> (r: Option<Node<D>>)
        requires
            old(self).wf(),
            wk_num < old(self).num_workers(),
            node.home() < old(self).num_workers(),
            !node.payload.root(),
        ensures
            final(self).wf(),
            node_returned(*old(self), *final(self), wk_num, node, r),
    ;
}

// ---------------------------------------------------------------------------
// SimplePool
// ---------------------------------------------------------------------------

/// One list for each worker, of at most `CAP` nodes. A node enters the list of
/// the worker that gives it back, whoever allocated it.
pub struct SimplePool<D, const CAP: usize> {
    stack_size: usize,
    lists: Vec<Vec<Node<D>>>,
}

impl<D, const CAP: usize> SimplePool<D, CAP> {
    /// Each worker's list, the node to take next at the end.
    pub closed spec fn lists(&self) -> Seq<Seq<Node<D>>> {
        Seq::new(self.lists@.len(), |w: int| self.lists@[w]@)
    }

    /// The nodes to free when the pool goes, worker by worker.
    pub fn release(self) -> (out: Vec<Node<D>>)
        ensures
            out@ == self.lists().flatten(),
    {
        let ghost all = self.lists();
        let mut lists = self.lists;
        let mut out: Vec<Node<D>> = Vec::new();
        let n: usize = lists.len();
        assert(all.take(0).flatten() =~= Seq::<Node<D>>::empty());
        for w in 0..n
            invariant
                lists.len() == n,
                all.len() == n,
                forall|i: int| w <= i < n ==> (#[trigger] lists@[i])@ == all[i],
                out@ == all.take(w as int).flatten(),
        {
            out.append(&mut lists[w]);
            proof {
                let next = all.take(w + 1);
                assert(next.drop_last() =~= all.take(w as int));
                next.lemma_flatten_and_flatten_alt_are_equivalent();
                all.take(w as int).lemma_flatten_and_flatten_alt_are_equivalent();
            }
        }
        assert(all.take(n as int) =~= all);
        out
    }
}

impl<D: TaskDescAlloc, const CAP: usize> DescPoolModel<D> for SimplePool<D, CAP> {
    type Lists = Seq<Seq<Node<D>>>;

    open spec fn valid_config() -> bool {
        true
    }

    open spec fn wf(&self) -> bool {
        &&& forall|w: int| 0 <= w < self.lists().len() ==> (#[trigger] self.lists()[w]).len() <= CAP
        &&& forall|w: int, i: int|
            0 <= w < self.lists().len() && 0 <= i < self.lists()[w].len()
                ==> !(#[trigger] self.lists()[w][i]).payload.root() && self.lists()[w][i].home()
                < self.lists().len()
    }

    open spec fn num_workers(&self) -> nat {
        self.lists().len()
    }

    closed spec fn slot_size(&self) -> usize {
        self.stack_size
    }

    open spec fn reusable(&self, wk: usize) -> Option<Node<D>> {
        if self.lists()[wk as int].len() > 0 {
            Some(self.lists()[wk as int].last())
        } else {
            None
        }
    }

    open spec fn keeps(&self, wk: usize) -> bool {
        self.lists()[wk as int].len() < CAP
    }

    open spec fn pooled(&self) -> Multiset<Node<D>> {
        bag(self.lists())
    }

    open spec fn contents(&self) -> Seq<Seq<Node<D>>> {
        self.lists()
    }

    open spec fn no_nodes(n: nat) -> Seq<Seq<Node<D>>> {
        Seq::new(n, |w: int| Seq::empty())
    }

    /// A worker takes the last node of its list.
    open spec fn after_take(lists: Seq<Seq<Node<D>>>, wk: usize) -> Seq<Seq<Node<D>>> {
        lists.update(wk as int, lists[wk as int].drop_last())
    }

    /// A node goes to the end of the list of the worker that gives it back.
    open spec fn after_give(lists: Seq<Seq<Node<D>>>, wk: usize, node: Node<D>) -> Seq<
        Seq<Node<D>>,
    > {
        lists.update(wk as int, lists[wk as int].push(node))
    }
}

impl<D: TaskDescAlloc, const CAP: usize> DescPool<D> for SimplePool<D, CAP> {
    fn new_pool(num_workers: usize, stack_size: usize) -> (r: Self) {
        let mut lists: Vec<Vec<Node<D>>> = Vec::new();
        for w in 0..num_workers
            invariant
                lists.len() == w,
                forall|i: int| 0 <= i < w ==> (#[trigger] lists@[i])@ == Seq::<Node<D>>::empty(),
        {
            lists.push(Vec::new());
        }
        let r = SimplePool { stack_size, lists };
        assert(r.lists() =~= Seq::new(num_workers as nat, |w: int| Seq::<Node<D>>::empty()));
        proof {
            lemma_bag_of_empties::<Node<D>>(num_workers as nat);
        }
        r
    }

    fn alloc_node<F: FnOnce(usize) -> StackMem>(
        &mut self,
        wk_num: usize,
        has_handle: bool,
        size: usize,
        make: F,
    ) -> (r: Node<D>) {
        if size > self.stack_size {
            let payload = D::alloc_sized(size, has_handle, make);
            return Node::wrap_fresh(wk_num, true, payload);
        }
        let ghost before = self.lists();
        assert(before[wk_num as int] == self.lists@[wk_num as int]@);
        match self.lists[wk_num].pop() {
            Some(node) => {
                assert(self.lists() =~= before.update(
                    wk_num as int,
                    before[wk_num as int].drop_last(),
                ));
                proof {
                    lemma_bag_update(before, wk_num as int, before[wk_num as int].drop_last());
                    lemma_multiset_of_parts(
                        before[wk_num as int],
                        Seq::<Node<D>>::empty(),
                        node,
                    );
                    assert(bag(before) =~= bag(self.lists()).insert(node));
                }
                let mut node = node;
                node.payload.reinit(has_handle);
                node
            },
            None => {
                assert(self.lists() =~= before);
                let payload = D::alloc_sized(self.stack_size, has_handle, make);
                Node::wrap_fresh(wk_num, false, payload)
            },
        }
    }

    fn dealloc(&mut self, wk_num: usize, node: Node<D>) -> (r: Option<Node<D>>) {
        if node.oversized {
            return Some(node);
        }
        let ghost before = self.lists();
        assert(before[wk_num as int] == self.lists@[wk_num as int]@);
        if self.lists[wk_num].len() < CAP {
            self.lists[wk_num].push(node);
            assert(self.lists() =~= before.update(
                wk_num as int,
                before[wk_num as int].push(node),
            ));
            proof {
                lemma_bag_update(before, wk_num as int, before[wk_num as int].push(node));
                lemma_multiset_of_parts(before[wk_num as int], Seq::<Node<D>>::empty(), node);
                assert(bag(self.lists()) =~= bag(before).insert(node));
            }
            None
        } else {
            assert(self.lists() =~= before);
            Some(node)
        }
    }
}

// ---------------------------------------------------------------------------
// ReturnPool
// ---------------------------------------------------------------------------

/// A pool in which a node returns to the worker that allocated it, in batches
/// of `THRESHOLD` when another worker gives it back.
pub struct ReturnPool<D, const THRESHOLD: usize> {
    stack_size: usize,
    lists: FreeLists<Node<D>>,
}

impl<D, const THRESHOLD: usize> ReturnPool<D, THRESHOLD> {
    /// The pool's lists.
    pub closed spec fn lists(&self) -> ListsView<Node<D>> {
        self.lists@
    }

    /// The nodes to free when the pool goes.
    pub fn release(self) -> (out: Vec<Node<D>>)
        requires
            self.lists().staged.len() == self.lists().local.len(),
        ensures
            out@ == self.lists().free_order(self.lists().local.len()),
    {
        drop_all_nodes(self.lists)
    }
}

/// Whether no node of a list is a worker's pseudo-descriptor.
pub open spec fn no_roots<D: TaskDescAlloc>(list: Seq<Node<D>>) -> bool {
    forall|i: int| 0 <= i < list.len() ==> !(#[trigger] list[i]).payload.root()
}

/// Whether no node of the lists is a worker's pseudo-descriptor.
pub open spec fn no_roots_in<D: TaskDescAlloc>(v: ListsView<Node<D>>) -> bool {
    &&& forall|w: int| 0 <= w < v.local.len() ==> no_roots(#[trigger] v.local[w])
    &&& forall|w: int| 0 <= w < v.remote.len() ==> no_roots(#[trigger] v.remote[w])
    &&& forall|c: int, h: int|
        0 <= c < v.staged.len() && 0 <= h < v.staged[c].len() ==> no_roots(
            #[trigger] v.staged[c][h],
        )
}

impl<D: TaskDescAlloc, const THRESHOLD: usize> DescPoolModel<D> for ReturnPool<D, THRESHOLD> {
    type Lists = ListsView<Node<D>>;

    open spec fn valid_config() -> bool {
        THRESHOLD >= 1
    }

    open spec fn wf(&self) -> bool {
        &&& THRESHOLD >= 1
        &&& self.lists().wf(self.lists().local.len(), THRESHOLD as nat)
        &&& no_roots_in(self.lists())
    }

    open spec fn num_workers(&self) -> nat {
        self.lists().local.len()
    }

    closed spec fn slot_size(&self) -> usize {
        self.stack_size
    }

    open spec fn reusable(&self, wk: usize) -> Option<Node<D>> {
        self.lists().next_for(wk as int)
    }

    open spec fn keeps(&self, wk: usize) -> bool {
        true
    }

    open spec fn pooled(&self) -> Multiset<Node<D>> {
        self.lists().nodes()
    }

    open spec fn contents(&self) -> ListsView<Node<D>> {
        self.lists()
    }

    open spec fn no_nodes(n: nat) -> ListsView<Node<D>> {
        ListsView::empty(n)
    }

    open spec fn after_take(lists: ListsView<Node<D>>, wk: usize) -> ListsView<Node<D>> {
        lists.after_take(wk as int)
    }

    open spec fn after_give(lists: ListsView<Node<D>>, wk: usize, node: Node<D>) -> ListsView<
        Node<D>,
    > {
        lists.after_give(wk as int, node, THRESHOLD as nat)
    }
}

impl<D: TaskDescAlloc, const THRESHOLD: usize> DescPool<D> for ReturnPool<D, THRESHOLD> {
    fn new_pool(num_workers: usize, stack_size: usize) -> (r: Self) {
        proof {
            law_new_lists_are_empty::<Node<D>>(num_workers as nat, THRESHOLD as nat);
        }
        ReturnPool { stack_size, lists: new_workers_and_pro_arrays(num_workers) }
    }

    fn alloc_node<F: FnOnce(usize) -> StackMem>(
        &mut self,
        wk_num: usize,
        has_handle: bool,
        size: usize,
        make: F,
    ) -> (r: Node<D>) {
        if size > self.stack_size {
            let payload = D::alloc_sized(size, has_handle, make);
            return Node::wrap_fresh(wk_num, true, payload);
        }
        proof {
            law_take(
                self.lists(),
                wk_num as int,
                self.lists().local.len(),
                THRESHOLD as nat,
            );
        }
        match node_take(&mut self.lists, wk_num) {
            Some(node) => {
                let mut node = node;
                node.payload.reinit(has_handle);
                node
            },
            None => {
                let payload = D::alloc_sized(self.stack_size, has_handle, make);
                Node::wrap_fresh(wk_num, false, payload)
            },
        }
    }

    fn dealloc(&mut self, wk_num: usize, node: Node<D>) -> (r: Option<Node<D>>) {
        if node.oversized {
            return Some(node);
        }
        proof {
            law_give(
                self.lists(),
                wk_num as int,
                node,
                self.lists().local.len(),
                THRESHOLD as nat,
            );
        }
        node_give(&mut self.lists, wk_num, node, THRESHOLD);
        None
    }
}

// ---------------------------------------------------------------------------
// Block pools
// ---------------------------------------------------------------------------

/// A block of memory handed out by a pool: the address that its user sees, and
/// the worker that allocated it.
#[derive(Clone, Copy, PartialEq, Eq, Structural, Debug)]
pub struct Block {
    pub addr: usize,
    pub alloc_wk: usize,
}

impl PoolNode for Block {
    open spec fn home(&self) -> usize {
        self.alloc_wk
    }

    fn alloc_wk(&self) -> (r: usize) {
        self.alloc_wk
    }
}

/// Whether memory at `base` is what an allocation of `layout` returns.
pub open spec fn is_allocation(layout: Layout, base: usize) -> bool {
    base % layout.align == 0 && base + layout.size <= usize::MAX
}

/// Whether `make` returns only what an allocation of `layout` returns.
pub open spec fn makes_allocations<F: FnOnce(Layout) -> usize>(make: F, layout: Layout) -> bool {
    &&& call_requires(make, (layout,))
    &&& forall|base: usize| #[trigger]
        call_ensures(make, (layout,), base) ==> is_allocation(layout, base)
}

/// A pool of blocks of one layout.
pub trait StaticPool: Sized {
    /// What the pool's lists are: which block lies where, and in what order.
    type Lists;

    /// Whether the pool can serve blocks of this layout.
    spec fn valid_config(layout: Layout) -> bool;

    /// The pool's internal invariant.
    spec fn wf(&self) -> bool;

    /// How many workers the pool serves.
    spec fn num_workers(&self) -> nat;

    /// The layout of the memory around each block.
    spec fn block_layout(&self) -> Layout;

    /// Where in that memory the block lies.
    spec fn payload_offset(&self) -> usize;

    /// The layout of the memory around each block of a pool for `layout`.
    spec fn block_layout_for(layout: Layout) -> Layout;

    /// Where in that memory a block of `layout` lies.
    spec fn payload_offset_for(layout: Layout) -> usize;

    /// The block that worker `wk` gets next, if it need not be made.
    spec fn reusable(&self, wk: usize) -> Option<Block>;

    /// All blocks in the pool.
    spec fn pooled(&self) -> Multiset<Block>;

    /// The pool's lists.
    spec fn contents(&self) -> Self::Lists;

    /// Lists without blocks, for `n` workers.
    spec fn no_blocks(n: nat) -> Self::Lists;

    /// The lists after worker `wk` took the block that it gets next.
    spec fn after_take(lists: Self::Lists, wk: usize) -> Self::Lists;

    /// The lists after worker `wk` gave `block` back.
    spec fn after_give(lists: Self::Lists, wk: usize, block: Block) -> Self::Lists;

    /// Makes an empty pool.
    fn new_pool(num_workers: usize, layout: Layout) -> (r: Self)
        requires
            layout.wf(),
            Self::valid_config(layout),
        ensures
            r.wf(),
            r.num_workers() == num_workers,
            r.pooled() == Multiset::<Block>::empty(),
            r.contents() == Self::no_blocks(num_workers as nat),
            r.block_layout() == Self::block_layout_for(layout),
            r.payload_offset() == Self::payload_offset_for(layout),
            r.payload_offset() + layout.size <= r.block_layout().size,
            layout.align <= r.block_layout().align,
            forall|base: usize|
                base % r.block_layout().align == 0 ==> #[trigger] (base + r.payload_offset())
                    % layout.align as int == 0,
    ;

    /// A block for worker `wk_num`. `make` allocates memory.
    fn alloc_block<F: FnOnce(Layout) -> usize>(&mut self, wk_num: usize, make: F) -> (r: Block)
        requires
            old(self).wf(),
            wk_num < old(self).num_workers(),
            old(self).reusable(wk_num) is None ==> makes_allocations(
                make,
                old(self).block_layout(),
            ),
        ensures
            final(self).wf(),
            final(self).num_workers() == old(self).num_workers(),
            final(self).block_layout() == old(self).block_layout(),
            final(self).payload_offset() == old(self).payload_offset(),
            r.home() == wk_num,
            match old(self).reusable(wk_num) {
                Some(block) => {
                    &&& r == block
                    &&& old(self).pooled() == final(self).pooled().insert(block)
                    &&& final(self).contents() == Self::after_take(old(self).contents(), wk_num)
                },
                None => {
                    &&& final(self).pooled() == old(self).pooled()
                    &&& final(self).contents() == old(self).contents()
                    &&& exists|base: usize| #[trigger]
                        call_ensures(make, (old(self).block_layout(),), base) && r.addr == base
                            + old(self).payload_offset()
                },
            },
    ;

    /// Gives a block back from worker `wk_num`.
    fn dealloc(&mut self, wk_num: usize, block: Block)
        requires
            old(self).wf(),
            wk_num < old(self).num_workers(),
            block.home() < old(self).num_workers(),
        ensures
            final(self).wf(),
            final(self).num_workers() == old(self).num_workers(),
            final(self).block_layout() == old(self).block_layout(),
            final(self).payload_offset() == old(self).payload_offset(),
            final(self).pooled() == old(self).pooled().insert(block),
            final(self).contents() == Self::after_give(old(self).contents(), wk_num, block),
    ;
}

/// The layout of the link and the home worker kept before each block.
pub const HEADER_SIZE: usize = 16;

/// The alignment of the link and the home worker kept before each block.
pub const HEADER_ALIGN: usize = 8;

/// The layout of the bookkeeping before each block.
pub open spec fn header_layout() -> Layout {
    Layout { size: HEADER_SIZE, align: HEADER_ALIGN }
}

/// A pool of blocks that return to the worker that allocated them, in batches
/// of `THRESHOLD` when another worker gives them back. Its bookkeeping lies
/// hidden before each block.
pub struct BlockPool<const THRESHOLD: usize> {
    block_layout: Layout,
    payload_offset: usize,
    lists: FreeLists<Block>,
}

impl<const THRESHOLD: usize> BlockPool<THRESHOLD> {
    /// The pool's lists.
    pub closed spec fn lists(&self) -> ListsView<Block> {
        self.lists@
    }

    /// The memory that a block lies in.
    pub fn header_of(&self, block: Block) -> (r: usize)
        requires
            block.addr >= self.payload_offset(),
        ensures
            r == block.addr - self.payload_offset(),
    {
        block.addr - self.payload_offset
    }

    /// The block that lies in the memory at `base`.
    pub fn payload_of(&self, base: usize, wk_num: usize) -> (r: Block)
        requires
            base + self.payload_offset() <= usize::MAX,
        ensures
            r == (Block { addr: (base + self.payload_offset()) as usize, alloc_wk: wk_num }),
    {
        Block { addr: base + self.payload_offset, alloc_wk: wk_num }
    }

    fn alloc_fresh<F: FnOnce(Layout) -> usize>(&self, wk_num: usize, make: F) -> (r: Block)
        requires
            makes_allocations(make, self.block_layout()),
            self.payload_offset() <= self.block_layout().size,
        ensures
            r.home() == wk_num,
            exists|base: usize| #[trigger]
                call_ensures(make, (self.block_layout(),), base) && r.addr == base
                    + self.payload_offset(),
    {
        let base: usize = make(self.block_layout);
        assert(is_allocation(self.block_layout(), base));
        self.payload_of(base, wk_num)
    }

    /// The blocks whose memory is to be freed when the pool goes.
    pub fn release(self) -> (out: Vec<Block>)
        requires
            self.lists().staged.len() == self.lists().local.len(),
        ensures
            out@ == self.lists().free_order(self.lists().local.len()),
    {
        drop_all_nodes(self.lists)
    }
}

impl<const THRESHOLD: usize> StaticPool for BlockPool<THRESHOLD> {
    type Lists = ListsView<Block>;

    open spec fn valid_config(layout: Layout) -> bool {
        THRESHOLD >= 1 && header_layout().can_extend(layout)
    }

    closed spec fn wf(&self) -> bool {
        &&& THRESHOLD >= 1
        &&& self.payload_offset <= self.block_layout.size
        &&& self.lists().wf(self.lists().local.len(), THRESHOLD as nat)
    }

    open spec fn num_workers(&self) -> nat {
        self.lists().local.len()
    }

    closed spec fn block_layout(&self) -> Layout {
        self.block_layout
    }

    closed spec fn payload_offset(&self) -> usize {
        self.payload_offset
    }

    /// The bookkeeping and then the block, rounded up to the alignment of both.
    open spec fn block_layout_for(layout: Layout) -> Layout {
        let align = header_layout().joint_align(layout);
        let size = header_layout().offset_of_next(layout) + layout.size;
        Layout {
            size: crate::resumable::common::stack::rounded_up(size, align as int) as usize,
            align,
        }
    }

    /// The first place behind the bookkeeping that is aligned for the block.
    open spec fn payload_offset_for(layout: Layout) -> usize {
        header_layout().offset_of_next(layout) as usize
    }

    open spec fn reusable(&self, wk: usize) -> Option<Block> {
        self.lists().next_for(wk as int)
    }

    open spec fn pooled(&self) -> Multiset<Block> {
        self.lists().nodes()
    }

    open spec fn contents(&self) -> ListsView<Block> {
        self.lists()
    }

    open spec fn no_blocks(n: nat) -> ListsView<Block> {
        ListsView::empty(n)
    }

    open spec fn after_take(lists: ListsView<Block>, wk: usize) -> ListsView<Block> {
        lists.after_take(wk as int)
    }

    open spec fn after_give(lists: ListsView<Block>, wk: usize, block: Block) -> ListsView<Block> {
        lists.after_give(wk as int, block, THRESHOLD as nat)
    }

    fn new_pool(num_workers: usize, layout: Layout) -> (r: Self) {
        let header = Layout { size: HEADER_SIZE, align: HEADER_ALIGN };
        proof {
            assert(vstd::arithmetic::power2::pow2(3) == 8) by {
                vstd::arithmetic::power2::lemma2_to64();
            }
            assert(crate::resumable::common::stack::is_pow2_of(HEADER_ALIGN, 3));
            law_new_lists_are_empty::<Block>(num_workers as nat, THRESHOLD as nat);
        }
        match header.extend(layout) {
            Some((block, offset)) => {
                let padded = block.pad_to_align();
                let r = BlockPool {
                    block_layout: padded,
                    payload_offset: offset,
                    lists: new_workers_and_pro_arrays(num_workers),
                };
                proof {
                    let sum = (HEADER_SIZE + layout.align - 1) as usize;
                    crate::resumable::common::stack::lemma_mask_rounds_down(sum, layout.align);
                    assert forall|base: usize| base % r.block_layout().align == 0 implies #[trigger] (
                    base + r.payload_offset()) % layout.align as int == 0 by {
                        crate::resumable::common::layout::lemma_pow2_multiple(
                            base as int,
                            layout.align,
                            r.block_layout().align,
                        );
                        vstd::arithmetic::div_mod::lemma_mod_adds(
                            base as int,
                            offset as int,
                            layout.align as int,
                        );
                    }
                }
                r
            },
            None => BlockPool {
                block_layout: header,
                payload_offset: 0,
                lists: new_workers_and_pro_arrays(num_workers),
            },
        }
    }

    fn alloc_block<F: FnOnce(Layout) -> usize>(&mut self, wk_num: usize, make: F) -> (r: Block) {
        proof {
            law_take(
                self.lists(),
                wk_num as int,
                self.lists().local.len(),
                THRESHOLD as nat,
            );
        }
        match node_take(&mut self.lists, wk_num) {
            Some(block) => block,
            None => self.alloc_fresh(wk_num, make),
        }
    }

    fn dealloc(&mut self, wk_num: usize, block: Block) {
        proof {
            law_give(
                self.lists(),
                wk_num as int,
                block,
                self.lists().local.len(),
                THRESHOLD as nat,
            );
        }
        node_give(&mut self.lists, wk_num, block, THRESHOLD);
    }
}

/// What can be said of a pool whose requests vary.
pub trait DynamicPoolModel: Sized {
    /// What the pool's lists are: which block lies where, and in what order.
    type Lists;

    /// Whether the pool can serve requests up to this layout from its lists.
    spec fn valid_config(threshold: Layout) -> bool;

    /// The pool's internal invariant.
    spec fn wf(&self) -> bool;

    /// How many workers the pool serves.
    spec fn num_workers(&self) -> nat;

    /// The largest request served from the lists.
    spec fn threshold(&self) -> Layout;

    /// The layout asked for when a block for the lists has to be made.
    spec fn block_layout(&self) -> Layout;

    /// Where in that memory the block lies.
    spec fn payload_offset(&self) -> usize;

    /// The layout asked for when a pool with this threshold has to make a
    /// block for its lists.
    spec fn block_layout_for(threshold: Layout) -> Layout;

    /// Where in that memory the block lies.
    spec fn payload_offset_for(threshold: Layout) -> usize;

    /// The pooled block that worker `wk` gets next, if it need not be made.
    spec fn reusable(&self, wk: usize) -> Option<Block>;

    /// All blocks in the pool.
    spec fn pooled(&self) -> Multiset<Block>;

    /// The pool's lists.
    spec fn contents(&self) -> Self::Lists;

    /// Lists without blocks, for `n` workers.
    spec fn no_blocks(n: nat) -> Self::Lists;

    /// The lists after worker `wk` took the pooled block that it gets next.
    spec fn after_take(lists: Self::Lists, wk: usize) -> Self::Lists;

    /// The lists after worker `wk` gave `block` back and it was kept.
    spec fn after_give(lists: Self::Lists, wk: usize, block: Block) -> Self::Lists;
}

/// The layout of the memory that has to be allocated to serve a request of
/// worker `wk`, if any has to be.
pub open spec fn memory_needed<P: DynamicPoolModel>(
    pool: P,
    wk: usize,
    layout: Layout,
) -> Option<Layout> {
    if !pool.threshold().covers(layout) {
        Some(layout)
    } else if pool.reusable(wk) is None {
        Some(pool.block_layout())
    } else {
        None
    }
}

/// Whether the parameters of two states of a pool are the same.
pub open spec fn same_config<P: DynamicPoolModel>(pool: P, after: P) -> bool {
    &&& after.num_workers() == pool.num_workers()
    &&& after.threshold() == pool.threshold()
    &&& after.block_layout() == pool.block_layout()
    &&& after.payload_offset() == pool.payload_offset()
}

/// Whether `after` is `pool` after it served a request of worker `wk`
/// with `block`.
pub open spec fn block_allocated<P: DynamicPoolModel, F: FnOnce(Layout) -> usize>(
    pool: P,
    after: P,
    wk: usize,
    layout: Layout,
    make: F,
    block: Block,
) -> bool {
    &&& same_config(pool, after)
    &&& block.home() == wk
    &&& if !pool.threshold().covers(layout) {
        &&& call_ensures(make, (layout,), block.addr)
        &&& after.pooled() == pool.pooled()
        &&& after.contents() == pool.contents()
    } else {
        match pool.reusable(wk) {
            Some(b) => {
                &&& block == b
                &&& pool.pooled() == after.pooled().insert(b)
                &&& after.contents() == P::after_take(pool.contents(), wk)
            },
            None => {
                &&& after.pooled() == pool.pooled()
                &&& after.contents() == pool.contents()
                &&& exists|base: usize| #[trigger]
                    call_ensures(make, (pool.block_layout(),), base) && block.addr == base
                        + pool.payload_offset()
            },
        }
    }
}

/// Whether `after` is `pool` after worker `wk` gave `block` back and
/// `freed` was handed out to be freed.
pub open spec fn block_returned<P: DynamicPoolModel>(
    pool: P,
    after: P,
    wk: usize,
    block: Block,
    layout: Layout,
    freed: Option<Block>,
) -> bool {
    &&& same_config(pool, after)
    &&& if pool.threshold().covers(layout) {
        &&& freed is None
        &&& after.pooled() == pool.pooled().insert(block)
        &&& after.contents() == P::after_give(pool.contents(), wk, block)
    } else {
        &&& freed == Some(block)
        &&& after.pooled() == pool.pooled()
        &&& after.contents() == pool.contents()
    }
}

/// A pool whose requests vary in size and alignment.
pub trait DynamicPool: DynamicPoolModel {
    /// Makes an empty pool.
    fn new_pool(num_workers: usize, threshold: Layout) -> (r: Self)
        requires
            threshold.wf(),
            Self::valid_config(threshold),
        ensures
            r.wf(),
            r.num_workers() == num_workers,
            r.threshold() == threshold,
            r.pooled() == Multiset::<Block>::empty(),
            r.contents() == Self::no_blocks(num_workers as nat),
            r.block_layout() == Self::block_layout_for(threshold),
            r.payload_offset() == Self::payload_offset_for(threshold),
            r.payload_offset() + threshold.size <= r.block_layout().size,
            threshold.align <= r.block_layout().align,
            forall|base: usize|
                base % r.block_layout().align == 0 ==> #[trigger] (base + r.payload_offset())
                    % threshold.align as int == 0,
    ;

    /// A block of `layout` for worker `wk_num`. `make` allocates memory.
    fn alloc_block<F: FnOnce(Layout) -> usize>(
        &mut self,
        wk_num: usize,
        layout: Layout,
        make: F,
    ) -> (r: Block)
        requires
            old(self).wf(),
            wk_num < old(self).num_workers(),
            memory_needed(*old(self), wk_num, layout) matches Some(made) ==> makes_allocations(
                make,
                made,
            ),
        ensures
            final(self).wf(),
            block_allocated(*old(self), *final(self), wk_num, layout, make, r),
    ;

    /// Gives a block of `layout` back from worker `wk_num`. A block that does
    /// not enter the pool is handed back, to be freed.
    fn dealloc(&mut self, wk_num: usize, block: Block, layout: Layout) -> (r: Option<Block>)
        requires
            old(self).wf(),
            wk_num < old(self).num_workers(),
            block.home() < old(self).num_workers(),
        ensures
            final(self).wf(),
            block_returned(*old(self), *final(self), wk_num, block, layout, r),
    ;
}

/// Serves requests up to a threshold from a [`StaticPool`], and makes and
/// frees larger ones one by one.
pub struct ThresholdPool<P: StaticPool> {
    threshold: Layout,
    inner: P,
}

impl<P: StaticPool> ThresholdPool<P> {
    /// The pool behind.
    pub closed spec fn inner(&self) -> P {
        self.inner
    }
}

impl<P: StaticPool> DynamicPoolModel for ThresholdPool<P> {
    type Lists = P::Lists;

    open spec fn valid_config(threshold: Layout) -> bool {
        P::valid_config(threshold)
    }

    open spec fn wf(&self) -> bool {
        self.inner().wf()
    }

    open spec fn num_workers(&self) -> nat {
        self.inner().num_workers()
    }

    closed spec fn threshold(&self) -> Layout {
        self.threshold
    }

    open spec fn block_layout(&self) -> Layout {
        self.inner().block_layout()
    }

    open spec fn payload_offset(&self) -> usize {
        self.inner().payload_offset()
    }

    open spec fn block_layout_for(threshold: Layout) -> Layout {
        P::block_layout_for(threshold)
    }

    open spec fn payload_offset_for(threshold: Layout) -> usize {
        P::payload_offset_for(threshold)
    }

    open spec fn reusable(&self, wk: usize) -> Option<Block> {
        self.inner().reusable(wk)
    }

    open spec fn pooled(&self) -> Multiset<Block> {
        self.inner().pooled()
    }

    open spec fn contents(&self) -> P::Lists {
        self.inner().contents()
    }

    open spec fn no_blocks(n: nat) -> P::Lists {
        P::no_blocks(n)
    }

    open spec fn after_take(lists: P::Lists, wk: usize) -> P::Lists {
        P::after_take(lists, wk)
    }

    open spec fn after_give(lists: P::Lists, wk: usize, block: Block) -> P::Lists {
        P::after_give(lists, wk, block)
    }
}

impl<P: StaticPool> DynamicPool for ThresholdPool<P> {
    fn new_pool(num_workers: usize, threshold: Layout) -> (r: Self) {
        ThresholdPool { threshold, inner: P::new_pool(num_workers, threshold) }
    }

    fn alloc_block<F: FnOnce(Layout) -> usize>(
        &mut self,
        wk_num: usize,
        layout: Layout,
        make: F,
    ) -> (r: Block) {
        if layout.size <= self.threshold.size && layout.align <= self.threshold.align {
            self.inner.alloc_block(wk_num, make)
        } else {
            let addr: usize = make(layout);
            Block { addr, alloc_wk: wk_num }
        }
    }

    fn dealloc(&mut self, wk_num: usize, block: Block, layout: Layout) -> (r: Option<Block>) {
        if layout.size <= self.threshold.size && layout.align <= self.threshold.align {
            self.inner.dealloc(wk_num, block);
            None
        } else {
            Some(block)
        }
    }
}

// ---------------------------------------------------------------------------
// What pools are for
// ---------------------------------------------------------------------------

/// What a worker gives back at home it takes next, and the lists are then as they
/// were.
pub proof fn law_node_given_at_home_is_taken_next<N: PoolNode>(
    v: ListsView<N>,
    node: N,
    n: nat,
    threshold: nat,
)
    requires
        v.wf(n, threshold),
        node.home() < n,
    ensures
        v.after_give(node.home() as int, node, threshold).next_for(node.home() as int) == Some(
            node,
        ),
        v.after_give(node.home() as int, node, threshold).after_take(node.home() as int) == v,
{
    let h = node.home() as int;
    let u = v.after_give(h, node, threshold);
    assert(u.local[h].drop_last() =~= v.local[h]);
    assert(u.after_take(h) =~~= v);
}

/// A worker that takes a node finds one whenever its own list or its mailbox has
/// any, its own list first and the most recent node first, and no other worker's
/// list changes, nor does anything that is staged.
pub proof fn law_taking_touches_ones_own_lists<N: PoolNode>(v: ListsView<N>, w: int, i: int)
    requires
        0 <= w < v.local.len(),
        v.remote.len() == v.local.len(),
    ensures
        v.next_for(w) is Some <==> v.local[w].len() + v.remote[w].len() > 0,
        v.local[w].len() > 0 ==> {
            &&& v.next_for(w) == Some(v.local[w][v.local[w].len() - 1])
            &&& v.after_take(w).local[w].push(v.local[w][v.local[w].len() - 1]) == v.local[w]
            &&& v.after_take(w).remote[w] == v.remote[w]
        },
        v.local[w].len() == 0 && v.remote[w].len() > 0 ==> {
            &&& v.next_for(w) == Some(v.remote[w][v.remote[w].len() - 1])
            &&& v.after_take(w).local[w].push(v.remote[w][v.remote[w].len() - 1]) == v.remote[w]
            &&& v.after_take(w).remote[w].len() == 0
        },
        i != w && 0 <= i < v.local.len() ==> v.after_take(w).local[i] == v.local[i]
            && v.after_take(w).remote[i] == v.remote[i],
        v.after_take(w).staged == v.staged,
        v.after_take(w).local.len() == v.local.len(),
        v.after_take(w).remote.len() == v.remote.len(),
{
    if v.local[w].len() > 0 {
        assert(v.local[w].drop_last().push(v.local[w].last()) =~= v.local[w]);
    } else if v.remote[w].len() > 0 {
        assert(v.remote[w].drop_last().push(v.remote[w].last()) =~= v.remote[w]);
    }
}

/// A node given back elsewhere stays with the worker that gave it back until a
/// batch is full, and then the whole batch, in order, is put on top of its home
/// worker's mailbox. Nobody's own list changes, and nothing that is staged for
/// others or by others.
pub proof fn law_giving_elsewhere_stages<N: PoolNode>(
    v: ListsView<N>,
    c: int,
    node: N,
    n: nat,
    threshold: nat,
    a: int,
    b: int,
)
    requires
        v.wf(n, threshold),
        0 <= c < n,
        node.home() < n,
        node.home() != c,
    ensures
        ({
            let h = node.home() as int;
            let u = v.after_give(c, node, threshold);
            &&& u.local == v.local
            &&& u.staged[c][h].len() > 0 && u.staged[c][h].last() == node
            &&& u.remote[h] + u.staged[c][h] == v.remote[h] + v.staged[c][h].push(node)
            &&& v.staged[c][h].len() < threshold ==> u.remote[h] == v.remote[h]
            &&& v.staged[c][h].len() >= threshold ==> u.staged[c][h] == seq![node]
            &&& 0 <= a < n && a != h ==> u.remote[a] == v.remote[a]
            &&& 0 <= a < n && 0 <= b < n && (a != c || b != h) ==> u.staged[a][b] == v.staged[a][b]
        }),
{
    let h = node.home() as int;
    let u = v.after_give(c, node, threshold);
    assert(u.remote[h] + u.staged[c][h] =~= v.remote[h] + v.staged[c][h].push(node));
}

/// Lists are freed most recent node first, worker after worker: each worker's own
/// list, then its mailbox, then what it has staged.
pub proof fn law_lists_are_freed_newest_first<N>(v: ListsView<N>, w: nat, i: int)
    requires
        w < v.local.len(),
    ensures
        ({
            let before = v.free_order(w);
            let own = v.local[w as int];
            let mail = v.remote[w as int];
            let out = v.free_order(w + 1);
            &&& v.free_order(0).len() == 0
            &&& out.len() >= before.len() + own.len() + mail.len()
            &&& out.take(before.len() as int) == before
            &&& 0 <= i < own.len() ==> out[before.len() + i] == own[own.len() - 1 - i]
            &&& 0 <= i < mail.len() ==> out[before.len() + own.len() + i] == mail[mail.len() - 1
                - i]
        }),
{
    let out = v.free_order(w + 1);
    assert(out.take(v.free_order(w).len() as int) =~= v.free_order(w));
}

/// A request is served with a stack that is large enough: one that is made is as
/// large as the larger of the request and the pool's own size; one that is reused
/// is the next in the pool. A task's stack is made only where it has to be, and a
/// request over the pool's own size never touches the pool.
pub proof fn law_request_gets_a_stack<
    D: TaskDescAlloc,
    P: DescPoolModel<D>,
    F: FnOnce(usize) -> StackMem,
>(
    pool: P,
    after: P,
    wk: usize,
    has_handle: bool,
    size: usize,
    make: F,
    node: Node<D>,
)
    requires
        node_allocated(pool, after, wk, has_handle, size, make, node),
    ensures
        stack_needed(pool, wk, size) is None <==> size <= pool.slot_size() && pool.reusable(
            wk,
        ) is Some,
        stack_needed(pool, wk, size) matches Some(n) ==> {
            &&& n == if size > pool.slot_size() {
                size
            } else {
                pool.slot_size()
            }
            &&& call_ensures(make, (n,), node.payload.stack())
            &&& node.alloc_wk == wk
            &&& node.oversized <==> size > pool.slot_size()
            &&& !node.payload.root()
            &&& after.pooled() == pool.pooled()
            &&& after.contents() == pool.contents()
        },
        stack_needed(pool, wk, size) is None ==> {
            &&& node.payload.stack() == pool.reusable(wk)->0.payload.stack()
            &&& node.alloc_wk == pool.reusable(wk)->0.alloc_wk
            &&& node.oversized == pool.reusable(wk)->0.oversized
            &&& node.payload.root() == pool.reusable(wk)->0.payload.root()
            &&& after.pooled().insert(pool.reusable(wk)->0) == pool.pooled()
            &&& after.contents() == P::after_take(pool.contents(), wk)
        },
        node.payload.word() == crate::resumable::common::desc::initial_word(has_handle),
        node.payload.spec_owned().spec_desc_owned().tls is None,
        after.num_workers() == pool.num_workers(),
        after.slot_size() == pool.slot_size(),
{
    match stack_needed(pool, wk, size) {
        Some(n) => {
            let stack = choose|stack: StackMem| #[trigger]
                call_ensures(make, (n,), stack) && node == (Node {
                    alloc_wk: wk,
                    oversized: size > pool.slot_size(),
                    payload: D::fresh(stack, has_handle),
                });
            node.payload.lifecycle(stack, has_handle);
        },
        None => {
            pool.reusable(wk)->0.payload.lifecycle(StackMem::NoStack, has_handle);
        },
    }
}

/// A node that is given back is kept or handed out to be freed, never both and
/// never neither: it is kept exactly when it is of the pool's own size and the
/// pool keeps what its worker gives back.
pub proof fn law_node_is_kept_or_freed<D: TaskDescAlloc, P: DescPoolModel<D>>(
    pool: P,
    after: P,
    wk: usize,
    node: Node<D>,
    freed: Option<Node<D>>,
)
    requires
        node_returned(pool, after, wk, node, freed),
    ensures
        freed is None <==> !node.oversized && pool.keeps(wk),
        freed is None ==> after.pooled() == pool.pooled().insert(node) && after.contents()
            == P::after_give(pool.contents(), wk, node),
        freed matches Some(f) ==> f == node && after.pooled() == pool.pooled() && after.contents()
            == pool.contents(),
        after.num_workers() == pool.num_workers(),
        after.slot_size() == pool.slot_size(),
{
}

/// A simple pool is a bounded stack for each worker: it keeps what is given back
/// until it has as many nodes as it may have, and then what a worker gives back
/// it gets next, and is as it was before.
pub proof fn law_simple_pool_is_a_bounded_stack<D: TaskDescAlloc, const CAP: usize>(
    pool: SimplePool<D, CAP>,
    wk: usize,
    node: Node<D>,
    other: int,
)
    requires
        wk < pool.lists().len(),
    ensures
        ({
            let l = pool.contents();
            let given = SimplePool::<D, CAP>::after_give(l, wk, node);
            &&& l == pool.lists()
            &&& pool.num_workers() == l.len()
            &&& SimplePool::<D, CAP>::no_nodes(l.len()).len() == l.len()
            &&& SimplePool::<D, CAP>::no_nodes(l.len())[wk as int].len() == 0
            &&& pool.keeps(wk) <==> l[wk as int].len() < CAP
            &&& pool.reusable(wk) is Some <==> l[wk as int].len() > 0
            &&& pool.reusable(wk) matches Some(x) ==> SimplePool::<D, CAP>::after_take(
                l,
                wk,
            )[wk as int].push(x) == l[wk as int]
            &&& given[wk as int] == l[wk as int].push(node)
            &&& SimplePool::<D, CAP>::after_take(given, wk) == l
            &&& 0 <= other < l.len() && other != wk ==> given[other] == l[other]
                && SimplePool::<D, CAP>::after_take(l, wk)[other] == l[other]
        }),
{
    let l = pool.contents();
    let given = SimplePool::<D, CAP>::after_give(l, wk, node);
    assert(given[wk as int].drop_last() =~= l[wk as int]);
    assert(SimplePool::<D, CAP>::after_take(given, wk) =~= l);
    if l[wk as int].len() > 0 {
        assert(l[wk as int].drop_last().push(l[wk as int].last()) =~= l[wk as int]);
    }
}

/// A pool that returns nodes keeps every node that fits it, and a worker gets a
/// node of its own again as soon as its list or its mailbox has one.
pub proof fn law_return_pool_reuses_what_came_home<D: TaskDescAlloc, const THRESHOLD: usize>(
    pool: ReturnPool<D, THRESHOLD>,
    wk: usize,
    node: Node<D>,
)
    requires
        pool.wf(),
        wk < pool.num_workers(),
        node.home() == wk,
    ensures
        ({
            let l = pool.contents();
            let given = ReturnPool::<D, THRESHOLD>::after_give(l, wk, node);
            &&& l == pool.lists()
            &&& pool.num_workers() == l.local.len()
            &&& pool.keeps(wk)
            &&& pool.reusable(wk) is Some <==> l.local[wk as int].len() + l.remote[wk as int].len()
                > 0
            &&& pool.reusable(wk) matches Some(x) ==> x.alloc_wk == wk
            &&& given.local[wk as int] == l.local[wk as int].push(node)
            &&& ReturnPool::<D, THRESHOLD>::after_take(given, wk) == l
        }),
{
    let l = pool.contents();
    law_node_given_at_home_is_taken_next(l, node, l.local.len(), THRESHOLD as nat);
    law_take(l, wk as int, l.local.len(), THRESHOLD as nat);
}

/// A block behind its bookkeeping lies at the first place that is aligned for it,
/// and the memory around both ends where the block ends, but for rounding: no
/// byte of the block is in the bookkeeping or outside of the memory.
pub proof fn law_block_lies_behind_its_bookkeeping<const THRESHOLD: usize>(layout: Layout)
    requires
        layout.wf(),
        BlockPool::<THRESHOLD>::valid_config(layout),
    ensures
        ({
            let offset = BlockPool::<THRESHOLD>::payload_offset_for(layout);
            let whole = BlockPool::<THRESHOLD>::block_layout_for(layout);
            &&& 16 <= offset < 16 + layout.align
            &&& offset % layout.align == 0
            &&& whole.align == if layout.align > 8 {
                layout.align
            } else {
                8
            }
            &&& offset + layout.size <= whole.size < offset + layout.size + whole.align
            &&& whole.size % whole.align == 0
            &&& THRESHOLD >= 1
        }),
{
    let header = header_layout();
    crate::resumable::common::stack::lemma_mask_rounds_down(0, layout.align);
    crate::resumable::common::stack::law_rounding_up_is_least(16, layout.align as int, 0);
    let offset = header.offset_of_next(layout);
    let align = header.joint_align(layout);
    crate::resumable::common::stack::law_rounding_up_is_least(
        offset + layout.size,
        align as int,
        0,
    );
}

/// Blocks over a pool's limit are made and freed one by one, with the very layout
/// that was asked for; all others are the pool's, come from it when it has one,
/// and go back into it.
pub proof fn law_only_large_blocks_bypass_the_pool<P: DynamicPoolModel, F: FnOnce(Layout) -> usize>(
    pool: P,
    after: P,
    wk: usize,
    layout: Layout,
    make: F,
    block: Block,
    freed: Option<Block>,
)
    ensures
        ({
            let large = layout.size > pool.threshold().size || layout.align
                > pool.threshold().align;
            let kept_as_it_was = after.pooled() == pool.pooled() && after.contents()
                == pool.contents();
            &&& memory_needed(pool, wk, layout) is None <==> !large && pool.reusable(wk) is Some
            &&& memory_needed(pool, wk, layout) matches Some(m) ==> m == if large {
                layout
            } else {
                pool.block_layout()
            }
            &&& block_allocated(pool, after, wk, layout, make, block) ==> {
                &&& block.alloc_wk == wk
                &&& large ==> call_ensures(make, (layout,), block.addr) && kept_as_it_was
                &&& !large && pool.reusable(wk) is Some ==> {
                    &&& Some(block) == pool.reusable(wk)
                    &&& after.pooled().insert(block) == pool.pooled()
                    &&& after.contents() == P::after_take(pool.contents(), wk)
                }
                &&& !large && pool.reusable(wk) is None ==> {
                    &&& kept_as_it_was
                    &&& exists|base: usize| #[trigger]
                        call_ensures(make, (pool.block_layout(),), base) && block.addr == base
                            + pool.payload_offset()
                }
                &&& after.num_workers() == pool.num_workers()
                &&& after.threshold() == pool.threshold()
                &&& after.block_layout() == pool.block_layout()
                &&& after.payload_offset() == pool.payload_offset()
            }
            &&& block_returned(pool, after, wk, block, layout, freed) ==> {
                &&& freed is Some <==> large
                &&& large ==> freed == Some(block) && kept_as_it_was
                &&& !large ==> after.pooled() == pool.pooled().insert(block) && after.contents()
                    == P::after_give(pool.contents(), wk, block)
                &&& after.num_workers() == pool.num_workers()
                &&& after.threshold() == pool.threshold()
                &&& after.block_layout() == pool.block_layout()
                &&& after.payload_offset() == pool.payload_offset()
            }
        }),
{
}

/// A block pool gets a worker's own blocks back to it, and a pool with a limit
/// hands everything below it to the pool behind.
pub proof fn law_block_pool_reuses_what_came_home<const THRESHOLD: usize>(
    pool: ThresholdPool<BlockPool<THRESHOLD>>,
    wk: usize,
    block: Block,
)
    requires
        pool.wf(),
        wk < pool.num_workers(),
        block.home() == wk,
    ensures
        ({
            let l = pool.contents();
            let given = ThresholdPool::<BlockPool<THRESHOLD>>::after_give(l, wk, block);
            &&& l == pool.inner().lists()
            &&& pool.num_workers() == l.local.len()
            &&& pool.reusable(wk) is Some <==> l.local[wk as int].len() + l.remote[wk as int].len()
                > 0
            &&& pool.reusable(wk) matches Some(x) ==> x.alloc_wk == wk
            &&& given.local[wk as int] == l.local[wk as int].push(block)
            &&& ThresholdPool::<BlockPool<THRESHOLD>>::after_take(given, wk) == l
        }),
{
    let l = pool.contents();
    law_node_given_at_home_is_taken_next(l, block, l.local.len(), THRESHOLD as nat);
    law_take(l, wk as int, l.local.len(), THRESHOLD as nat);
}

} // verus!
