use cmpth::resumable::common::desc::{TaskDesc, TaskDescCore};
use cmpth::resumable::common::layout::Layout;
use cmpth::resumable::common::pool::{
    drop_all_nodes, new_workers_and_pro_arrays, node_give, node_take, Block, BlockPool, DescPool,
    DynamicPool, FreeLists, ReturnPool, SimplePool, StaticPool, ThresholdPool,
};
use cmpth::resumable::common::stack::StackMem;
use cmpth::resumable::stackful::desc::StackfulOnlyTaskDesc;

fn make(size: usize) -> StackMem {
    StackMem::Heap { ptr: 0x100000, size }
}

#[test]
fn simple_pools_reuse_up_to_their_capacity() {
    let mut p: SimplePool<StackfulOnlyTaskDesc, 1> = SimplePool::new_pool(1, 4096);
    let mut a = p.alloc_node(0, true, 4096, make);
    assert!(matches!(a.payload.stack, StackMem::Heap { size: 4096, .. }));
    a.payload.commit_finished();
    let b = p.alloc_node(0, true, 4096, make);
    assert!(p.dealloc(0, a).is_none());
    assert!(p.dealloc(0, b).is_some());
    let c = p.alloc_node(0, false, 100, |_| panic!("a pooled node was there"));
    assert!(!c.payload.is_finished());
    assert!(c.payload.is_abandoned());
    assert_eq!(p.release().len(), 0);
}

#[test]
fn oversized_requests_stay_out_of_the_pool() {
    let mut p: ReturnPool<StackfulOnlyTaskDesc, 4> = ReturnPool::new_pool(2, 4096);
    let big = p.alloc_node(1, true, 10000, make);
    assert!(big.oversized);
    assert_eq!(big.payload.stack_top(), 0x100000 + 10000);
    assert!(p.dealloc(1, big).is_some());
    assert_eq!(p.release().len(), 0);
}

#[test]
fn nodes_return_to_their_home_in_batches() {
    let mut p: ReturnPool<StackfulOnlyTaskDesc, 2> = ReturnPool::new_pool(2, 4096);
    let nodes: Vec<_> = (0..3).map(|_| p.alloc_node(0, true, 4096, make)).collect();
    let mut made = 0;
    for n in nodes {
        assert!(p.dealloc(1, n).is_none());
    }
    for _ in 0..3 {
        p.alloc_node(0, true, 4096, |s| {
            made += 1;
            make(s)
        });
    }
    assert_eq!(made, 1);
    assert_eq!(p.release().len(), 1);
}

fn block(addr: usize, alloc_wk: usize) -> Block {
    Block { addr, alloc_wk }
}

#[test]
fn a_full_batch_reaches_the_mailbox() {
    let mut l: FreeLists<Block> = new_workers_and_pro_arrays(2);
    node_give(&mut l, 0, block(8, 0), 2);
    assert_eq!(node_take(&mut l, 0).unwrap().addr, 8);
    node_give(&mut l, 1, block(16, 0), 2);
    assert!(node_take(&mut l, 0).is_none());
    node_give(&mut l, 1, block(24, 0), 2);
    assert!(node_take(&mut l, 0).is_none());
    node_give(&mut l, 1, block(32, 0), 2);
    let mut got = vec![
        node_take(&mut l, 0).unwrap().addr,
        node_take(&mut l, 0).unwrap().addr,
    ];
    got.sort();
    assert_eq!(got, vec![16, 24]);
    assert!(node_take(&mut l, 0).is_none());
}

#[test]
fn dropping_frees_every_node_once() {
    let mut l: FreeLists<Block> = new_workers_and_pro_arrays(2);
    node_give(&mut l, 0, block(8, 0), 2);
    node_give(&mut l, 1, block(16, 0), 2);
    node_give(&mut l, 0, block(24, 1), 2);
    node_give(&mut l, 0, block(32, 1), 2);
    let mut all: Vec<usize> = drop_all_nodes(l).into_iter().map(|b| b.addr).collect();
    all.sort();
    assert_eq!(all, vec![8, 16, 24, 32]);
}

#[test]
fn blocks_keep_their_header_below_the_payload() {
    let layout = Layout { size: 100, align: 16 };
    let mut p: BlockPool<2> = StaticPool::new_pool(1, layout);
    let b = p.alloc_block(0, |l| {
        assert_eq!((l.size, l.align), (128, 16));
        0x40000
    });
    assert_eq!(b.addr, 0x40010);
    assert_eq!(p.header_of(Block { addr: b.addr, alloc_wk: 0 }), 0x40000);
    assert_eq!(p.payload_of(0x40000, 0).addr, b.addr);
    let addr = b.addr;
    StaticPool::dealloc(&mut p, 0, b);
    let again = p.alloc_block(0, |_| panic!("a pooled block was there"));
    assert_eq!(again.addr, addr);
}

#[test]
fn a_full_batch_of_blocks_comes_home() {
    let layout = Layout { size: 64, align: 8 };
    let mut p: BlockPool<2> = StaticPool::new_pool(2, layout);
    let a = p.alloc_block(0, |_| 0x1000);
    let b = p.alloc_block(0, |_| 0x2000);
    let c = p.alloc_block(0, |_| 0x3000);
    for block in [a, b, c] {
        StaticPool::dealloc(&mut p, 1, block);
    }
    let none = |_: Layout| -> usize { panic!("a pooled block was there") };
    assert_eq!(p.alloc_block(0, none), b);
    assert_eq!(p.alloc_block(0, none), a);
    assert_ne!(p.alloc_block(0, |_| 0x4000), c);
}

#[test]
fn frames_go_home_in_batches() {
    let layout = Layout { size: 64, align: 8 };
    let mut p: ThresholdPool<BlockPool<1>> = DynamicPool::new_pool(2, layout);
    let a = p.alloc_block(0, layout, |_| 0x1000);
    let b = p.alloc_block(0, layout, |_| 0x2000);
    assert!(p.dealloc(1, a, layout).is_none());
    assert!(p.dealloc(1, b, layout).is_none());
    // Worker 1 gave both back: the first is home, the second still on its way.
    let again = p.alloc_block(0, layout, |_| panic!("a pooled block was there"));
    assert_eq!(again, a);
    let fresh = p.alloc_block(0, layout, |_| 0x3000);
    assert_ne!(fresh, b);
}

#[test]
fn large_blocks_pass_by_the_pool() {
    let threshold = Layout { size: 64, align: 16 };
    let mut p: ThresholdPool<BlockPool<2>> = DynamicPool::new_pool(1, threshold);
    let small = Layout { size: 32, align: 8 };
    let large = Layout { size: 65, align: 8 };
    let a = p.alloc_block(0, small, |l| {
        assert_eq!((l.size, l.align), (80, 16));
        0x40000
    });
    let b = p.alloc_block(0, large, |l| {
        assert_eq!((l.size, l.align), (65, 8));
        0x50000
    });
    assert_eq!(b.addr, 0x50000);
    assert_eq!(p.dealloc(0, b, large).unwrap().addr, 0x50000);
    let addr = a.addr;
    assert!(p.dealloc(0, a, small).is_none());
    assert_eq!(p.alloc_block(0, small, |_| 0).addr, addr);
}
