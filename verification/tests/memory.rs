use cmpth::context::{
    cond_swap_context, restore_context, save_context, swap_context, Arch, CondTransfer, Context,
    ContextPolicy, Entry, NativeContext, Registers,
};
use cmpth::interchange::{AtomicSlot, AtomicTaggedSlot, PointerInterchangeable, Transferred};
use cmpth::resumable::common::desc::{RunningTaskToken, SuspendedTaskToken, TaskDescAlloc};
use cmpth::resumable::common::layout::Layout;
use cmpth::resumable::common::pool::Node;
use cmpth::resumable::common::stack::{
    dealloc_heap_stack, page_size, round_up, HeapStack, HeapStackMem, StackAlloc, StackMem,
    UltStackMemory,
};
use cmpth::resumable::common::table::TaskTable;
use cmpth::resumable::common::thread::align_down;
use cmpth::resumable::stackful::context::LeanFrameContext;
use cmpth::resumable::stackful::desc::StackfulOnlyTaskDesc;
use cmpth::resumable::stackful::stack::ArenaStack;
use cmpth::resumable::stackful::thread::{branch_layout, header_fits};

const ENTRY: Entry = Entry { function: 0xF0, arg: 0xA0, trampoline: 0x7A };

#[test]
fn native_frames_of_new_stacks() {
    let (ctx, words) = NativeContext::make_context(Arch::Aarch64, 0x10007, ENTRY);
    assert_eq!(ctx, Context(0x10000 - 96));
    assert_eq!(words, vec![0xF0, 0xA0, 0, 0, 0, 0, 0, 0, 0, 0, 0, 0x7A]);
    let (ctx, words) = NativeContext::make_context(Arch::X86_64, 0x10008, ENTRY);
    assert_eq!(ctx, Context(0x10000 - 56));
    assert_eq!(words, vec![0xF0, 0xA0, 0, 0, 0, 0, 0x7A]);
}

#[test]
fn lean_frames_of_new_stacks() {
    let (ctx, words) = LeanFrameContext::make_context(Arch::Aarch64, 0x10000, ENTRY);
    assert_eq!(ctx, Context(0x10000 - 32));
    assert_eq!(words, vec![0xF0, 0xA0, 0, 0x7A]);
    let (ctx, words) = LeanFrameContext::make_context(Arch::X86_64, 0x10000, ENTRY);
    assert_eq!(ctx, Context(0x10000 - 40));
    assert_eq!(words, vec![0xF0, 0xA0, 0, 0, 0x7A]);
}

fn regs(others: Vec<usize>) -> Registers {
    Registers { base: 1, frame_pointer: 2, function: 3, arg: 4, others }
}

#[test]
fn a_saved_context_is_restored() {
    let r = regs(vec![5, 6]);
    let (ctx, words) = NativeContext::save_frame(Arch::X86_64, 0x2000, &r, 0x99);
    assert_eq!(words, vec![3, 4, 1, 2, 5, 6, 0x99]);
    let (back, resume, sp) = NativeContext::land(Arch::X86_64, ctx, &words);
    assert_eq!((back.base, back.frame_pointer, back.function, back.arg), (1, 2, 3, 4));
    assert_eq!(back.others, vec![5, 6]);
    assert_eq!((resume, sp), (0x99, 0x2000));

    let r = regs(vec![5, 6, 7, 8, 9, 10, 11, 12]);
    let (ctx, words) = NativeContext::save_frame(Arch::Aarch64, 0x2000, &r, 0x99);
    assert_eq!(words, vec![3, 4, 5, 6, 7, 8, 9, 10, 11, 12, 2, 0x99]);
    let (back, resume, sp) = NativeContext::land(Arch::Aarch64, ctx, &words);
    assert_eq!(back.others, vec![5, 6, 7, 8, 9, 10, 11, 12]);
    assert_eq!((back.function, back.arg, resume, sp), (3, 4, 0x99, 0x2000));

    let (ctx, words) = LeanFrameContext::save_frame(Arch::Aarch64, 0x2000, &r, 0x99);
    assert_eq!(words, vec![3, 4, 2, 0x99]);
    let (back, resume, sp) = LeanFrameContext::land(Arch::Aarch64, ctx, &words);
    assert!(back.others.is_empty());
    assert_eq!((back.function, back.frame_pointer, resume, sp), (3, 2, 0x99, 0x2000));
}

#[test]
fn both_layouts_begin_alike() {
    for arch in [Arch::Aarch64, Arch::X86_64] {
        let (_, native) = NativeContext::make_context(arch, 0x10000, ENTRY);
        let (_, lean) = LeanFrameContext::make_context(arch, 0x10000, ENTRY);
        assert_eq!(native[..2], [0xF0, 0xA0]);
        assert_eq!(lean[..2], [0xF0, 0xA0]);
        assert_eq!((native.last(), lean.last()), (Some(&0x7A), Some(&0x7A)));
    }
    let (_, words) = LeanFrameContext::save_frame(Arch::X86_64, 0x2000, &regs(vec![5, 6]), 0x99);
    assert_eq!(words, vec![3, 4, 1, 2, 0x99]);
}

#[test]
fn where_callbacks_start() {
    let r = regs(vec![5, 6]);
    let s = swap_context::<NativeContext>(Arch::X86_64, 0x2000, &r, 0x99, Context(0x5008));
    assert_eq!((s.prev, s.sp, s.stores.len()), (Context(0x2000 - 56), 0x5008, 0));
    let s = save_context::<NativeContext>(Arch::X86_64, 0x2000, &r, 0x99, 0x5009, 0x44);
    assert_eq!(s.sp, 0x5000 - 24);
    assert_eq!(s.stores, vec![(0x5000 - 8, 0x2000 - 56), (0x5000 - 24, 0x44)]);
    let s = cond_swap_context::<NativeContext>(Arch::X86_64, 0x2000, &r, 0x99, Context(0x5008));
    assert_eq!(s.sp, 0x5000);
    let r = regs(vec![0; 8]);
    let s = save_context::<LeanFrameContext>(Arch::Aarch64, 0x2000, &r, 0x99, 0x5009, 0x44);
    assert_eq!((s.prev, s.sp, s.stores.len()), (Context(0x2000 - 32), 0x5000, 0));
    let s = cond_swap_context::<LeanFrameContext>(Arch::Aarch64, 0x2000, &r, 0x99, Context(0x5000));
    assert_eq!(s.sp, 0x5000);
    assert_eq!(restore_context(Context(0x5008)), 0x5008);
}

#[test]
fn a_returning_callback_goes_back() {
    let r = regs(vec![5, 6]);
    let s = save_context::<NativeContext>(Arch::X86_64, 0x2000, &r, 0x99, 0x5000, 0x44);
    let read = |addr: usize| s.stores.iter().find(|w| w.0 == addr).map(|w| w.1);
    assert_eq!(read(s.sp), Some(0x44));
    let ctx = Context(read(s.sp + 8 + 8).unwrap());
    assert_eq!(ctx, s.prev);
    let (back, resume, sp) = NativeContext::land(Arch::X86_64, ctx, &s.frame);
    assert_eq!(back.others, vec![5, 6]);
    assert_eq!((back.function, back.arg, resume, sp), (3, 4, 0x99, 0x2000));
}

#[test]
fn a_conditional_switch_commits_by_its_flag() {
    assert!(CondTransfer { value: 3, flag: 1 }.commits());
    assert!(!CondTransfer { value: 3, flag: 0 }.commits());
    assert!(Context::null().is_null());
    assert!(!Context(8).is_null());
}

#[test]
fn slots_hand_over_once() {
    let mut s: AtomicSlot<SuspendedTaskToken> = AtomicSlot::empty();
    assert!(!s.is_set());
    assert!(s.take().is_none());
    s.publish(SuspendedTaskToken::from_raw(0x40));
    assert!(s.is_set());
    assert_eq!(s.take().unwrap().into_ptr(), 0x40);
    assert!(!s.is_set());

    let mut t: AtomicTaggedSlot<2> = AtomicTaggedSlot::empty();
    t.publish(SuspendedTaskToken::from_raw(0x40), 3);
    let (tag, raw) = t.take().unwrap();
    assert_eq!(tag, 3);
    let back: SuspendedTaskToken = raw.into_typed();
    assert_eq!(back.into_ptr(), 0x40);
    assert!(t.take().is_none());
}

#[test]
fn values_change_their_type_on_the_way() {
    let t = Transferred::new(SuspendedTaskToken::from_raw(0x40));
    let r: RunningTaskToken = t.into_inner();
    assert_eq!(r.into_ptr(), 0x40);
}

#[test]
fn rounding() {
    assert_eq!(round_up(1, 4096), 4096);
    assert_eq!(round_up(4096, 4096), 4096);
    assert_eq!(round_up(0, 16), 0);
    assert_eq!(align_down(0x1237, 16), 0x1230);
    assert_eq!(align_down(0x1230, 16), 0x1230);
}

#[test]
fn the_page_size_is_asked_for_once() {
    let mut cache = 0;
    assert_eq!(page_size(&mut cache, || 4096), 4096);
    assert_eq!(page_size(&mut cache, || 1), 4096);
}

#[test]
fn stacks_have_a_guard_page_below() {
    let m = HeapStack::alloc_stack(5000, 4096, |len, guard| {
        assert_eq!((len, guard), (4096 + 8192, 4096));
        0x100000
    });
    assert_eq!((m.ptr, m.size), (0x101000, 8192));
    assert_eq!(m.stack_top(), 0x103000);
    assert_eq!(dealloc_heap_stack(m.ptr, m.size, 4096), (0x100000, 12288));
    let s = StackMem::from(HeapStackMem { ptr: 0x101000, size: 8192 });
    assert_eq!(s.release(4096), Some((0x100000, 12288)));
    assert_eq!(StackMem::NoStack.release(4096), None);
    assert_eq!(StackMem::NoStack.top(), 0);
}

#[test]
fn layouts_extend_with_padding() {
    let a = Layout { size: 9, align: 8 };
    let (b, offset) = a.extend(Layout { size: 32, align: 16 }).unwrap();
    assert_eq!((b.size, b.align, offset), (48, 16, 16));
    assert_eq!(Layout { size: 9, align: 8 }.pad_to_align().size, 16);
    let huge = Layout { size: isize::MAX as usize - 15, align: 16 };
    assert!(huge.extend(Layout { size: 32, align: 16 }).is_none());
}

#[test]
fn branches_lie_below_the_top() {
    let f = Layout { size: 24, align: 8 };
    let r = Layout { size: 40, align: 16 };
    assert_eq!(branch_layout(0x10008, f, r), (0xFFC8, 0xFFE0));
    assert!(header_fits(f, r));
    assert!(header_fits(Layout { size: 200, align: 8 }, Layout { size: 32, align: 8 }));
    assert!(!header_fits(Layout { size: 201, align: 8 }, Layout { size: 32, align: 8 }));
}

#[test]
fn tables_give_distinct_tagged_addresses() {
    let mut t: TaskTable<StackfulOnlyTaskDesc> = TaskTable::new();
    let node = || Node::wrap_fresh(0, false, StackfulOnlyTaskDesc::new_root());
    let a = t.insert(node());
    let b = t.insert(node());
    assert_ne!(a, b);
    assert!(a > 7 && b > 7 && a % 8 == 0 && b % 8 == 0);
    assert!(t.get(a).payload.is_root);
    t.get_mut(a).payload.is_root = false;
    assert!(!t.remove(a).payload.is_root);
    assert!(t.get(b).payload.is_root);
    assert_eq!(t.insert(node()), a);
    assert!(t.can_insert());
}

#[test]
fn arenas_find_the_cell_of_a_stack_pointer() {
    let a = ArenaStack::new(0x100000, 0x10000, 8000, 4096);
    assert_eq!((a.stride, a.cells), (12288, 5));
    let m = a.cell_stack(2);
    assert_eq!(m.ptr, 0x100000 + 2 * 12288 + 4096);
    assert!(m.size >= 8000);
    assert_eq!(a.cell_from_sp(m.ptr), Some(2));
    assert_eq!(a.cell_from_sp(m.stack_top() - 1), Some(2));
    assert_eq!(a.cell_from_sp(0xFFFFF), None);
    assert_eq!(a.slot_from_sp(0x100000 + 5 * 12288), None);
}
