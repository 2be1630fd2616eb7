//! The two frame layouts.
//!
//! [`NativeContext`] keeps every register that a call preserves in the frame.
//! [`LeanFrameContext`] keeps only those that the entry protocol and unwinding
//! need and leaves the rest to the code around the switch. Both begin with the
//! function and the argument that a new stack is entered with, so that one
//! trampoline serves both; they differ past these two words. A context saved
//! under one layout is never resumed under the other.
use vstd::prelude::*;

use crate::context::{
    Arch, Context, ContextPolicy, Entry, Landing, Registers, RegistersView,
};

verus! {

/// The top of a stack, rounded down to the alignment of stacks.
fn aligned_top(stack_top: usize) -> (r: usize)
    ensures
        r == stack_top - stack_top % 16,
{
    assert(stack_top & !0xF == stack_top - stack_top % 16) by (bit_vector);
    stack_top & !0xF
}

/// Puts `src` behind `dst`.
fn push_all(dst: &mut Vec<usize>, src: &Vec<usize>)
    ensures
        final(dst)@ == old(dst)@ + src@,
{
    let mut i: usize = 0;
    while i < src.len()
        invariant
            i <= src@.len(),
            dst@ == old(dst)@ + src@.take(i as int),
        decreases src@.len() - i,
    {
        dst.push(src[i]);
        i += 1;
        assert(dst@ =~= old(dst)@ + src@.take(i as int));
    }
    assert(src@.take(i as int) =~= src@);
}

/// The words from `start` to before `end`.
fn copy_range(words: &Vec<usize>, start: usize, end: usize) -> (r: Vec<usize>)
    requires
        start <= end <= words@.len(),
    ensures
        r@ == words@.subrange(start as int, end as int),
{
    let mut r: Vec<usize> = Vec::new();
    let mut i: usize = start;
    while i < end
        invariant
            start <= i <= end <= words@.len(),
            r@ == words@.subrange(start as int, i as int),
        decreases end - i,
    {
        r.push(words[i]);
        i += 1;
        assert(r@ =~= words@.subrange(start as int, i as int));
    }
    r
}

/// Frames with every preserved register.
pub struct NativeContext {}

/// Lays out a [`NativeContext`] frame.
pub fn make_context_native(arch: Arch, stack_top: usize, entry: Entry) -> (r: (Context, Vec<usize>))
    requires
        stack_top >= 16 + 8 * NativeContext::frame_words(arch),
    ensures
        r.0.0 == stack_top - stack_top % 16 - 8 * NativeContext::frame_words(arch),
        r.1@ == NativeContext::entry_frame(arch, entry),
{
    let aligned: usize = aligned_top(stack_top);
    match arch {
        Arch::Aarch64 => {
            let words: Vec<usize> = vec![
                entry.function,
                entry.arg,
                0,
                0,
                0,
                0,
                0,
                0,
                0,
                0,
                0,
                entry.trampoline,
            ];
            assert(words@ =~= NativeContext::entry_frame(arch, entry));
            (Context(aligned - 96), words)
        },
        Arch::X86_64 => {
            let words: Vec<usize> = vec![
                entry.function,
                entry.arg,
                0,
                0,
                0,
                0,
                entry.trampoline,
            ];
            assert(words@ =~= NativeContext::entry_frame(arch, entry));
            (Context(aligned - 56), words)
        },
    }
}

impl ContextPolicy for NativeContext {
    open spec fn frame_words(arch: Arch) -> nat {
        match arch {
            Arch::Aarch64 => 12,
            Arch::X86_64 => 7,
        }
    }

    proof fn frame_parity(arch: Arch) {
    }

    /// On AArch64 the frame holds x19 to x28, x29 and x30; on x86-64 it holds
    /// r12, r13, rbx, rbp, r14, r15 and the return address.
    open spec fn entry_frame(arch: Arch, entry: Entry) -> Seq<usize> {
        match arch {
            Arch::Aarch64 => seq![entry.function, entry.arg] + Seq::new(9, |i: int| 0usize)
                + seq![entry.trampoline],
            Arch::X86_64 => seq![entry.function, entry.arg] + Seq::new(4, |i: int| 0usize) + seq![
                entry.trampoline,
            ],
        }
    }

    open spec fn landing(arch: Arch, ctx: int, words: Seq<usize>) -> Landing {
        match arch {
            Arch::Aarch64 => Landing {
                function: words[0],
                arg: words[1],
                frame_pointer: words[10],
                resume: words[11],
                stack_pointer: ctx + 96,
            },
            Arch::X86_64 => Landing {
                function: words[0],
                arg: words[1],
                frame_pointer: words[3],
                resume: words[6],
                stack_pointer: ctx + 56,
            },
        }
    }

    fn make_context(arch: Arch, stack_top: usize, entry: Entry) -> (r: (Context, Vec<usize>)) {
        make_context_native(arch, stack_top, entry)
    }

    open spec fn saved_frame(arch: Arch, regs: RegistersView, resume: usize) -> Seq<usize> {
        match arch {
            Arch::Aarch64 => seq![regs.function, regs.arg] + regs.others + seq![
                regs.frame_pointer,
                resume,
            ],
            Arch::X86_64 => seq![regs.function, regs.arg, regs.base, regs.frame_pointer]
                + regs.others + seq![resume],
        }
    }

    /// Everything; on AArch64 there is no base register.
    open spec fn kept(arch: Arch, regs: RegistersView) -> RegistersView {
        match arch {
            Arch::Aarch64 => RegistersView { base: 0, ..regs },
            Arch::X86_64 => regs,
        }
    }

    open spec fn landed(arch: Arch, words: Seq<usize>) -> RegistersView {
        match arch {
            Arch::Aarch64 => RegistersView {
                base: 0,
                frame_pointer: words[10],
                function: words[0],
                arg: words[1],
                others: words.subrange(2, 10),
            },
            Arch::X86_64 => RegistersView {
                base: words[2],
                frame_pointer: words[3],
                function: words[0],
                arg: words[1],
                others: words.subrange(4, 6),
            },
        }
    }

    fn save_frame(arch: Arch, sp: usize, regs: &Registers, resume: usize) -> (r: (
        Context,
        Vec<usize>,
    )) {
        let mut words: Vec<usize> = Vec::new();
        match arch {
            Arch::Aarch64 => {
                words.push(regs.function);
                words.push(regs.arg);
                push_all(&mut words, &regs.others);
                words.push(regs.frame_pointer);
                words.push(resume);
                assert(words@ =~= Self::saved_frame(arch, regs@, resume));
                (Context(sp - 96), words)
            },
            Arch::X86_64 => {
                words.push(regs.function);
                words.push(regs.arg);
                words.push(regs.base);
                words.push(regs.frame_pointer);
                push_all(&mut words, &regs.others);
                words.push(resume);
                assert(words@ =~= Self::saved_frame(arch, regs@, resume));
                (Context(sp - 56), words)
            },
        }
    }

    fn land(arch: Arch, ctx: Context, words: &Vec<usize>) -> (r: (Registers, usize, usize)) {
        match arch {
            Arch::Aarch64 => {
                let regs = Registers {
                    base: 0,
                    frame_pointer: words[10],
                    function: words[0],
                    arg: words[1],
                    others: copy_range(words, 2, 10),
                };
                (regs, words[11], ctx.0 + 96)
            },
            Arch::X86_64 => {
                let regs = Registers {
                    base: words[2],
                    frame_pointer: words[3],
                    function: words[0],
                    arg: words[1],
                    others: copy_range(words, 4, 6),
                };
                (regs, words[6], ctx.0 + 56)
            },
        }
    }

    proof fn law_saved_context_restores(
        arch: Arch,
        sp: usize,
        regs: RegistersView,
        resume: usize,
    ) {
        let words = Self::saved_frame(arch, regs, resume);
        match arch {
            Arch::Aarch64 => {
                assert(words.subrange(2, 10) =~= regs.others);
            },
            Arch::X86_64 => {
                assert(words.subrange(4, 6) =~= regs.others);
            },
        }
    }

    proof fn law_new_stack_enters(arch: Arch, stack_top: usize, entry: Entry) {
    }
}

/// Frames with the registers that entering a stack needs.
pub struct LeanFrameContext {}

/// Lays out a [`LeanFrameContext`] frame.
pub fn make_context_lean(arch: Arch, stack_top: usize, entry: Entry) -> (r: (Context, Vec<usize>))
    requires
        stack_top >= 16 + 8 * LeanFrameContext::frame_words(arch),
    ensures
        r.0.0 == stack_top - stack_top % 16 - 8 * LeanFrameContext::frame_words(arch),
        r.1@ == LeanFrameContext::entry_frame(arch, entry),
{
    let aligned: usize = aligned_top(stack_top);
    match arch {
        Arch::Aarch64 => {
            let words: Vec<usize> = vec![entry.function, entry.arg, 0, entry.trampoline];
            assert(words@ =~= LeanFrameContext::entry_frame(arch, entry));
            (Context(aligned - 32), words)
        },
        Arch::X86_64 => {
            let words: Vec<usize> = vec![entry.function, entry.arg, 0, 0, entry.trampoline];
            assert(words@ =~= LeanFrameContext::entry_frame(arch, entry));
            (Context(aligned - 40), words)
        },
    }
}

impl ContextPolicy for LeanFrameContext {
    open spec fn frame_words(arch: Arch) -> nat {
        match arch {
            Arch::Aarch64 => 4,
            Arch::X86_64 => 5,
        }
    }

    proof fn frame_parity(arch: Arch) {
    }

    /// On AArch64 the frame holds x19, x20, x29 and x30; on x86-64 it holds
    /// r12, r13, rbx, rbp and the return address.
    open spec fn entry_frame(arch: Arch, entry: Entry) -> Seq<usize> {
        match arch {
            Arch::Aarch64 => seq![entry.function, entry.arg, 0, entry.trampoline],
            Arch::X86_64 => seq![entry.function, entry.arg, 0, 0, entry.trampoline],
        }
    }

    open spec fn landing(arch: Arch, ctx: int, words: Seq<usize>) -> Landing {
        match arch {
            Arch::Aarch64 => Landing {
                function: words[0],
                arg: words[1],
                frame_pointer: words[2],
                resume: words[3],
                stack_pointer: ctx + 32,
            },
            Arch::X86_64 => Landing {
                function: words[0],
                arg: words[1],
                frame_pointer: words[3],
                resume: words[4],
                stack_pointer: ctx + 40,
            },
        }
    }

    fn make_context(arch: Arch, stack_top: usize, entry: Entry) -> (r: (Context, Vec<usize>)) {
        make_context_lean(arch, stack_top, entry)
    }

    open spec fn saved_frame(arch: Arch, regs: RegistersView, resume: usize) -> Seq<usize> {
        match arch {
            Arch::Aarch64 => seq![regs.function, regs.arg, regs.frame_pointer, resume],
            Arch::X86_64 => seq![
                regs.function,
                regs.arg,
                regs.base,
                regs.frame_pointer,
                resume,
            ],
        }
    }

    /// What the entry protocol and unwinding need.
    open spec fn kept(arch: Arch, regs: RegistersView) -> RegistersView {
        match arch {
            Arch::Aarch64 => RegistersView { base: 0, others: Seq::empty(), ..regs },
            Arch::X86_64 => RegistersView { others: Seq::empty(), ..regs },
        }
    }

    open spec fn landed(arch: Arch, words: Seq<usize>) -> RegistersView {
        match arch {
            Arch::Aarch64 => RegistersView {
                base: 0,
                frame_pointer: words[2],
                function: words[0],
                arg: words[1],
                others: Seq::empty(),
            },
            Arch::X86_64 => RegistersView {
                base: words[2],
                frame_pointer: words[3],
                function: words[0],
                arg: words[1],
                others: Seq::empty(),
            },
        }
    }

    fn save_frame(arch: Arch, sp: usize, regs: &Registers, resume: usize) -> (r: (
        Context,
        Vec<usize>,
    )) {
        match arch {
            Arch::Aarch64 => {
                let words: Vec<usize> = vec![
                    regs.function,
                    regs.arg,
                    regs.frame_pointer,
                    resume,
                ];
                assert(words@ =~= Self::saved_frame(arch, regs@, resume));
                (Context(sp - 32), words)
            },
            Arch::X86_64 => {
                let words: Vec<usize> = vec![
                    regs.function,
                    regs.arg,
                    regs.base,
                    regs.frame_pointer,
                    resume,
                ];
                assert(words@ =~= Self::saved_frame(arch, regs@, resume));
                (Context(sp - 40), words)
            },
        }
    }

    fn land(arch: Arch, ctx: Context, words: &Vec<usize>) -> (r: (Registers, usize, usize)) {
        match arch {
            Arch::Aarch64 => {
                let regs = Registers {
                    base: 0,
                    frame_pointer: words[2],
                    function: words[0],
                    arg: words[1],
                    others: Vec::new(),
                };
                (regs, words[3], ctx.0 + 32)
            },
            Arch::X86_64 => {
                let regs = Registers {
                    base: words[2],
                    frame_pointer: words[3],
                    function: words[0],
                    arg: words[1],
                    others: Vec::new(),
                };
                (regs, words[4], ctx.0 + 40)
            },
        }
    }

    proof fn law_saved_context_restores(
        arch: Arch,
        sp: usize,
        regs: RegistersView,
        resume: usize,
    ) {
    }

    proof fn law_new_stack_enters(arch: Arch, stack_top: usize, entry: Entry) {
    }
}

/// Both layouts begin with the registers that hold the function and the argument
/// of a new stack, and end with where the stack is resumed; they differ in
/// between only.
pub proof fn law_both_layouts_begin_alike(
    arch: Arch,
    entry: Entry,
    regs: RegistersView,
    resume: usize,
)
    ensures
        NativeContext::entry_frame(arch, entry).take(2) == seq![entry.function, entry.arg],
        LeanFrameContext::entry_frame(arch, entry).take(2) == seq![entry.function, entry.arg],
        NativeContext::saved_frame(arch, regs, resume).take(2) == seq![regs.function, regs.arg],
        LeanFrameContext::saved_frame(arch, regs, resume).take(2) == seq![regs.function, regs.arg],
        NativeContext::entry_frame(arch, entry).last() == entry.trampoline,
        LeanFrameContext::entry_frame(arch, entry).last() == entry.trampoline,
        NativeContext::saved_frame(arch, regs, resume).last() == resume,
        LeanFrameContext::saved_frame(arch, regs, resume).last() == resume,
{
}

/// Frames hold the registers word for word: the function and its argument, then
/// on x86-64 the base register and the frame pointer and on AArch64 the frame
/// pointer last but one, then where the stack goes on; a native frame holds all
/// the others as well. A new stack's frame holds nothing but its entry.
pub proof fn law_frames_hold_the_registers(
    arch: Arch,
    entry: Entry,
    regs: RegistersView,
    resume: usize,
    i: int,
)
    requires
        regs.others.len() == crate::context::num_others(arch),
    ensures
        ({
            let full = NativeContext::saved_frame(arch, regs, resume);
            let lean = LeanFrameContext::saved_frame(arch, regs, resume);
            let new_full = NativeContext::entry_frame(arch, entry);
            let new_lean = LeanFrameContext::entry_frame(arch, entry);
            &&& NativeContext::frame_words(arch) == full.len()
            &&& NativeContext::frame_words(arch) == new_full.len()
            &&& LeanFrameContext::frame_words(arch) == lean.len()
            &&& LeanFrameContext::frame_words(arch) == new_lean.len()
            &&& arch is Aarch64 ==> {
                &&& full.len() == 12 && lean.len() == 4
                &&& full[0] == regs.function && full[1] == regs.arg
                &&& full[10] == regs.frame_pointer && full[11] == resume
                &&& 2 <= i < 10 ==> full[i] == regs.others[i - 2]
                &&& lean[0] == regs.function && lean[1] == regs.arg
                &&& lean[2] == regs.frame_pointer && lean[3] == resume
            }
            &&& arch is X86_64 ==> {
                &&& full.len() == 7 && lean.len() == 5
                &&& full[0] == regs.function && full[1] == regs.arg
                &&& full[2] == regs.base && full[3] == regs.frame_pointer
                &&& full[4] == regs.others[0] && full[5] == regs.others[1] && full[6] == resume
                &&& lean[0] == regs.function && lean[1] == regs.arg
                &&& lean[2] == regs.base && lean[3] == regs.frame_pointer && lean[4] == resume
            }
            &&& 2 <= i < new_full.len() - 1 ==> new_full[i] == 0
            &&& 2 <= i < new_lean.len() - 1 ==> new_lean[i] == 0
        }),
{
}

/// What a frame brings back: every register with native frames, and with lean ones
/// all but those that the entry protocol does not use.
pub proof fn law_native_frames_keep_every_register(arch: Arch, regs: RegistersView)
    ensures
        ({
            let full = NativeContext::kept(arch, regs);
            let lean = LeanFrameContext::kept(arch, regs);
            &&& full.others == regs.others
            &&& lean.others.len() == 0
            &&& full.function == regs.function && lean.function == regs.function
            &&& full.arg == regs.arg && lean.arg == regs.arg
            &&& full.frame_pointer == regs.frame_pointer && lean.frame_pointer
                == regs.frame_pointer
            &&& arch is X86_64 ==> full.base == regs.base && lean.base == regs.base
        }),
{
}

} // verus!
