//! Contexts: where a suspended stack goes on, and what a switch hands over.
//!
//! A context is the address of a frame on the suspended stack. The switch
//! itself is a few machine instructions and belongs to the program around this
//! library; what a frame holds and what a switch decides is said here.
use vstd::prelude::*;

pub use crate::resumable::stackful::context::NativeContext;

verus! {

/// A suspended stack, by the address of its frame. Null means none.
#[derive(Clone, Copy, PartialEq, Eq, Structural, Debug)]
pub struct Context(pub usize);

impl Context {
    /// No context.
    pub fn null() -> (r: Context)
        ensures
            r.0 == 0,
    {
        Context(0)
    }

    /// Whether there is no context.
    pub fn is_null(self) -> (r: bool)
        ensures
            r == (self.0 == 0),
    {
        self.0 == 0
    }
}

/// The value that a switch hands to the side that goes on.
#[derive(Clone, Copy, PartialEq, Eq, Structural, Debug)]
pub struct Transfer(pub usize);

/// The outcome of a switch that may still be called off.
#[derive(Clone, Copy, PartialEq, Eq, Structural, Debug)]
pub struct CondTransfer {
    /// The value handed over.
    pub value: usize,
    /// Not zero when the switch is to be made.
    pub flag: isize,
}

impl CondTransfer {
    /// The outcome that hands `value` over: one when the switch is to be made,
    /// zero when it is called off.
    pub open spec fn of(value: usize, commits: bool) -> Self {
        CondTransfer {
            value,
            flag: if commits {
                1
            } else {
                0
            },
        }
    }

    /// Whether the switch is to be made.
    pub open spec fn spec_commits(self) -> bool {
        self.flag != 0
    }

    /// Whether the switch is to be made.
    pub fn commits(&self) -> (r: bool)
        ensures
            r == self.spec_commits(),
    {
        self.flag != 0
    }
}

/// The processors that frames are laid out for.
#[derive(Clone, Copy, PartialEq, Eq, Structural, Debug)]
pub enum Arch {
    Aarch64,
    X86_64,
}

/// What a new stack is entered with: the function, its argument, and the code
/// that calls the one with the other.
#[derive(Clone, Copy, PartialEq, Eq, Structural, Debug)]
pub struct Entry {
    pub function: usize,
    pub arg: usize,
    pub trampoline: usize,
}

/// The registers that a frame gives back when its stack is switched to, as far
/// as the entry protocol uses them.
pub struct Landing {
    /// The register that carries the function to call.
    pub function: usize,
    /// The register that carries its argument.
    pub arg: usize,
    /// The frame pointer.
    pub frame_pointer: usize,
    /// Where execution goes on.
    pub resume: usize,
    /// The stack pointer.
    pub stack_pointer: int,
}

/// The registers that a call preserves.
pub struct Registers {
    /// rbx, where there is one.
    pub base: usize,
    /// x29 or rbp.
    pub frame_pointer: usize,
    /// x19 or r12, which carries the function into a new stack.
    pub function: usize,
    /// x20 or r13, which carries its argument.
    pub arg: usize,
    /// x21 to x28, or r14 and r15.
    pub others: Vec<usize>,
}

/// The contents of [`Registers`].
pub struct RegistersView {
    pub base: usize,
    pub frame_pointer: usize,
    pub function: usize,
    pub arg: usize,
    pub others: Seq<usize>,
}

impl View for Registers {
    type V = RegistersView;

    open spec fn view(&self) -> RegistersView {
        RegistersView {
            base: self.base,
            frame_pointer: self.frame_pointer,
            function: self.function,
            arg: self.arg,
            others: self.others@,
        }
    }
}

/// How many of the preserved registers the entry protocol does not use.
pub open spec fn num_others(arch: Arch) -> nat {
    match arch {
        Arch::Aarch64 => 8,
        Arch::X86_64 => 2,
    }
}

/// A switch about to be made. The frame of the side that is left is written at
/// `prev`; then `stores` are made, and the callback starts with the stack
/// pointer `sp`.
pub struct Switch {
    pub prev: Context,
    pub frame: Vec<usize>,
    pub sp: usize,
    pub stores: Vec<(usize, usize)>,
}

/// The size of a word.
pub const WORD: usize = 8;

/// A frame layout.
pub trait ContextPolicy: Sized {
    /// How many words a frame has.
    spec fn frame_words(arch: Arch) -> nat;

    /// The words of the frame of a new stack, lowest address first.
    spec fn entry_frame(arch: Arch, entry: Entry) -> Seq<usize>;

    /// What switching to the frame `words` at `ctx` gives.
    spec fn landing(arch: Arch, ctx: int, words: Seq<usize>) -> Landing;

    /// Where a call puts its return address on the stack, frames have an odd
    /// number of words, as if the switch had been called.
    proof fn frame_parity(arch: Arch)
        ensures
            Self::frame_words(arch) % 2 == (match arch {
                Arch::Aarch64 => 0nat,
                Arch::X86_64 => 1nat,
            }),
    ;

    /// Lays out the frame of a new stack whose top is `stack_top`. The result
    /// is where the frame lies and what is to be written there.
    fn make_context(arch: Arch, stack_top: usize, entry: Entry) -> (r: (Context, Vec<usize>))
        requires
            stack_top >= 16 + WORD * Self::frame_words(arch),
        ensures
            r.0.0 == stack_top - stack_top % 16 - WORD * Self::frame_words(arch),
            r.1@ == Self::entry_frame(arch, entry),
            r.1@.len() == Self::frame_words(arch),
    ;

    /// The words of the frame of a stack that is left with these registers and
    /// goes on at `resume`, lowest address first.
    spec fn saved_frame(arch: Arch, regs: RegistersView, resume: usize) -> Seq<usize>;

    /// What of the registers a frame brings back; the code around the switch
    /// looks after the rest.
    spec fn kept(arch: Arch, regs: RegistersView) -> RegistersView;

    /// The registers that a frame brings back.
    spec fn landed(arch: Arch, words: Seq<usize>) -> RegistersView;

    /// Lays out the frame of a stack that is left with the stack pointer `sp`.
    fn save_frame(arch: Arch, sp: usize, regs: &Registers, resume: usize) -> (r: (
        Context,
        Vec<usize>,
    ))
        requires
            sp >= WORD * Self::frame_words(arch),
            regs@.others.len() == num_others(arch),
        ensures
            r.0.0 == sp - WORD * Self::frame_words(arch),
            r.1@ == Self::saved_frame(arch, regs@, resume),
            r.1@.len() == Self::frame_words(arch),
    ;

    /// Goes on with the frame `words` at `ctx`: the registers, where execution
    /// goes on, and the stack pointer.
    fn land(arch: Arch, ctx: Context, words: &Vec<usize>) -> (r: (Registers, usize, usize))
        requires
            words@.len() == Self::frame_words(arch),
            ctx.0 + WORD * Self::frame_words(arch) <= usize::MAX,
        ensures
            r.0@ == Self::landed(arch, words@),
            r.1 == Self::landing(arch, ctx.0 as int, words@).resume,
            r.2 == Self::landing(arch, ctx.0 as int, words@).stack_pointer,
    ;

    /// A stack that was left goes on where it was left: with the registers that
    /// the frame keeps, at its resume address, with its stack pointer.
    proof fn law_saved_context_restores(
        arch: Arch,
        sp: usize,
        regs: RegistersView,
        resume: usize,
    )
        requires
            sp >= WORD * Self::frame_words(arch),
            regs.others.len() == num_others(arch),
        ensures
            ({
                let words = Self::saved_frame(arch, regs, resume);
                let l = Self::landing(arch, sp - WORD * Self::frame_words(arch), words);
                &&& Self::landed(arch, words) == Self::kept(arch, regs)
                &&& l.resume == resume
                &&& l.stack_pointer == sp
                &&& l.function == regs.function
                &&& l.arg == regs.arg
                &&& l.frame_pointer == regs.frame_pointer
            }),
    ;

    /// Switching to a new stack enters it through the trampoline, with the
    /// function and its argument in their registers, a null frame pointer that
    /// ends backtraces, and the whole stack below an aligned top free.
    proof fn law_new_stack_enters(arch: Arch, stack_top: usize, entry: Entry)
        requires
            stack_top >= 16 + WORD * Self::frame_words(arch),
        ensures
            ({
                let ctx = stack_top - stack_top % 16 - WORD * Self::frame_words(arch);
                let l = Self::landing(arch, ctx, Self::entry_frame(arch, entry));
                &&& l.function == entry.function
                &&& l.arg == entry.arg
                &&& l.resume == entry.trampoline
                &&& l.frame_pointer == 0
                &&& l.stack_pointer == stack_top - stack_top % 16
                &&& l.stack_pointer % 16 == 0
            }),
    ;
}

/// Leaves the running stack in favour of the one at `to`: the callback runs
/// right below the frame of `to`, which stays intact until it is landed on.
pub fn swap_context<C: ContextPolicy>(
    arch: Arch,
    sp: usize,
    regs: &Registers,
    resume: usize,
    to: Context,
) -> (r: Switch)
    requires
        sp >= WORD * C::frame_words(arch),
        regs@.others.len() == num_others(arch),
    ensures
        r.prev.0 == sp - WORD * C::frame_words(arch),
        r.frame@ == C::saved_frame(arch, regs@, resume),
        r.sp == to.0,
        r.stores@.len() == 0,
{
    let (prev, frame) = C::save_frame(arch, sp, regs, resume);
    Switch { prev, frame, sp: to.0, stores: Vec::new() }
}

/// Where the callback of [`save_context`] starts on a stack with the aligned
/// top `top`.
pub open spec fn new_stack_sp(arch: Arch, top: int) -> int {
    match arch {
        Arch::Aarch64 => top,
        Arch::X86_64 => top - 24,
    }
}

/// Whether `r` leaves the stack that had the stack pointer `sp` and these
/// registers for a new one with the top `new_sp`, and a callback there returns
/// to `after`.
pub open spec fn leaves_for_new_stack<C: ContextPolicy>(
    r: Switch,
    arch: Arch,
    sp: usize,
    regs: RegistersView,
    resume: usize,
    new_sp: usize,
    after: usize,
) -> bool {
    &&& r.prev.0 == sp - WORD * C::frame_words(arch)
    &&& r.frame@ == C::saved_frame(arch, regs, resume)
    &&& r.sp == new_stack_sp(arch, new_sp - new_sp % 16)
    &&& match arch {
        Arch::Aarch64 => r.sp % 16 == 0 && r.stores@.len() == 0,
        Arch::X86_64 => {
            &&& r.sp % 16 == 8
            &&& r.stores@ == seq![((r.sp + 16) as usize, r.prev.0), (r.sp, after)]
        },
    }
}

/// Leaves the running stack in favour of a new one. Where the return address
/// lies on the stack, the new one starts with the context that was left and
/// the code at `after` to return to, so that a callback that returns leads
/// back to the stack that was left.
pub fn save_context<C: ContextPolicy>(
    arch: Arch,
    sp: usize,
    regs: &Registers,
    resume: usize,
    new_sp: usize,
    after: usize,
) -> (r: Switch)
    requires
        sp >= WORD * C::frame_words(arch),
        regs@.others.len() == num_others(arch),
        new_sp >= 48,
    ensures
        leaves_for_new_stack::<C>(r, arch, sp, regs@, resume, new_sp, after),
{
    let (prev, frame) = C::save_frame(arch, sp, regs, resume);
    assert(new_sp & !0xF == new_sp - new_sp % 16) by (bit_vector);
    let top: usize = new_sp & !0xF;
    match arch {
        Arch::Aarch64 => Switch { prev, frame, sp: top, stores: Vec::new() },
        Arch::X86_64 => {
            let stores: Vec<(usize, usize)> = vec![(top - 8, prev.0), (top - 24, after)];
            let r = Switch { prev, frame, sp: top - 24, stores };
            assert(r.stores@ =~= seq![((r.sp + 16) as usize, r.prev.0), (r.sp, after)]);
            r
        },
    }
}

/// What is at an address after some stores.
pub open spec fn stored_at(stores: Seq<(usize, usize)>, addr: int) -> Option<usize>
    decreases stores.len(),
{
    if stores.len() == 0 {
        None
    } else if stores.last().0 == addr {
        Some(stores.last().1)
    } else {
        stored_at(stores.drop_last(), addr)
    }
}

/// The context that goes on when the callback of a switch to a new stack
/// returns. A preserved register holds it on AArch64. On x86-64 the return
/// takes one word off the stack, and the context is one word above the next.
pub open spec fn context_after_return(arch: Arch, r: Switch) -> Option<usize> {
    match arch {
        Arch::Aarch64 => Some(r.prev.0),
        Arch::X86_64 => stored_at(r.stores@, r.sp + WORD + WORD),
    }
}

/// A callback on a new stack that returns leads back to the stack that was
/// left, which goes on with the registers that its frame keeps, at its resume
/// address, with its stack pointer.
pub proof fn law_returning_callback_goes_back<C: ContextPolicy>(
    r: Switch,
    arch: Arch,
    sp: usize,
    regs: RegistersView,
    resume: usize,
    new_sp: usize,
    after: usize,
)
    requires
        sp >= WORD * C::frame_words(arch),
        regs.others.len() == num_others(arch),
        new_sp >= 48,
        leaves_for_new_stack::<C>(r, arch, sp, regs, resume, new_sp, after),
    ensures
        arch is X86_64 ==> stored_at(r.stores@, r.sp as int) == Some(after),
        context_after_return(arch, r) == Some(r.prev.0),
        C::landed(arch, r.frame@) == C::kept(arch, regs),
        C::landing(arch, r.prev.0 as int, r.frame@).resume == resume,
        C::landing(arch, r.prev.0 as int, r.frame@).stack_pointer == sp,
{
    C::law_saved_context_restores(arch, sp, regs, resume);
    reveal_with_fuel(stored_at, 3);
    if arch is X86_64 {
        assert(r.stores@.drop_last() =~= seq![((r.sp + 16) as usize, r.prev.0)]);
    }
}

/// Where a callback that may return starts below a frame at `to`.
pub open spec fn below_frame_sp(arch: Arch, to: int) -> int {
    match arch {
        Arch::Aarch64 => to,
        Arch::X86_64 => to - 8,
    }
}

/// Leaves the running stack in favour of the one at `to`, unless the callback,
/// which runs below the frame of `to`, returns: then the running stack goes on
/// as it was left.
pub fn cond_swap_context<C: ContextPolicy>(
    arch: Arch,
    sp: usize,
    regs: &Registers,
    resume: usize,
    to: Context,
) -> (r: Switch)
    requires
        sp >= WORD * C::frame_words(arch),
        regs@.others.len() == num_others(arch),
        to.0 >= 8,
    ensures
        r.prev.0 == sp - WORD * C::frame_words(arch),
        r.frame@ == C::saved_frame(arch, regs@, resume),
        r.sp == below_frame_sp(arch, to.0 as int),
        r.stores@.len() == 0,
{
    let (prev, frame) = C::save_frame(arch, sp, regs, resume);
    let start: usize = match arch {
        Arch::Aarch64 => to.0,
        Arch::X86_64 => to.0 - 8,
    };
    Switch { prev, frame, sp: start, stores: Vec::new() }
}

/// Leaves the running stack for good in favour of the one at `to`: nothing is
/// saved, and the callback runs right below the frame of `to`.
pub fn restore_context(to: Context) -> (sp: usize)
    ensures
        sp == to.0,
{
    to.0
}

/// Callbacks start with the stack aligned as a call leaves it: every context is
/// a frame below an aligned stack pointer.
pub proof fn law_callbacks_start_aligned<C: ContextPolicy>(arch: Arch, sp: int, to: int)
    requires
        sp % 16 == 0,
        to == sp - WORD * C::frame_words(arch),
    ensures
        match arch {
            Arch::Aarch64 => to % 16 == 0 && below_frame_sp(arch, to) % 16 == 0,
            Arch::X86_64 => to % 16 == 8 && below_frame_sp(arch, to) % 16 == 0,
        },
{
    C::frame_parity(arch);
}

/// What a switch that may be called off answers is read back: the value, and
/// whether the switch is made.
pub proof fn law_outcome_is_read_back(value: usize, commits: bool, c: CondTransfer)
    ensures
        CondTransfer::of(value, commits).value == value,
        CondTransfer::of(value, commits).spec_commits() == commits,
        CondTransfer::of(value, commits).flag == (if commits {
            1int
        } else {
            0int
        }),
        c.spec_commits() <==> c.flag != 0,
{
}

/// A new stack is used from its top: a callback starts at the aligned top itself,
/// or, where a return address has to lie there, three words below it; and a
/// callback below a frame starts at the first aligned place.
pub proof fn law_stacks_are_used_from_the_top<C: ContextPolicy>(
    r: Switch,
    arch: Arch,
    sp: usize,
    regs: RegistersView,
    resume: usize,
    new_sp: usize,
    after: usize,
    to: int,
)
    requires
        sp >= WORD * C::frame_words(arch),
        new_sp >= 48,
        leaves_for_new_stack::<C>(r, arch, sp, regs, resume, new_sp, after),
    ensures
        arch is Aarch64 ==> r.sp + new_sp % 16 == new_sp && r.stores@.len() == 0,
        arch is X86_64 ==> {
            &&& r.sp + 24 + new_sp % 16 == new_sp
            &&& r.stores@.len() == 2
            &&& r.stores@[0] == ((r.sp + 16) as usize, r.prev.0)
            &&& r.stores@[1] == (r.sp, after)
        },
        r.prev.0 + 8 * C::frame_words(arch) == sp,
        r.frame@ == C::saved_frame(arch, regs, resume),
        arch is Aarch64 ==> below_frame_sp(arch, to) == to,
        arch is X86_64 ==> below_frame_sp(arch, to) == to - 8,
{
}

} // verus!
