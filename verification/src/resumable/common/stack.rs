//! Task stacks: the arithmetic of guard-paged stack regions.
//!
//! Every stack is one mapped region, a guard page followed by the usable
//! part. Stacks grow down into the guard page, so an overflow faults. The
//! mapping is made by a callback of the caller; this module says what to map
//! and where the stack lies in it.
use vstd::prelude::*;

verus! {

/// The least usable stack.
pub const MIN_STACK: usize = 16;

/// Whether `n` is the `k`th power of two.
pub open spec fn is_pow2_of(n: usize, k: nat) -> bool {
    k < usize::BITS && n == vstd::arithmetic::power2::pow2(k)
}

/// Whether a number is one of the powers of two that a word can hold.
pub open spec fn is_pow2(n: usize) -> bool {
    exists|k: nat| is_pow2_of(n, k)
}

/// Clearing the bits below a power of two rounds down to a multiple of it.
pub proof fn lemma_mask_rounds_down(v: usize, to: usize)
    requires
        is_pow2(to),
    ensures
        to > 0,
        v & !((to - 1) as usize) == v - v % to,
        v & ((to - 1) as usize) == v % to,
        (v - v % to) % to as int == 0,
{
    let k = choose|k: nat| is_pow2_of(to, k);
    vstd::bits::lemma_usize_pow2_no_overflow(k);
    vstd::bits::lemma_usize_low_bits_mask_is_mod(v, k);
    let m = (to - 1) as usize;
    assert(vstd::bits::low_bits_mask(k) as usize == m);
    assert(v & !m == v - (v & m)) by (bit_vector);
    vstd::arithmetic::div_mod::lemma_fundamental_div_mod(v as int, to as int);
    vstd::arithmetic::div_mod::lemma_mod_multiples_basic(v as int / to as int, to as int);
    assert(v - v % to == (v as int / to as int) * to as int) by (nonlinear_arith)
        requires
            v as int == to as int * (v as int / to as int) + v % to,
    ;
}

/// The least multiple of `to` that is not below `v`.
pub open spec fn rounded_up(v: int, to: int) -> int {
    (v + to - 1) - (v + to - 1) % to
}

/// Rounds `v` up to a multiple of the power of two `to`.
pub fn round_up(v: usize, to: usize) -> (r: usize)
    requires
        is_pow2(to),
        v + to - 1 <= usize::MAX,
    ensures
        r == rounded_up(v as int, to as int),
        r % to == 0,
        v <= r < v + to,
{
    proof {
        lemma_mask_rounds_down((v + to - 1) as usize, to);
        vstd::arithmetic::div_mod::lemma_mod_bound(v + to - 1, to as int);
    }
    (v + (to - 1)) & !(to - 1)
}

/// The page size, asked for once and remembered. A cache of zero is unset.
pub fn page_size<Q: FnOnce() -> usize>(cache: &mut usize, query: Q) -> (p: usize)
    requires
        *old(cache) == 0 ==> call_requires(query, ()),
    ensures
        *old(cache) != 0 ==> p == *old(cache),
        *old(cache) == 0 ==> call_ensures(query, (), p),
        *final(cache) == p,
{
    if *cache != 0 {
        return *cache;
    }
    let p: usize = query();
    *cache = p;
    p
}

/// An allocated task stack.
pub trait UltStackMemory {
    /// The first address above the usable region.
    spec fn top(&self) -> int;

    /// The region lies inside the address space.
    spec fn fits(&self) -> bool;

    /// The first address above the usable region.
    fn stack_top(&self) -> (r: usize)
        requires
            self.fits(),
        ensures
            r == self.top(),
    ;
}

/// The usable region of a guard-paged stack: `size` bytes from `ptr`. The
/// guard page lies immediately below.
#[derive(Clone, Copy, PartialEq, Eq, Structural, Debug)]
pub struct HeapStackMem {
    pub ptr: usize,
    pub size: usize,
}

impl UltStackMemory for HeapStackMem {
    open spec fn top(&self) -> int {
        self.ptr + self.size
    }

    open spec fn fits(&self) -> bool {
        self.ptr + self.size <= usize::MAX
    }

    fn stack_top(&self) -> (r: usize) {
        self.ptr + self.size
    }
}

/// The stack of a descriptor. The pseudo-descriptor of a worker's own loop
/// has none.
#[derive(Clone, Copy, PartialEq, Eq, Structural, Debug)]
pub enum StackMem {
    NoStack,
    Heap { ptr: usize, size: usize },
}

impl StackMem {
    /// The region lies inside the address space.
    pub open spec fn fits(self) -> bool {
        match self {
            StackMem::NoStack => true,
            StackMem::Heap { ptr, size } => ptr + size <= usize::MAX,
        }
    }

    /// The first address above the stack; null where there is none.
    pub open spec fn spec_top(self) -> int {
        match self {
            StackMem::NoStack => 0,
            StackMem::Heap { ptr, size } => ptr + size,
        }
    }

    /// The first address above the stack; null where there is none.
    pub fn top(&self) -> (r: usize)
        requires
            self.fits(),
        ensures
            r == self.spec_top(),
    {
        match *self {
            StackMem::NoStack => 0,
            StackMem::Heap { ptr, size } => ptr + size,
        }
    }

    /// The mapped region to release when the descriptor goes, as base and
    /// length; `None` where there is no stack.
    pub fn release(&self, page: usize) -> (r: Option<(usize, usize)>)
        requires
            *self matches StackMem::Heap { ptr, size } ==> page <= ptr && page + size <= usize::MAX,
        ensures
            r == (match *self {
                StackMem::NoStack => None,
                StackMem::Heap { ptr, size } => Some(mapped_region(ptr, size, page)),
            }),
    {
        match *self {
            StackMem::NoStack => None,
            StackMem::Heap { ptr, size } => Some(dealloc_heap_stack(ptr, size, page)),
        }
    }
}

impl From<HeapStackMem> for StackMem {
    fn from(m: HeapStackMem) -> (r: Self) {
        StackMem::Heap { ptr: m.ptr, size: m.size }
    }
}

impl vstd::std_specs::convert::FromSpecImpl<HeapStackMem> for StackMem {
    open spec fn obeys_from_spec() -> bool {
        true
    }

    open spec fn from_spec(m: HeapStackMem) -> Self {
        StackMem::Heap { ptr: m.ptr, size: m.size }
    }
}

/// The mapped region around a usable region, as base and length.
pub open spec fn mapped_region(ptr: usize, size: usize, page: usize) -> (usize, usize) {
    ((ptr - page) as usize, (page + size) as usize)
}

/// The mapped region that the stack at `ptr` lies in, as base and length.
pub fn dealloc_heap_stack(ptr: usize, size: usize, page: usize) -> (r: (usize, usize))
    requires
        page <= ptr,
        page + size <= usize::MAX,
    ensures
        r == mapped_region(ptr, size, page),
        r.0 + page == ptr,
        r.0 + r.1 == ptr + size,
{
    (ptr - page, page + size)
}

/// A stack allocation policy.
pub trait StackAlloc: Sized {
    /// The kind of stack that the policy makes.
    type Mem: UltStackMemory;

    /// What the policy makes of a request for `size` bytes with pages of
    /// `page` bytes, when the mapping it asked for was made at `base`.
    spec fn made(size: usize, page: usize, base: usize) -> Self::Mem;

    /// The length of the mapping that the policy asks for.
    spec fn mapping_len(size: usize, page: usize) -> int;

    /// Allocates a stack of at least `size` bytes. `map` makes a mapping of
    /// the length it is given whose first page, of the size it is given, is
    /// inaccessible, and returns its base.
    fn alloc_stack<M: FnOnce(usize, usize) -> usize>(size: usize, page: usize, map: M) -> (r:
        Self::Mem)
        requires
            is_pow2(page),
            Self::mapping_len(size, page) <= usize::MAX,
            call_requires(map, (Self::mapping_len(size, page) as usize, page)),
            forall|base: usize| #[trigger]
                call_ensures(map, (Self::mapping_len(size, page) as usize, page), base) ==> base
                    + Self::mapping_len(size, page) <= usize::MAX,
        ensures
            exists|base: usize| #[trigger]
                call_ensures(map, (Self::mapping_len(size, page) as usize, page), base) && r
                    == Self::made(size, page, base),
            r.fits(),
    ;
}

/// One guard-paged mapping for each stack.
pub struct HeapStack {}

impl HeapStack {
    /// The usable size that a request for `size` bytes gets.
    pub open spec fn usable(size: usize, page: usize) -> int {
        rounded_up(
            if size < MIN_STACK {
                MIN_STACK as int
            } else {
                size as int
            },
            page as int,
        )
    }
}

impl StackAlloc for HeapStack {
    type Mem = HeapStackMem;

    open spec fn made(size: usize, page: usize, base: usize) -> HeapStackMem {
        HeapStackMem { ptr: (base + page) as usize, size: HeapStack::usable(size, page) as usize }
    }

    open spec fn mapping_len(size: usize, page: usize) -> int {
        page + HeapStack::usable(size, page)
    }

    fn alloc_stack<M: FnOnce(usize, usize) -> usize>(size: usize, page: usize, map: M) -> (r:
        HeapStackMem) {
        let want: usize = if size < MIN_STACK {
            MIN_STACK
        } else {
            size
        };
        proof {
            lemma_mask_rounds_down(0, page);
            vstd::arithmetic::div_mod::lemma_mod_bound(want + page - 1, page as int);
        }
        let usable: usize = round_up(want, page);
        let base: usize = map(page + usable, page);
        HeapStackMem { ptr: base + page, size: usable }
    }
}

/// A stack is at least as large as asked for, never below the minimum, a
/// whole number of pages, and wastes less than a page over what was asked
/// for; and what is released later is exactly what was mapped, guard page
/// included.
pub proof fn law_stack_region(size: usize, page: usize, base: usize)
    requires
        is_pow2(page),
        base + HeapStack::mapping_len(size, page) <= usize::MAX,
    ensures
        ({
            let m = HeapStack::made(size, page, base);
            &&& size <= m.size
            &&& MIN_STACK <= m.size
            &&& m.size % page == 0
            &&& m.size < size + page || m.size < MIN_STACK + page
            &&& m.size >= 16
            &&& m.size < size + page || m.size < 16 + page
            &&& m.ptr == base + page
            &&& m.ptr + m.size == base + HeapStack::mapping_len(size, page)
            &&& mapped_region(m.ptr, m.size, page) == (
                base,
                HeapStack::mapping_len(size, page) as usize,
            )
        }),
{
    let want: usize = if size < MIN_STACK {
        MIN_STACK
    } else {
        size
    };
    lemma_mask_rounds_down(0, page);
    vstd::arithmetic::div_mod::lemma_mod_bound(want + page - 1, page as int);
    lemma_mask_rounds_down((want + page - 1) as usize, page);
}

/// A stack begins at its top, one past the last byte of its region, whichever way
/// the region is named; where there is no stack there is nothing to release.
pub proof fn law_stack_begins_at_its_end(ptr: usize, size: usize, page: usize)
    requires
        page <= ptr,
        page + size <= usize::MAX,
    ensures
        (HeapStackMem { ptr, size }).top() == ptr + size,
        (StackMem::Heap { ptr, size }).spec_top() == ptr + size,
        StackMem::NoStack.spec_top() == 0,
        (HeapStackMem { ptr, size }).fits() <==> ptr + size <= usize::MAX,
        (StackMem::Heap { ptr, size }).fits() <==> ptr + size <= usize::MAX,
        mapped_region(ptr, size, page).0 + page == ptr,
        mapped_region(ptr, size, page).0 + mapped_region(ptr, size, page).1 == ptr + size,
{
}

/// Rounding up stops at the first multiple: none lies between.
pub proof fn law_rounding_up_is_least(v: int, to: int, k: int)
    requires
        to > 0,
    ensures
        v <= rounded_up(v, to) < v + to,
        rounded_up(v, to) % to == 0,
        v <= k * to ==> rounded_up(v, to) <= k * to,
{
    let s = v + to - 1;
    vstd::arithmetic::div_mod::lemma_mod_bound(s, to);
    vstd::arithmetic::div_mod::lemma_fundamental_div_mod(s, to);
    let q = s / to;
    assert(rounded_up(v, to) == q * to) by (nonlinear_arith)
        requires
            s == to * q + s % to,
            rounded_up(v, to) == s - s % to,
    ;
    vstd::arithmetic::div_mod::lemma_mod_multiples_basic(q, to);
    if v <= k * to {
        assert(q <= k) by (nonlinear_arith)
            requires
                to > 0,
                q * to < v + to,
                v <= k * to,
        ;
        assert(q * to <= k * to) by (nonlinear_arith)
            requires
                to > 0,
                q <= k,
        ;
    }
}

} // verus!
