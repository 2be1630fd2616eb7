//! Memory layouts: a size and an alignment.
use vstd::prelude::*;

use crate::resumable::common::stack::round_up;

verus! {

/// The size and the alignment of a block of memory.
#[derive(Clone, Copy, PartialEq, Eq, Structural, Debug)]
pub struct Layout {
    pub size: usize,
    pub align: usize,
}

impl Layout {
    /// The alignment is a power of two, and the size rounded up to it is one
    /// that an allocation can have.
    pub open spec fn wf(self) -> bool {
        &&& crate::resumable::common::stack::is_pow2(self.align)
        &&& self.size + self.align - 1 <= isize::MAX
    }

    /// Whether a block with this layout can hold one with layout `other`.
    pub open spec fn covers(self, other: Layout) -> bool {
        other.size <= self.size && other.align <= self.align
    }

    /// The larger of two alignments.
    pub open spec fn joint_align(self, next: Layout) -> usize {
        if self.align < next.align {
            next.align
        } else {
            self.align
        }
    }

    /// Where `next` lies in a block that holds this layout and then `next`.
    pub open spec fn offset_of_next(self, next: Layout) -> int {
        crate::resumable::common::stack::rounded_up(self.size as int, next.align as int)
    }

    /// Whether a block can hold this layout and then `next`.
    pub open spec fn can_extend(self, next: Layout) -> bool {
        self.offset_of_next(next) + next.size + self.joint_align(next) - 1 <= isize::MAX
    }

    /// The layout of this layout and then `next`, padding between them
    /// included, and the offset of `next` in it; `None` when no allocation
    /// can be as large.
    pub fn extend(&self, next: Layout) -> (r: Option<(Layout, usize)>)
        requires
            self.wf(),
            next.wf(),
        ensures
            r is Some == self.can_extend(next),
            r matches Some((block, offset)) ==> {
                &&& offset == self.offset_of_next(next)
                &&& block.size == offset + next.size
                &&& block.align == self.joint_align(next)
                &&& block.wf()
            },
    {
        let align: usize = if self.align < next.align {
            next.align
        } else {
            self.align
        };
        proof {
            crate::resumable::common::stack::lemma_mask_rounds_down(0, next.align);
            crate::resumable::common::stack::lemma_mask_rounds_down(0, self.align);
            vstd::arithmetic::div_mod::lemma_mod_bound(
                self.size + next.align - 1,
                next.align as int,
            );
        }
        let offset: usize = round_up(self.size, next.align);
        let limit: usize = isize::MAX as usize;
        if next.size > limit - (align - 1) {
            return None;
        }
        if offset > limit - (align - 1) - next.size {
            return None;
        }
        Some((Layout { size: offset + next.size, align }, offset))
    }

    /// The layout with its size rounded up to its alignment.
    pub fn pad_to_align(&self) -> (r: Layout)
        requires
            self.wf(),
        ensures
            r.size == crate::resumable::common::stack::rounded_up(
                self.size as int,
                self.align as int,
            ),
            r.align == self.align,
            self.size <= r.size <= isize::MAX,
            r.size % r.align == 0,
    {
        Layout { size: round_up(self.size, self.align), align: self.align }
    }
}

/// A multiple of the larger of two powers of two is a multiple of the smaller.
pub proof fn lemma_pow2_multiple(v: int, small: usize, large: usize)
    requires
        crate::resumable::common::stack::is_pow2(small),
        crate::resumable::common::stack::is_pow2(large),
        small <= large,
        v % large as int == 0,
    ensures
        v % small as int == 0,
{
    let i = choose|k: nat| crate::resumable::common::stack::is_pow2_of(small, k);
    let j = choose|k: nat| crate::resumable::common::stack::is_pow2_of(large, k);
    vstd::bits::lemma_usize_pow2_no_overflow(i);
    vstd::bits::lemma_usize_pow2_no_overflow(j);
    if j < i {
        vstd::arithmetic::power2::lemma_pow2_strictly_increases(j, i);
    }
    let d = (j - i) as nat;
    vstd::arithmetic::power2::lemma_pow2_adds(d, i);
    vstd::arithmetic::div_mod::lemma_fundamental_div_mod(v, large as int);
    let q = v / large as int;
    let p = vstd::arithmetic::power2::pow2(d) as int;
    assert(v == (q * p) * small as int) by (nonlinear_arith)
        requires
            v == large as int * q,
            large as int == p * small as int,
    ;
    vstd::arithmetic::div_mod::lemma_mod_multiples_basic(q * p, small as int);
}

/// Where a block comes after another: at the first aligned place behind it, and
/// the two fit together exactly when the whole, rounded up to the larger of the
/// two alignments, is one that an allocation can have.
pub proof fn law_next_block_follows_at_once(a: Layout, b: Layout)
    requires
        a.wf(),
        b.wf(),
    ensures
        a.offset_of_next(b) >= a.size,
        a.offset_of_next(b) < a.size + b.align,
        a.offset_of_next(b) % b.align as int == 0,
        a.joint_align(b) >= a.align,
        a.joint_align(b) >= b.align,
        a.joint_align(b) == a.align || a.joint_align(b) == b.align,
        a.can_extend(b) <==> a.offset_of_next(b) + b.size <= isize::MAX - (a.joint_align(b) - 1),
{
    crate::resumable::common::stack::lemma_mask_rounds_down(0, b.align);
    crate::resumable::common::stack::law_rounding_up_is_least(a.size as int, b.align as int, 0);
}

/// A block serves a request exactly when it is as large and as strictly aligned.
pub proof fn law_block_covers_what_is_no_larger(a: Layout, b: Layout)
    ensures
        a.covers(b) <==> b.size <= a.size && b.align <= a.align,
        a.covers(a),
        a.covers(b) && b.covers(a) ==> a == b,
{
}

} // verus!
