//! Flattening of linear values to addresses, and the one-place hand-off slots
//! built on it.
//!
//! An address is a plain `usize`; zero is null. A slot is one word, and each
//! of its operations is one atomic access to that word.
use core::marker::PhantomData;
use vstd::prelude::*;

verus! {

/// A linear value that can be flattened to an address and rebuilt from it.
pub trait PointerInterchangeable: Sized {
    /// The address that stands for the value.
    spec fn ptr(&self) -> usize;

    /// Gives the value up and keeps its address.
    fn into_ptr(self) -> (p: usize)
        ensures
            p == self.ptr(),
    ;

    /// Rebuilds a value from the address that stands for it.
    fn from_ptr(ptr: usize) -> (r: Self)
        ensures
            r.ptr() == ptr,
    ;
}

/// A flattened value on its way across a context switch.
pub struct Transferred<T: PointerInterchangeable> {
    raw: usize,
    kind: PhantomData<T>,
}

impl<T: PointerInterchangeable> Transferred<T> {
    /// The address on its way.
    pub closed spec fn ptr(&self) -> usize {
        self.raw
    }

    /// Flattens an owned value.
    pub fn new(t: T) -> (r: Self)
        ensures
            r.ptr() == t.ptr(),
    {
        Transferred { raw: t.into_ptr(), kind: PhantomData }
    }

    /// Wraps an address that no value stands for yet.
    pub fn from_raw(ptr: usize) -> (r: Self)
        ensures
            r.ptr() == ptr,
    {
        Transferred { raw: ptr, kind: PhantomData }
    }

    /// Rebuilds the value on the other side, possibly as another type that
    /// stands for the same address.
    pub fn into_inner<U: PointerInterchangeable>(self) -> (r: U)
        ensures
            r.ptr() == self.ptr(),
    {
        U::from_ptr(self.raw)
    }
}

/// The mask of the `bits` low bits of a word.
pub open spec fn tag_mask(bits: usize) -> usize {
    ((1usize << bits) - 1) as usize
}

/// Whether the `bits` low bits of an address are free to carry a tag.
pub open spec fn leaves_tag_bits(ptr: usize, bits: usize) -> bool {
    ptr & tag_mask(bits) == 0
}

/// A slot that holds at most one address, with `TAG_BITS` low bits of the
/// word for a tag of the publisher's choice. A zero word means empty.
pub struct AtomicTaggedSlot<const TAG_BITS: usize> {
    word: usize,
}

proof fn lemma_shift(bits: usize)
    requires
        bits < 32,
    ensures
        1usize << bits >= 1,
{
    assert(1usize << bits >= 1) by (bit_vector)
        requires
            bits < 32,
    ;
}

/// A word made of an address and a tag gives both back, and is not the empty
/// word.
pub proof fn law_tagged_word_round_trip(ptr: usize, tag: usize, bits: usize)
    requires
        bits < 32,
        leaves_tag_bits(ptr, bits),
        tag <= tag_mask(bits),
    ensures
        (ptr | tag) & tag_mask(bits) == tag,
        (ptr | tag) & !tag_mask(bits) == ptr,
        ptr != 0 ==> (ptr | tag) != 0,
{
    lemma_shift(bits);
    let mask = tag_mask(bits);
    assert((ptr | tag) & mask == tag && (ptr | tag) & !mask == ptr && (ptr != 0 ==> (ptr | tag)
        != 0)) by (bit_vector)
        requires
            bits < 32,
            mask == (1usize << bits) - 1,
            ptr & mask == 0,
            tag <= mask,
    ;
}

impl<const TAG_BITS: usize> AtomicTaggedSlot<TAG_BITS> {
    /// What the slot holds: the address and its tag.
    pub closed spec fn contents(&self) -> Option<(usize, usize)> {
        if self.word == 0 {
            None
        } else {
            Some((self.word & !tag_mask(TAG_BITS), self.word & tag_mask(TAG_BITS)))
        }
    }

    /// A slot that holds nothing.
    pub fn empty() -> (r: Self)
        ensures
            r.contents() is None,
    {
        AtomicTaggedSlot { word: 0 }
    }

    /// Whether a value is published.
    pub fn is_set(&self) -> (r: bool)
        ensures
            r == self.contents() is Some,
    {
        self.word != 0
    }

    /// Publishes `t` under `tag`, over whatever the slot held.
    pub fn publish<T: PointerInterchangeable>(&mut self, t: T, tag: usize)
        requires
            TAG_BITS < 32,
            t.ptr() != 0,
            leaves_tag_bits(t.ptr(), TAG_BITS),
            tag <= tag_mask(TAG_BITS),
        ensures
            final(self).contents() == Some((t.ptr(), tag)),
    {
        let ptr: usize = t.into_ptr();
        proof {
            law_tagged_word_round_trip(ptr, tag, TAG_BITS);
        }
        self.word = ptr | tag;
    }

    /// Empties the slot, handing out the tag and the address it held.
    pub fn take(&mut self) -> (r: Option<(usize, TaggedPtr<TAG_BITS>)>)
        requires
            TAG_BITS < 32,
        ensures
            final(self).contents() is None,
            r is Some == old(self).contents() is Some,
            r matches Some((tag, p)) ==> old(self).contents() == Some((p.ptr(), tag)),
    {
        let word: usize = self.word;
        self.word = 0;
        if word == 0 {
            None
        } else {
            proof {
                lemma_shift(TAG_BITS);
            }
            let mask: usize = (1usize << TAG_BITS) - 1;
            Some((word & mask, TaggedPtr { word }))
        }
    }
}

/// What a tagged slot handed out, not yet rebuilt as a value.
pub struct TaggedPtr<const TAG_BITS: usize> {
    word: usize,
}

impl<const TAG_BITS: usize> TaggedPtr<TAG_BITS> {
    /// The address without the tag.
    pub closed spec fn ptr(&self) -> usize {
        self.word & !tag_mask(TAG_BITS)
    }

    /// Rebuilds the value that was published.
    pub fn into_typed<T: PointerInterchangeable>(self) -> (r: T)
        requires
            TAG_BITS < 32,
        ensures
            r.ptr() == self.ptr(),
    {
        proof {
            lemma_shift(TAG_BITS);
        }
        let mask: usize = (1usize << TAG_BITS) - 1;
        T::from_ptr(self.word & !mask)
    }
}

/// A slot that holds at most one value of one type.
pub struct AtomicSlot<T: PointerInterchangeable> {
    slot: AtomicTaggedSlot<0>,
    kind: PhantomData<T>,
}

impl<T: PointerInterchangeable> View for AtomicSlot<T> {
    type V = Option<usize>;

    /// The address of the published value.
    closed spec fn view(&self) -> Option<usize> {
        match self.slot.contents() {
            Some((p, _)) => Some(p),
            None => None,
        }
    }
}

impl<T: PointerInterchangeable> AtomicSlot<T> {
    /// A slot that holds nothing.
    pub fn empty() -> (r: Self)
        ensures
            r@ is None,
    {
        AtomicSlot { slot: AtomicTaggedSlot::empty(), kind: PhantomData }
    }

    /// Whether a value is published.
    pub fn is_set(&self) -> (r: bool)
        ensures
            r == self@ is Some,
    {
        self.slot.is_set()
    }

    /// Publishes `t`, over whatever the slot held. No value stands for null,
    /// so the address is not zero.
    pub fn publish(&mut self, t: T)
        requires
            t.ptr() != 0,
        ensures
            final(self)@ == Some(t.ptr()),
    {
        let ghost p = t.ptr();
        assert(p & ((1usize << 0usize) - 1) as usize == 0) by (bit_vector);
        self.slot.publish(t, 0);
    }

    /// Empties the slot, handing out the value it held.
    pub fn take(&mut self) -> (r: Option<T>)
        ensures
            final(self)@ is None,
            r is Some == old(self)@ is Some,
            r matches Some(t) ==> old(self)@ == Some(t.ptr()),
    {
        match self.slot.take() {
            Some((_, raw)) => Some(raw.into_typed::<T>()),
            None => None,
        }
    }
}

/// The mask of a tag is as wide as it says: it holds exactly the values below the
/// next power of two, and splits every word into a part that is kept and a tag.
pub proof fn law_tag_is_the_low_bits(word: usize, bits: usize)
    requires
        bits < 32,
    ensures
        tag_mask(bits) + 1 == 1usize << bits,
        (word & tag_mask(bits)) <= tag_mask(bits),
        (word & !tag_mask(bits)) + (word & tag_mask(bits)) == word,
        word <= tag_mask(bits) ==> word & tag_mask(bits) == word,
        leaves_tag_bits(word, bits) <==> word & !tag_mask(bits) == word,
{
    lemma_shift(bits);
    let mask = tag_mask(bits);
    assert((word & mask) <= mask && (word & !mask) + (word & mask) == word && (word <= mask ==> word
        & mask == word) && ((word & mask == 0) <==> (word & !mask == word))) by (bit_vector)
        requires
            bits < 32,
            mask == (1usize << bits) - 1,
    ;
}

} // verus!
