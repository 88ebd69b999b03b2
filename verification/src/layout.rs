//! Sizes, alignments and offsets of a shared block that holds a header
//! followed by a run of elements.
//!
//! The block is laid out field after field: the strong count, then the
//! header, then the elements. The header starts at the first offset past the
//! count that satisfies its own alignment and that of the elements, the
//! elements start at the first offset past the header that satisfies theirs,
//! the block is aligned like its most demanding field, and its size is a
//! multiple of that alignment. Everything here is arithmetic on machine
//! words, and every step that could leave the range of `usize` is checked.

use core::sync::atomic::AtomicUsize;
use vstd::arithmetic::div_mod::{
    lemma_fundamental_div_mod, lemma_mod_multiples_basic, lemma_small_mod,
};
use vstd::arithmetic::mul::{
    lemma_mul_inequality, lemma_mul_is_associative, lemma_mul_is_commutative,
    lemma_mul_is_distributive_add, lemma_mul_is_distributive_sub_other_way,
};
use vstd::arithmetic::power::pow;
use vstd::arithmetic::power2::{
    is_pow2, is_pow2_equiv, is_pow2_exists, lemma_pow2, lemma_pow2_adds, lemma_pow2_pos,
    lemma_pow2_strictly_increases, pow2,
};
use vstd::bits::{lemma_usize_low_bits_mask_is_mod, low_bits_mask};
use vstd::layout::{
    align_of, layout_for_type_is_valid, signed_int_min_max_values, size_of,
    unsigned_int_max_values,
};
use vstd::prelude::*;

verus! {

/// The least multiple of `align` that is not below `x`.
pub open spec fn round_up(x: nat, align: nat) -> nat
    recommends
        align > 0,
{
    if x % align == 0 {
        x
    } else {
        (x - x % align + align) as nat
    }
}

/// `round_up(x, align)` is a multiple of `align`, is at least `x`, and
/// exceeds `x` by less than `align`.
pub proof fn lemma_round_up_bounds(x: nat, align: nat)
    requires
        align > 0,
    ensures
        round_up(x, align) % align == 0,
        x <= round_up(x, align) < x + align,
{
    assert(round_up(x, align) % align == 0 && x <= round_up(x, align) < x + align)
        by (nonlinear_arith)
        requires
            align > 0,
            round_up(x, align) == (if x % align == 0 {
                x
            } else {
                (x - x % align + align) as nat
            }),
    ;
}

/// Only one multiple of `align` lies in the window `x .. x + align`, so any
/// such multiple is `round_up(x, align)`, and no multiple of `align` lies
/// between `x` and `round_up(x, align)`.
pub proof fn lemma_round_up_unique(x: nat, align: nat, r: nat)
    requires
        align > 0,
        r % align == 0,
        x <= r,
    ensures
        round_up(x, align) <= r,
        r < x + align ==> r == round_up(x, align),
{
    lemma_round_up_bounds(x, align);
    let u = round_up(x, align);
    assert(u <= r && (r < x + align ==> r == u)) by (nonlinear_arith)
        requires
            align > 0,
            r % align == 0,
            u % align == 0,
            x <= r,
            x <= u < x + align,
    ;
}

/// The exponent of a power of two that fits a machine word.
proof fn lemma_pow2_exponent(align: usize) -> (n: nat)
    requires
        is_pow2(align as int),
    ensures
        n < usize::BITS,
        pow2(n) == align,
{
    is_pow2_equiv(align as int);
    assert(is_pow2_exists(align as int));
    let n = choose|i: nat| pow(2, i) == align as int;
    lemma_pow2(n);
    assert(n < usize::BITS) by {
        unsigned_int_max_values();
        if n > usize::BITS {
            lemma_pow2_strictly_increases(usize::BITS as nat, n);
        }
    }
    n
}

/// A power of two that fits a machine word has a single bit set, and masking
/// with its predecessor gives the remainder of the division by it.
proof fn lemma_pow2_mask(align: usize)
    requires
        is_pow2(align as int),
    ensures
        align > 0,
        align & ((align - 1) as usize) == 0,
        forall|x: usize| #[trigger] (x & ((align - 1) as usize)) == x % align,
{
    let n = lemma_pow2_exponent(align);
    lemma_pow2_pos(n);
    assert(low_bits_mask(n) as usize == (align - 1) as usize);
    assert forall|x: usize| #[trigger] (x & ((align - 1) as usize)) == x % align by {
        lemma_usize_low_bits_mask_is_mod(x, n);
    }
    assert(align & ((align - 1) as usize) == align % align);
}

/// A nonzero machine word with a single bit set is a power of two.
proof fn lemma_single_bit_is_pow2(align: usize)
    requires
        align != 0,
        align & ((align - 1) as usize) == 0,
    ensures
        is_pow2(align as int),
    decreases align,
{
    reveal(is_pow2);
    if align != 1 {
        let half: usize = align / 2;
        assert(align % 2 == 0 && half != 0 && half < align && half & ((half - 1) as usize) == 0)
            by (bit_vector)
            requires
                align != 0,
                align != 1,
                align & ((align - 1) as usize) == 0,
                half == align / 2,
        ;
        lemma_single_bit_is_pow2(half);
    }
}

/// Of two powers of two, the smaller divides the larger.
proof fn lemma_pow2_divides(small: usize, large: usize)
    requires
        is_pow2(small as int),
        is_pow2(large as int),
        small <= large,
    ensures
        large % small == 0,
{
    lemma_pow2_mask(small);
    lemma_pow2_mask(large);
    let small_mask = (small - 1) as usize;
    let large_mask = (large - 1) as usize;
    assert(large & small_mask == 0) by (bit_vector)
        requires
            small != 0,
            large != 0,
            small <= large,
            small & small_mask == 0,
            large & large_mask == 0,
            small_mask == (small - 1) as usize,
            large_mask == (large - 1) as usize,
    ;
}

/// Whether `align` is a power of two.
pub fn is_power_of_two(align: usize) -> (r: bool)
    ensures
        r == is_pow2(align as int),
        r ==> align > 0,
{
    if align == 0 {
        assert(!is_pow2(0)) by {
            reveal(is_pow2);
        }
        false
    } else {
        let single_bit = align & (align - 1) == 0;
        proof {
            if single_bit {
                lemma_single_bit_is_pow2(align);
            }
            if is_pow2(align as int) {
                lemma_pow2_mask(align);
            }
        }
        single_bit
    }
}

/// Rounds `x` up to the next multiple of `align`, a power of two; `None`
/// where that multiple does not fit a machine word.
pub fn align_up(x: usize, align: usize) -> (r: Option<usize>)
    requires
        is_pow2(align as int),
    ensures
        match r {
            Some(v) => v == round_up(x as nat, align as nat),
            None => round_up(x as nat, align as nat) > usize::MAX,
        },
{
    proof {
        lemma_pow2_mask(align);
        lemma_round_up_bounds(x as nat, align as nat);
    }
    let mask: usize = align - 1;
    let wrapped: usize = x.wrapping_add(mask);
    let size: usize = wrapped & !mask;
    if size >= x {
        proof {
            // The sum did not wrap: had it wrapped, it would be below
            // `align`, and masking would leave zero, which is below `x`.
            if wrapped != x + mask {
                assert(wrapped & !mask == 0) by (bit_vector)
                    requires
                        align != 0,
                        align & mask == 0,
                        mask == (align - 1) as usize,
                        wrapped < align,
                ;
            }
            assert(size & mask == 0 && x <= size && size < x + align) by (bit_vector)
                requires
                    align != 0,
                    align & mask == 0,
                    mask == (align - 1) as usize,
                    size == wrapped & !mask,
                    wrapped == x + mask,
            ;
            lemma_round_up_unique(x as nat, align as nat, size as nat);
        }
        Some(size)
    } else {
        proof {
            // The sum wrapped: otherwise masking would give a value that
            // is not below `x`.
            if wrapped == x + mask {
                assert(x <= wrapped & !mask) by (bit_vector)
                    requires
                        align != 0,
                        align & mask == 0,
                        mask == (align - 1) as usize,
                        wrapped == x + mask,
                ;
            }
            // No multiple of `align` that fits a machine word is that
            // close to its upper end.
            let up = round_up(x as nat, align as nat);
            if up <= usize::MAX {
                let fit: usize = up as usize;
                assert(((fit + mask) as usize) == fit + mask) by (bit_vector)
                    requires
                        align != 0,
                        align & mask == 0,
                        mask == (align - 1) as usize,
                        fit & mask == 0,
                ;
            }
        }
        None
    }
}

/// Size and alignment of one field of the block.
///
/// A value of this type describes a type that can exist: its alignment is
/// a power of two, its size is a multiple of its alignment, and its size
/// does not exceed `isize::MAX`.
#[derive(Clone, Copy, Debug, PartialEq, Eq)]
pub struct TypeLayout {
    size: usize,
    align: usize,
}

impl TypeLayout {
    /// Whether a type can have this size and this alignment.
    pub open spec fn valid(size: usize, align: usize) -> bool {
        &&& is_pow2(align as int)
        &&& size % align == 0
        &&& size <= isize::MAX
    }

    /// Whether a type can have the size and the alignment that this value
    /// holds. Every value that executable code holds is well formed.
    #[verifier::type_invariant]
    pub closed spec fn wf(self) -> bool {
        Self::valid(self.size, self.align)
    }

    /// The size in bytes.
    pub closed spec fn spec_size(&self) -> usize {
        self.size
    }

    /// The alignment in bytes.
    pub closed spec fn spec_align(&self) -> usize {
        self.align
    }

    /// The size in bytes.
    #[verifier::when_used_as_spec(spec_size)]
    pub fn size(&self) -> (r: usize)
        ensures
            r == self.size(),
            Self::valid(self.size(), self.align()),
    {
        proof {
            use_type_invariant(self);
        }
        self.size
    }

    /// The alignment in bytes.
    #[verifier::when_used_as_spec(spec_align)]
    pub fn align(&self) -> (r: usize)
        ensures
            r == self.align(),
            Self::valid(self.size(), self.align()),
    {
        proof {
            use_type_invariant(self);
        }
        self.align
    }

    /// The layout with the given size and alignment, if a type can have
    /// them.
    pub fn new(size: usize, align: usize) -> (r: Option<TypeLayout>)
        ensures
            r is Some == Self::valid(size, align),
            r matches Some(t) ==> t.size() == size && t.align() == align && t.wf(),
    {
        if is_power_of_two(align) && size % align == 0 && size <= isize::MAX as usize {
            Some(TypeLayout { size, align })
        } else {
            None
        }
    }

    /// The layout of `T`.
    pub closed spec fn spec_of<T>() -> TypeLayout {
        TypeLayout { size: size_of::<T>() as usize, align: align_of::<T>() as usize }
    }

    /// The layout of `T` holds the size and the alignment of `T`, as far as
    /// they fit a machine word.
    pub proof fn lemma_of<T>()
        ensures
            Self::of::<T>().size() == size_of::<T>() as usize,
            Self::of::<T>().align() == align_of::<T>() as usize,
    {
    }

    /// The layout of `T`.
    #[verifier::when_used_as_spec(spec_of)]
    pub fn of<T>() -> (r: TypeLayout)
        ensures
            r == Self::of::<T>(),
            r.size() == size_of::<T>(),
            r.align() == align_of::<T>(),
            r.wf(),
    {
        layout_for_type_is_valid::<T>();
        TypeLayout { size: core::mem::size_of::<T>(), align: core::mem::align_of::<T>() }
    }
}

/// Why no block can be laid out for a header and a number of elements.
#[derive(Clone, Copy, Debug, PartialEq, Eq)]
pub enum LayoutError {
    /// The element type has size zero.
    ZeroSizedElement,
    /// An offset or a size does not fit a machine word.
    SizeOverflow,
    /// The size fits a machine word but exceeds `isize::MAX`, the most
    /// that one allocation can hold.
    InvalidLayout,
}

/// The larger of two alignments.
pub open spec fn max_align(a: usize, b: usize) -> usize {
    if a >= b {
        a
    } else {
        b
    }
}

/// Where the parts of a block lie, and how large the block is.
#[derive(Clone, Copy, Debug, PartialEq, Eq)]
pub struct CompositeLayout {
    /// Offset of the header from the start of the block.
    pub header_offset: usize,
    /// Offset of the first element from the start of the block.
    pub slice_offset: usize,
    /// Bytes that the elements take.
    pub slice_size: usize,
    /// Bytes in use, from the start of the block to the end of the last
    /// element.
    pub usable_size: usize,
    /// Bytes to allocate: the bytes in use, rounded up to `align`.
    pub size: usize,
    /// Alignment of the block.
    pub align: usize,
}

impl CompositeLayout {
    /// Alignment of a block: that of its most demanding field.
    pub open spec fn spec_align(count: TypeLayout, header: TypeLayout, elem: TypeLayout) -> usize {
        max_align(count.align(), max_align(header.align(), elem.align()))
    }

    /// Offset of the header: past the count, at the alignment of the
    /// header and of the elements that follow it.
    pub open spec fn spec_header_offset(
        count: TypeLayout,
        header: TypeLayout,
        elem: TypeLayout,
    ) -> nat {
        round_up(count.size() as nat, max_align(header.align(), elem.align()) as nat)
    }

    /// Offset of the first element: past the header, at the alignment of
    /// the elements.
    pub open spec fn spec_slice_offset(
        count: TypeLayout,
        header: TypeLayout,
        elem: TypeLayout,
    ) -> nat {
        Self::spec_header_offset(count, header, elem) + round_up(
            header.size() as nat,
            elem.align() as nat,
        )
    }

    /// Bytes that `num_items` elements take.
    pub open spec fn spec_slice_size(elem: TypeLayout, num_items: usize) -> nat {
        elem.size() as nat * num_items as nat
    }

    /// Bytes in use by a block with `num_items` elements.
    pub open spec fn spec_usable_size(
        count: TypeLayout,
        header: TypeLayout,
        elem: TypeLayout,
        num_items: usize,
    ) -> nat {
        Self::spec_slice_offset(count, header, elem) + Self::spec_slice_size(elem, num_items)
    }

    /// Bytes to allocate for a block with `num_items` elements.
    pub open spec fn spec_size(
        count: TypeLayout,
        header: TypeLayout,
        elem: TypeLayout,
        num_items: usize,
    ) -> nat {
        round_up(
            Self::spec_usable_size(count, header, elem, num_items),
            Self::spec_align(count, header, elem) as nat,
        )
    }

    /// The layout of a block with `num_items` elements, or why there is
    /// none.
    pub open spec fn spec_new(
        count: TypeLayout,
        header: TypeLayout,
        elem: TypeLayout,
        num_items: usize,
    ) -> Result<CompositeLayout, LayoutError> {
        if elem.size() == 0 {
            Err(LayoutError::ZeroSizedElement)
        } else if Self::spec_size(count, header, elem, num_items) > usize::MAX {
            Err(LayoutError::SizeOverflow)
        } else if Self::spec_size(count, header, elem, num_items) > isize::MAX {
            Err(LayoutError::InvalidLayout)
        } else {
            Ok(
                CompositeLayout {
                    header_offset: Self::spec_header_offset(count, header, elem) as usize,
                    slice_offset: Self::spec_slice_offset(count, header, elem) as usize,
                    slice_size: Self::spec_slice_size(elem, num_items) as usize,
                    usable_size: Self::spec_usable_size(count, header, elem, num_items) as usize,
                    size: Self::spec_size(count, header, elem, num_items) as usize,
                    align: Self::spec_align(count, header, elem),
                },
            )
        }
    }

    /// Whether the parts lie in order inside an allocation that can be
    /// made: the offsets rise, the elements end where the bytes in use
    /// end, the size is the bytes in use rounded up to the alignment, and
    /// the alignment is a power of two that leaves the size, rounded up to
    /// it, within `isize::MAX`.
    pub open spec fn wf(self) -> bool {
        &&& is_pow2(self.align as int)
        &&& self.header_offset <= self.slice_offset
        &&& self.slice_offset + self.slice_size == self.usable_size
        &&& self.size == round_up(self.usable_size as nat, self.align as nat)
        &&& self.size + self.align - 1 <= isize::MAX
    }

    /// Lays out a block that holds a strong count, a header and
    /// `num_items` elements, given the layout of the count, of the header
    /// and of one element.
    pub fn new(count: TypeLayout, header: TypeLayout, elem: TypeLayout, num_items: usize) -> (r:
        Result<CompositeLayout, LayoutError>)
        ensures
            r == Self::spec_new(count, header, elem, num_items),
            r matches Ok(l) ==> l.wf(),
    {
        proof {
            use_type_invariant(&count);
            use_type_invariant(&header);
            use_type_invariant(&elem);
            Self::lemma_sizes_rise(count, header, elem, num_items);
            if Self::spec_new(count, header, elem, num_items) is Ok {
                Self::lemma_layout_aligned(count, header, elem, num_items);
            }
        }
        if elem.size() == 0 {
            return Err(LayoutError::ZeroSizedElement);
        }
        let data_align: usize = if header.align() >= elem.align() {
            header.align()
        } else {
            elem.align()
        };
        let align: usize = if count.align() >= data_align {
            count.align()
        } else {
            data_align
        };
        let header_offset: usize = match align_up(count.size(), data_align) {
            Some(v) => v,
            None => {
                return Err(LayoutError::SizeOverflow);
            },
        };
        let data_to_slice_offset: usize = match align_up(header.size(), elem.align()) {
            Some(v) => v,
            None => {
                return Err(LayoutError::SizeOverflow);
            },
        };
        let slice_offset: usize = match header_offset.checked_add(data_to_slice_offset) {
            Some(v) => v,
            None => {
                return Err(LayoutError::SizeOverflow);
            },
        };
        let slice_size: usize = match elem.size().checked_mul(num_items) {
            Some(v) => v,
            None => {
                return Err(LayoutError::SizeOverflow);
            },
        };
        let usable_size: usize = match slice_offset.checked_add(slice_size) {
            Some(v) => v,
            None => {
                return Err(LayoutError::SizeOverflow);
            },
        };
        let size: usize = match align_up(usable_size, align) {
            Some(v) => v,
            None => {
                return Err(LayoutError::SizeOverflow);
            },
        };
        if size > isize::MAX as usize {
            return Err(LayoutError::InvalidLayout);
        }
        Ok(CompositeLayout { header_offset, slice_offset, slice_size, usable_size, size, align })
    }

    /// The layout of the strong count, an atomic machine word.
    pub open spec fn spec_count() -> TypeLayout {
        TypeLayout::of::<AtomicUsize>()
    }

    /// The layout of a block whose header is an `H` and whose
    /// `num_items` elements are `T`s, behind an atomic machine word for
    /// the strong count; or why there is none.
    pub open spec fn spec_for_slice<H, T>(num_items: usize) -> Result<
        CompositeLayout,
        LayoutError,
    > {
        Self::spec_new(Self::spec_count(), TypeLayout::of::<H>(), TypeLayout::of::<T>(), num_items)
    }

    /// Lays out a block whose header is an `H` and whose `num_items`
    /// elements are `T`s, behind an atomic machine word for the strong
    /// count.
    #[verifier::when_used_as_spec(spec_for_slice)]
    pub fn for_slice<H, T>(num_items: usize) -> (r: Result<CompositeLayout, LayoutError>)
        ensures
            r == Self::for_slice::<H, T>(num_items),
            r matches Ok(l) ==> l.wf() && l.slice_size == size_of::<T>() * num_items
                && l.slice_size <= isize::MAX,
            r == Err::<CompositeLayout, LayoutError>(LayoutError::ZeroSizedElement) <==> size_of::<
                T,
            >() == 0,
    {
        let count = TypeLayout::of::<AtomicUsize>();
        let header = TypeLayout::of::<H>();
        let elem = TypeLayout::of::<T>();
        proof {
            if Self::spec_new(count, header, elem, num_items) is Ok {
                Self::lemma_layout_aligned(count, header, elem, num_items);
            }
        }
        Self::new(count, header, elem, num_items)
    }

    /// Each quantity of the layout is at most the next: the header offset,
    /// the offset of the elements, the bytes in use, the bytes to
    /// allocate.
    pub proof fn lemma_sizes_rise(
        count: TypeLayout,
        header: TypeLayout,
        elem: TypeLayout,
        num_items: usize,
    )
        requires
            count.wf(),
            header.wf(),
            elem.wf(),
        ensures
            Self::spec_header_offset(count, header, elem) <= Self::spec_slice_offset(
                count,
                header,
                elem,
            ),
            Self::spec_slice_offset(count, header, elem) <= Self::spec_usable_size(
                count,
                header,
                elem,
                num_items,
            ),
            Self::spec_slice_size(elem, num_items) <= Self::spec_usable_size(
                count,
                header,
                elem,
                num_items,
            ),
            Self::spec_usable_size(count, header, elem, num_items) <= Self::spec_size(
                count,
                header,
                elem,
                num_items,
            ),
    {
        lemma_pow2_mask(count.align());
        lemma_pow2_mask(header.align());
        lemma_pow2_mask(elem.align());
        lemma_round_up_bounds(
            Self::spec_usable_size(count, header, elem, num_items),
            Self::spec_align(count, header, elem) as nat,
        );
    }

    /// A layout that was computed is well formed, places the header and
    /// the elements at offsets that their alignments divide, and has a
    /// size and an alignment that the alignment of every field divides.
    pub proof fn lemma_layout_aligned(
        count: TypeLayout,
        header: TypeLayout,
        elem: TypeLayout,
        num_items: usize,
    )
        requires
            count.wf(),
            header.wf(),
            elem.wf(),
            Self::spec_new(count, header, elem, num_items) is Ok,
        ensures
            ({
                let l = Self::spec_new(count, header, elem, num_items)->Ok_0;
                &&& l.wf()
                &&& l.header_offset % header.align() == 0
                &&& l.slice_offset % elem.align() == 0
                &&& l.slice_size == elem.size() * num_items
                &&& l.size % l.align == 0
                &&& l.usable_size <= l.size < l.usable_size + l.align
                &&& l.align % count.align() == 0
                &&& l.align % header.align() == 0
                &&& l.align % elem.align() == 0
            }),
    {
        let l = Self::spec_new(count, header, elem, num_items)->Ok_0;
        let data_align: usize = max_align(header.align(), elem.align());
        Self::lemma_sizes_rise(count, header, elem, num_items);
        lemma_pow2_mask(count.align());
        lemma_pow2_mask(header.align());
        lemma_pow2_mask(elem.align());
        lemma_pow2_divides(header.align(), data_align);
        lemma_pow2_divides(elem.align(), data_align);
        lemma_pow2_divides(count.align(), l.align);
        lemma_pow2_divides(data_align, l.align);
        lemma_round_up_bounds(count.size() as nat, data_align as nat);
        lemma_round_up_bounds(header.size() as nat, elem.align() as nat);
        lemma_round_up_bounds(l.usable_size as nat, l.align as nat);
        lemma_multiple_of_multiple(l.header_offset as nat, data_align as nat, header.align() as nat);
        lemma_multiple_of_multiple(l.header_offset as nat, data_align as nat, elem.align() as nat);
        lemma_multiple_of_multiple(l.align as nat, data_align as nat, header.align() as nat);
        lemma_multiple_of_multiple(l.align as nat, data_align as nat, elem.align() as nat);
        lemma_sum_of_multiples(
            l.header_offset as nat,
            round_up(header.size() as nat, elem.align() as nat),
            elem.align() as nat,
        );
        lemma_multiple_below_half_range(l.size, l.align);
    }

    /// In a layout that was computed, a cursor that starts at the offset
    /// of the elements and advances by the size of an element stands, for
    /// each element, at an offset that the alignment of the elements
    /// divides, with room for the element before the end of the bytes in
    /// use; past the last element it stands at that end.
    pub proof fn lemma_element_slots(
        count: TypeLayout,
        header: TypeLayout,
        elem: TypeLayout,
        num_items: usize,
        index: nat,
    )
        requires
            count.wf(),
            header.wf(),
            elem.wf(),
            Self::spec_new(count, header, elem, num_items) is Ok,
            index < num_items,
        ensures
            ({
                let l = Self::spec_new(count, header, elem, num_items)->Ok_0;
                &&& (l.slice_offset + index * elem.size()) % (elem.align() as int) == 0
                &&& l.slice_offset + (index + 1) * elem.size() <= l.usable_size
                &&& l.slice_offset + num_items * elem.size() == l.usable_size
            }),
    {
        let l = Self::spec_new(count, header, elem, num_items)->Ok_0;
        let size = elem.size() as nat;
        let align = elem.align() as nat;
        Self::lemma_layout_aligned(count, header, elem, num_items);
        lemma_pow2_mask(elem.align());
        assert((index * size) % align == 0) by {
            lemma_fundamental_div_mod(size as int, align as int);
            let q = size as int / align as int;
            assert(index * size == (index * q) * align) by {
                lemma_mul_is_commutative(align as int, q);
                lemma_mul_is_associative(index as int, q, align as int);
            }
            lemma_mod_multiples_basic(index * q, align as int);
        }
        lemma_sum_of_multiples(l.slice_offset as nat, index * size, align);
        assert((index + 1) * size <= num_items * size) by {
            lemma_mul_inequality((index + 1) as int, num_items as int, size as int);
        }
        assert(num_items * size == size * num_items) by {
            lemma_mul_is_commutative(num_items as int, size as int);
        }
    }

    /// A number of elements whose bytes, alone or behind the offset at
    /// which they start, do not fit a machine word gets no layout.
    pub proof fn lemma_overflow_guard(
        count: TypeLayout,
        header: TypeLayout,
        elem: TypeLayout,
        num_items: usize,
    )
        requires
            count.wf(),
            header.wf(),
            elem.wf(),
            elem.size() * num_items > usize::MAX || Self::spec_slice_offset(count, header, elem)
                + elem.size() * num_items > usize::MAX,
        ensures
            Self::spec_new(count, header, elem, num_items) is Err,
            elem.size() != 0 ==> Self::spec_new(count, header, elem, num_items) == Err::<
                CompositeLayout,
                LayoutError,
            >(LayoutError::SizeOverflow),
    {
        Self::lemma_sizes_rise(count, header, elem, num_items);
    }
}

/// A multiple of a power of two that does not exceed `isize::MAX` stays
/// within `isize::MAX` when the power of two, less one, is added to it.
proof fn lemma_multiple_below_half_range(size: usize, align: usize)
    requires
        is_pow2(align as int),
        size % align == 0,
        size <= isize::MAX,
    ensures
        size + align - 1 <= isize::MAX,
{
    let n = lemma_pow2_exponent(align);
    let top = (usize::BITS - 1) as nat;
    let half = pow2(top) as int;
    let a = align as int;
    lemma_pow2_pos(n);
    signed_int_min_max_values();
    assert(half == isize::MAX + 1);
    // The power of two above `isize::MAX` is a multiple of `align`.
    let rest = pow2((top - n) as nat) as int;
    assert(half == rest * a) by {
        lemma_pow2_adds(n, (top - n) as nat);
        lemma_mul_is_commutative(rest, a);
    }
    // So is its distance from `size`, which is positive.
    let q = size as int / a;
    lemma_fundamental_div_mod(size as int, a);
    assert(half - size == (rest - q) * a) by {
        lemma_mul_is_distributive_sub_other_way(a, rest, q);
        lemma_mul_is_commutative(a, q);
    }
    lemma_mod_multiples_basic(rest - q, a);
    if half - size < a {
        lemma_small_mod((half - size) as nat, a as nat);
    }
}

/// A multiple of a multiple of `k` is a multiple of `k`.
proof fn lemma_multiple_of_multiple(x: nat, m: nat, k: nat)
    requires
        k > 0,
        m > 0,
        x % m == 0,
        m % k == 0,
    ensures
        x % k == 0,
{
    let q = x as int / m as int;
    let p = m as int / k as int;
    lemma_fundamental_div_mod(x as int, m as int);
    lemma_fundamental_div_mod(m as int, k as int);
    assert(x == (q * p) * k) by {
        lemma_mul_is_commutative(m as int, q);
        lemma_mul_is_commutative(k as int, p);
        lemma_mul_is_associative(q, p, k as int);
    }
    lemma_mod_multiples_basic(q * p, k as int);
}

/// The sum of two multiples of `k` is a multiple of `k`.
proof fn lemma_sum_of_multiples(x: nat, y: nat, k: nat)
    requires
        k > 0,
        x % k == 0,
        y % k == 0,
    ensures
        (x + y) % k == 0,
{
    let a = x as int / k as int;
    let b = y as int / k as int;
    lemma_fundamental_div_mod(x as int, k as int);
    lemma_fundamental_div_mod(y as int, k as int);
    assert(x + y == (a + b) * k) by {
        lemma_mul_is_distributive_add(k as int, a, b);
        lemma_mul_is_commutative(k as int, a + b);
    }
    lemma_mod_multiples_basic(a + b, k as int);
}

} // verus!
