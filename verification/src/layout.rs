//! Sizes and alignments of requests.
//!
//! Every allocator of the crate takes a [`NonZeroLayout`]: a zero-sized request is dealt
//! with once, in [`crate::StdCompat`], and never reaches an allocator.

use crate::bits;
use vstd::arithmetic::power2::*;
use vstd::prelude::*;

verus! {

/// The request could not be served.
#[derive(Clone, Copy, Debug, PartialEq, Eq, Structural)]
pub struct AllocError;

/// Errors returned when constructing a [`NonZeroLayout`].
#[derive(Clone, Copy, Debug, PartialEq, Eq, Structural)]
pub struct LayoutError;

impl LayoutError {
    /// The message shown for the error.
    pub fn message(&self) -> (r: &'static str)
        ensures
            r@ == "invalid NonZeroLayout (zero size, zero/non-power-of-two align, or overflow)"@,
    {
        "invalid NonZeroLayout (zero size, zero/non-power-of-two align, or overflow)"
    }
}

/// A size and a power-of-two alignment such that the size, rounded up to the alignment,
/// does not exceed `isize::MAX`. The size may be zero.
pub open spec fn fits(size: usize, align: usize) -> bool {
    is_pow2(align as int) && size <= isize::MAX - (align - 1)
}

/// A size that may be zero, with a power-of-two alignment.
#[derive(Clone, Copy, Debug, PartialEq, Eq, Structural)]
pub struct Layout {
    size: usize,
    align: usize,
}

impl Layout {
    #[verifier::type_invariant]
    pub closed spec fn inv(&self) -> bool {
        fits(self.size, self.align)
    }

    pub closed spec fn size_spec(&self) -> usize {
        self.size
    }

    pub closed spec fn align_spec(&self) -> usize {
        self.align
    }

    /// Builds a layout, or fails if `align` is not a power of two or `size`, rounded up
    /// to it, exceeds `isize::MAX`.
    pub fn from_size_align(size: usize, align: usize) -> (r: Result<Self, LayoutError>)
        ensures
            r is Ok <==> fits(size, align),
            r matches Ok(l) ==> l.size() == size && l.align() == align,
    {
        proof {
            reveal(is_pow2);
        }
        if !bits::is_power_of_two(align) {
            return Err(LayoutError);
        }
        proof {
            lemma_largest_power(align);
        }
        if size > isize::MAX as usize - (align - 1) {
            return Err(LayoutError);
        }
        Ok(Layout { size, align })
    }

    /// Size in bytes.
    #[verifier::when_used_as_spec(size_spec)]
    pub fn size(&self) -> (r: usize)
        ensures
            r == self.size(),
    {
        self.size
    }

    /// Alignment in bytes.
    #[verifier::when_used_as_spec(align_spec)]
    pub fn align(&self) -> (r: usize)
        ensures
            r == self.align(),
            fits(self.size(), r),
    {
        proof {
            use_type_invariant(self);
        }
        self.align
    }
}

/// The largest power of two of the machine word is one more than `isize::MAX`.
pub proof fn lemma_largest_power(a: usize)
    requires
        is_pow2(a as int),
    ensures
        0 < a <= isize::MAX + 1,
{
    let n = bits::lemma_exponent(a);
    lemma2_to64();
    lemma2_to64_rest();
    if n < usize::BITS - 1 {
        lemma_pow2_strictly_increases(n, (usize::BITS - 1) as nat);
    }
    lemma_pow2_pos(n);
}

/// A layout with `size > 0` and a power-of-two alignment.
#[derive(Clone, Copy, Debug, PartialEq, Eq, Structural)]
pub struct NonZeroLayout {
    size: usize,
    align: usize,
}

impl NonZeroLayout {
    /// What every layout satisfies.
    #[verifier::type_invariant]
    pub closed spec fn inv(&self) -> bool {
        self.valid()
    }

    /// The size is positive and, with the alignment, makes a layout.
    pub open spec fn valid(&self) -> bool {
        self.size() > 0 && fits(self.size(), self.align())
    }

    pub closed spec fn size_spec(&self) -> usize {
        self.size
    }

    pub closed spec fn align_spec(&self) -> usize {
        self.align
    }

    /// The layout of the given size and alignment.
    pub closed spec fn of(size: int, align: int) -> Self {
        NonZeroLayout { size: size as usize, align: align as usize }
    }

    /// Construct from a size and an alignment, both nonzero.
    ///
    /// Fails if `align` is not a power of two or if rounding `size` up to `align` would
    /// exceed `isize::MAX`.
    pub fn new(size: usize, align: usize) -> (r: Result<Self, LayoutError>)
        requires
            size > 0,
            align > 0,
        ensures
            r is Ok <==> fits(size, align),
            r matches Ok(l) ==> l.valid() && l.size() == size && l.align() == align && l
                == Self::of(size as int, align as int),
    {
        if !bits::is_power_of_two(align) {
            return Err(LayoutError);
        }
        proof {
            lemma_largest_power(align);
        }
        let max: usize = isize::MAX as usize - (align - 1);
        if size > max {
            return Err(LayoutError);
        }
        Ok(NonZeroLayout { size, align })
    }

    /// Construct from any size and alignment; zero of either is an error.
    pub fn from_size_align(size: usize, align: usize) -> (r: Result<Self, LayoutError>)
        ensures
            r is Ok <==> size > 0 && fits(size, align),
            r matches Ok(l) ==> l.valid() && l.size() == size && l.align() == align && l
                == Self::of(size as int, align as int),
    {
        proof {
            reveal(is_pow2);
        }
        if size == 0 || align == 0 {
            return Err(LayoutError);
        }
        Self::new(size, align)
    }

    /// Layout for storing one `T`, or `None` if `T` is zero-sized.
    pub fn for_type<T>() -> (r: Option<Self>)
        ensures
            r is Some <==> vstd::layout::size_of::<T>() > 0,
            r matches Some(l) ==> l.size() == vstd::layout::size_of::<T>() && l.align()
                == vstd::layout::align_of::<T>(),
    {
        vstd::layout::layout_for_type_is_valid::<T>();
        let size: usize = core::mem::size_of::<T>();
        let align: usize = core::mem::align_of::<T>();
        proof {
            lemma_std_layout_fits(size, align);
        }
        if size == 0 {
            return None;
        }
        match Self::new(size, align) {
            Ok(layout) => Some(layout),
            Err(_) => None,
        }
    }

    /// Layout for an array of `n` values of `T`, or `None` if `T` is zero-sized, `n` is
    /// zero, or the array would not fit.
    pub fn array<T>(n: usize) -> (r: Option<Self>)
        ensures
            r is Some <==> {
                let total = vstd::layout::size_of::<T>() * n;
                total > 0 && total <= isize::MAX - (vstd::layout::align_of::<T>() - 1)
            },
            r matches Some(l) ==> l.size() == vstd::layout::size_of::<T>() * n && l.align()
                == vstd::layout::align_of::<T>(),
    {
        vstd::layout::layout_for_type_is_valid::<T>();
        let ghost size = vstd::layout::size_of::<T>();
        let elem = match Self::for_type::<T>() {
            Some(l) => l,
            None => {
                assert(size * n == 0) by (nonlinear_arith)
                    requires
                        size == 0,
                ;
                return None;
            },
        };
        let padded = elem.pad_to_align();
        proof {
            bits::lemma_round_up(size as int, elem.align() as int);
            use_type_invariant(&elem);
        }
        let total: usize = match padded.size().checked_mul(n) {
            Some(t) => t,
            None => {
                return None;
            },
        };
        if total == 0 {
            return None;
        }
        match Self::new(total, padded.align()) {
            Ok(l) => Some(l),
            Err(_) => None,
        }
    }

    /// Size in bytes, never zero.
    #[verifier::when_used_as_spec(size_spec)]
    pub fn size(&self) -> (r: usize)
        ensures
            r == self.size(),
            self.valid(),
    {
        proof {
            use_type_invariant(self);
        }
        self.size
    }

    /// Alignment in bytes, a power of two.
    #[verifier::when_used_as_spec(align_spec)]
    pub fn align(&self) -> (r: usize)
        ensures
            r == self.align(),
            self.valid(),
            r > 0,
    {
        proof {
            use_type_invariant(self);
            reveal(is_pow2);
        }
        self.align
    }

    /// The layout with its size rounded up to a multiple of the alignment, as needed to
    /// pack values end to end.
    pub fn pad_to_align(&self) -> (r: Self)
        ensures
            r.size() == bits::round_up(self.size() as int, self.align() as int),
            r.align() == self.align(),
    {
        proof {
            use_type_invariant(self);
            lemma_largest_power(self.align);
            let s = (self.size + self.align - 1) as usize;
            bits::lemma_mask(s, self.align);
            bits::lemma_round_up(self.size as int, self.align as int);
            lemma_round_up_bound(self.size, self.align);
        }
        let padded: usize = (self.size + (self.align - 1)) & !(self.align - 1);
        NonZeroLayout { size: padded, align: self.align }
    }

    /// The same size and alignment as a [`Layout`].
    pub fn to_layout(&self) -> (r: Layout)
        ensures
            r.size() == self.size(),
            r.align() == self.align(),
    {
        proof {
            use_type_invariant(self);
        }
        Layout { size: self.size, align: self.align }
    }
}

/// Rounding a size that fits to its alignment keeps it within the limit.
proof fn lemma_round_up_bound(size: usize, align: usize)
    requires
        fits(size, align),
    ensures
        bits::round_up(size as int, align as int) <= isize::MAX - (align - 1),
{
    let n = bits::lemma_exponent(align);
    lemma_largest_power(align);
    let top = isize::MAX - (align - 1);
    assert(top % (align as int) == 0) by {
        let big: usize = (isize::MAX + 1) as usize;
        lemma2_to64();
        lemma2_to64_rest();
        lemma_pow2((usize::BITS - 1) as nat);
        is_pow2_equiv(big as int);
        bits::lemma_divides(big, align);
        vstd::arithmetic::div_mod::lemma_mod_sub_multiples_vanish(big as int, align as int);
    }
    bits::lemma_round_up_least(size as int, align as int, top as int);
}

/// The limit that the language keeps for the layout of a type is the one used here.
proof fn lemma_std_layout_fits(size: usize, align: usize)
    requires
        vstd::layout::valid_layout(size, align),
    ensures
        fits(size, align),
{
    lemma_largest_power(align);
    let big: usize = (isize::MAX + 1) as usize;
    lemma2_to64();
    lemma2_to64_rest();
    lemma_pow2((usize::BITS - 1) as nat);
    is_pow2_equiv(big as int);
    bits::lemma_divides(big, align);
    vstd::arithmetic::div_mod::lemma_mod_sub_multiples_vanish(big as int, align as int);
    let a = align as int;
    vstd::arithmetic::div_mod::lemma_add_mod_noop(big - a, a - 1, a);
    vstd::arithmetic::div_mod::lemma_small_mod((a - 1) as nat, a as nat);
    assert(isize::MAX as int == (big - a) + (a - 1));
}

/// A layout is determined by its size and its alignment.
pub proof fn lemma_layout_of(size: int, align: int)
    requires
        0 <= size <= usize::MAX,
        0 <= align <= usize::MAX,
    ensures
        NonZeroLayout::of(size, align).size() == size,
        NonZeroLayout::of(size, align).align() == align,
{
}

/// Two layouts of the same size and alignment are the same.
pub proof fn lemma_same_layout(a: NonZeroLayout, b: NonZeroLayout)
    requires
        a.size() == b.size(),
        a.align() == b.align(),
    ensures
        a == b,
{
}

/// Converting a layout keeps its size and its alignment.
pub proof fn lemma_plain_layout(n: NonZeroLayout)
    ensures
        <Layout as vstd::std_specs::convert::FromSpec<NonZeroLayout>>::from_spec(n).size()
            == n.size(),
        <Layout as vstd::std_specs::convert::FromSpec<NonZeroLayout>>::from_spec(n).align()
            == n.align(),
{
}

impl From<NonZeroLayout> for Layout {
    fn from(value: NonZeroLayout) -> (r: Self) {
        value.to_layout()
    }
}

impl vstd::std_specs::convert::FromSpecImpl<NonZeroLayout> for Layout {
    open spec fn obeys_from_spec() -> bool {
        true
    }

    closed spec fn from_spec(v: NonZeroLayout) -> Self {
        Layout { size: v.size, align: v.align }
    }
}

impl TryFrom<Layout> for NonZeroLayout {
    type Error = LayoutError;

    fn try_from(value: Layout) -> (r: Result<Self, LayoutError>) {
        proof {
            use_type_invariant(&value);
        }
        match Self::from_size_align(value.size(), value.align()) {
            Ok(l) => Ok(l),
            Err(_) => Err(LayoutError),
        }
    }
}

impl vstd::std_specs::convert::TryFromSpecImpl<Layout> for NonZeroLayout {
    open spec fn obeys_try_from_spec() -> bool {
        true
    }

    open spec fn try_from_spec(v: Layout) -> Result<Self, LayoutError> {
        if v.size() > 0 {
            Ok(Self::of(v.size() as int, v.align() as int))
        } else {
            Err(LayoutError)
        }
    }
}

/// Padding twice is padding once, a padded size is a multiple of its alignment, and padding
/// never leaves the limit.
pub proof fn padding_is_idempotent(size: usize, align: usize)
    requires
        fits(size, align),
    ensures
        ({
            let padded = bits::round_up(size as int, align as int);
            &&& size <= padded < size + align
            &&& padded % (align as int) == 0
            &&& bits::round_up(padded, align as int) == padded
            &&& fits(padded as usize, align)
        }),
{
    lemma_largest_power(align);
    bits::lemma_round_up(size as int, align as int);
    bits::lemma_round_up(bits::round_up(size as int, align as int), align as int);
    lemma_round_up_bound(size, align);
}

/// A layout survives the way to [`Layout`] and back.
pub proof fn conversions_round_trip(l: NonZeroLayout)
    requires
        l.valid(),
    ensures
        <NonZeroLayout as vstd::std_specs::convert::TryFromSpec<Layout>>::try_from_spec(
            <Layout as vstd::std_specs::convert::FromSpec<NonZeroLayout>>::from_spec(l),
        ) == Ok::<NonZeroLayout, LayoutError>(l),
{
}

} // verus!
