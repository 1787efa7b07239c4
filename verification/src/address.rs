//! Guest physical addresses and address ranges.

use vstd::prelude::*;

verus! {

/// Rounds `origin` up to the next multiple of `align`.
///
/// `None` when `align` is zero or the rounded value does not fit in 64 bits.
pub fn round_up(origin: u64, align: u64) -> (r: Option<u64>)
    ensures
        r == spec_round_up(origin, align),
{
    if align == 0 {
        return None;
    }
    let diff: u64 = origin % align;
    if diff == 0 {
        Some(origin)
    } else {
        origin.checked_add(align - diff)
    }
}

/// Rounds `origin` down to the previous multiple of `align`.
///
/// `None` when `align` is zero.
pub fn round_down(origin: u64, align: u64) -> (r: Option<u64>)
    ensures
        r == spec_round_down(origin, align),
{
    if align == 0 {
        return None;
    }
    let diff: u64 = origin % align;
    assert(diff <= origin) by (nonlinear_arith)
        requires
            align > 0,
            diff == origin % align,
    ;
    Some(origin - diff)
}

/// The least multiple of `align` that is not below `origin`, where it fits.
pub open spec fn spec_round_up(origin: u64, align: u64) -> Option<u64> {
    if align == 0 {
        None
    } else if origin % align == 0 {
        Some(origin)
    } else if origin + (align - origin % align) > u64::MAX {
        None
    } else {
        Some((origin + (align - origin % align)) as u64)
    }
}

/// The greatest multiple of `align` that is not above `origin`.
pub open spec fn spec_round_down(origin: u64, align: u64) -> Option<u64> {
    if align == 0 {
        None
    } else {
        Some((origin - origin % align) as u64)
    }
}

/// A rounded-up value is the least multiple of the alignment at or above
/// the origin.
pub proof fn lemma_round_up_is_least_multiple(origin: u64, align: u64, m: int)
    requires
        align > 0,
        m >= origin,
        m % (align as int) == 0,
    ensures
        m <= u64::MAX ==> spec_round_up(origin, align) is Some,
        spec_round_up(origin, align) matches Some(r) ==> r % align == 0 && origin <= r <= m && r
            - origin < align,
{
    let a = align as int;
    let o = origin as int;
    let d = o % a;
    assert(o == a * (o / a) + d) by (nonlinear_arith)
        requires
            a > 0,
            d == o % a,
    ;
    if d != 0 {
        let up = o - d + a;
        assert(up % a == 0) by (nonlinear_arith)
            requires
                a > 0,
                up == a * (o / a) + a,
        ;
        // m is a multiple of a that is at least o, and o is strictly between
        // two consecutive multiples, so m is at least the upper one.
        assert(m >= up) by (nonlinear_arith)
            requires
                a > 0,
                m % a == 0,
                m >= o,
                o == a * (o / a) + d,
                0 < d < a,
                up == a * (o / a) + a,
        {
            assert(m == a * (m / a));
            assert(m / a > o / a) by (nonlinear_arith)
                requires
                    a > 0,
                    m == a * (m / a),
                    m >= a * (o / a) + d,
                    d > 0,
            ;
            assert(a * (m / a) >= a * (o / a + 1)) by (nonlinear_arith)
                requires
                    a > 0,
                    m / a >= o / a + 1,
            ;
            assert(a * (o / a + 1) == a * (o / a) + a) by (nonlinear_arith);
        }
    }
}

/// A rounded-down value is the greatest multiple of the alignment at or
/// below the origin.
pub proof fn lemma_round_down_is_greatest_multiple(origin: u64, align: u64)
    requires
        align > 0,
    ensures
        spec_round_down(origin, align) matches Some(r) && r % align == 0 && r <= origin && origin
            - r < align,
{
    let a = align as int;
    let o = origin as int;
    let d = o % a;
    assert((o - d) % a == 0 && 0 <= d < a && d <= o) by (nonlinear_arith)
        requires
            a > 0,
            o >= 0,
            d == o % a,
    ;
}

/// A guest physical address.
#[derive(Clone, Copy, Debug, PartialEq, Eq, Structural, PartialOrd, Ord, Hash, Default)]
pub struct GuestAddress(pub u64);

impl GuestAddress {
    /// The address as a plain number.
    pub fn raw_value(self) -> (r: u64)
        ensures
            r == self.0,
    {
        self.0
    }

    /// Distance from `other` up to this address.
    pub fn offset_from(self, other: GuestAddress) -> (r: u64)
        requires
            other.0 <= self.0,
        ensures
            r == self.0 - other.0,
    {
        self.0 - other.0
    }

    /// The address `offset` bytes above, or `None` when it would pass the
    /// end of the 64-bit space.
    pub fn checked_add(self, offset: u64) -> (r: Option<GuestAddress>)
        ensures
            self.0 + offset <= u64::MAX ==> r == Some(GuestAddress((self.0 + offset) as u64)),
            self.0 + offset > u64::MAX ==> r is None,
    {
        match self.0.checked_add(offset) {
            Some(v) => Some(GuestAddress(v)),
            None => None,
        }
    }

    /// The address `offset` bytes below, or `None` when it would pass zero.
    pub fn checked_sub(self, offset: u64) -> (r: Option<GuestAddress>)
        ensures
            offset <= self.0 ==> r == Some(GuestAddress((self.0 - offset) as u64)),
            offset > self.0 ==> r is None,
    {
        match self.0.checked_sub(offset) {
            Some(v) => Some(GuestAddress(v)),
            None => None,
        }
    }

    /// The address `offset` bytes above, for an offset known to be in range.
    pub fn unchecked_add(self, offset: u64) -> (r: GuestAddress)
        requires
            self.0 + offset <= u64::MAX,
        ensures
            r.0 == self.0 + offset,
    {
        GuestAddress(self.0 + offset)
    }

    /// The address `offset` bytes below, for an offset known to be in range.
    pub fn unchecked_sub(self, offset: u64) -> (r: GuestAddress)
        requires
            offset <= self.0,
        ensures
            r.0 == self.0 - offset,
    {
        GuestAddress(self.0 - offset)
    }

    /// The first address at or above this one that is a multiple of
    /// `alignment`.
    pub fn align_up(self, alignment: u64) -> (r: Option<GuestAddress>)
        ensures
            r == match spec_round_up(self.0, alignment) {
                Some(v) => Some(GuestAddress(v)),
                None => None,
            },
    {
        match round_up(self.0, alignment) {
            Some(v) => Some(GuestAddress(v)),
            None => None,
        }
    }

    /// The last address at or below this one that is a multiple of
    /// `alignment`.
    pub fn align_down(self, alignment: u64) -> (r: Option<GuestAddress>)
        ensures
            r == match spec_round_down(self.0, alignment) {
                Some(v) => Some(GuestAddress(v)),
                None => None,
            },
    {
        match round_down(self.0, alignment) {
            Some(v) => Some(GuestAddress(v)),
            None => None,
        }
    }
}

/// A run of guest addresses: `size` bytes starting at `base`.
#[derive(Clone, Copy, Debug, PartialEq, Eq, Structural)]
pub struct AddressRange {
    /// First address of the range.
    pub base: GuestAddress,
    /// Number of bytes in the range.
    pub size: u64,
}

impl AddressRange {
    /// First address of the range, as a mathematical integer.
    pub open spec fn start(self) -> int {
        self.base.0 as int
    }

    /// First address past the range, as a mathematical integer; it may lie
    /// beyond the 64-bit space.
    pub open spec fn end(self) -> int {
        self.base.0 + self.size
    }

    /// Whether the address `a` lies in the range.
    pub open spec fn contains(self, a: int) -> bool {
        self.start() <= a < self.end()
    }

    /// Whether the two ranges share an address.
    pub open spec fn overlaps(self, other: AddressRange) -> bool {
        vstd::math::max(self.start(), other.start()) < vstd::math::min(self.end(), other.end())
    }

    /// The addresses that both ranges hold, where there are any.
    pub open spec fn intersection(self, other: AddressRange) -> Option<AddressRange> {
        if self.overlaps(other) {
            let lo = vstd::math::max(self.start(), other.start());
            let hi = vstd::math::min(self.end(), other.end());
            Some(AddressRange { base: GuestAddress(lo as u64), size: (hi - lo) as u64 })
        } else {
            None
        }
    }

    /// A range of `size` bytes at `base`.
    pub fn new(base: GuestAddress, size: u64) -> (r: AddressRange)
        ensures
            r == (AddressRange { base, size }),
    {
        AddressRange { base, size }
    }

    /// The overlap of this range with `other`, or `None` when they share no
    /// address.
    pub fn find_intersection(&self, other: AddressRange) -> (r: Option<AddressRange>)
        ensures
            r == self.intersection(other),
    {
        let begin: u128 = self.base.0 as u128;
        let end: u128 = begin + self.size as u128;
        let other_begin: u128 = other.base.0 as u128;
        let other_end: u128 = other_begin + other.size as u128;
        let lo: u128 = if begin > other_begin {
            begin
        } else {
            other_begin
        };
        let hi: u128 = if end < other_end {
            end
        } else {
            other_end
        };
        if lo < hi {
            Some(AddressRange { base: GuestAddress(lo as u64), size: (hi - lo) as u64 })
        } else {
            None
        }
    }

    /// First address past the range.
    pub fn end_addr(&self) -> (r: GuestAddress)
        requires
            self.end() <= u64::MAX,
        ensures
            r.0 == self.end(),
    {
        self.base.unchecked_add(self.size)
    }
}

impl From<(u64, u64)> for AddressRange {
    fn from(range: (u64, u64)) -> (r: AddressRange) {
        AddressRange { base: GuestAddress(range.0), size: range.1 }
    }
}

impl vstd::std_specs::convert::FromSpecImpl<(u64, u64)> for AddressRange {
    open spec fn obeys_from_spec() -> bool {
        true
    }

    open spec fn from_spec(range: (u64, u64)) -> AddressRange {
        AddressRange { base: GuestAddress(range.0), size: range.1 }
    }
}

/// Two ranges overlap exactly when some address lies in both.
pub proof fn lemma_overlaps_iff_common_address(a: AddressRange, b: AddressRange)
    ensures
        a.overlaps(b) <==> exists|x: int| a.contains(x) && b.contains(x),
{
    if a.overlaps(b) {
        let x = vstd::math::max(a.start(), b.start());
        assert(a.contains(x) && b.contains(x));
    }
}

/// The intersection holds exactly the addresses that lie in both ranges.
pub proof fn lemma_intersection_contains(a: AddressRange, b: AddressRange, x: int)
    ensures
        match a.intersection(b) {
            Some(r) => r.contains(x) <==> (a.contains(x) && b.contains(x)),
            None => !(a.contains(x) && b.contains(x)),
        },
{
}

} // verus!
