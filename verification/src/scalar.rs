use vstd::prelude::*;

verus! {

/// One scalar quantity of the engine: an exact rational with 64-bit numerator
/// and denominator.  Results whose exact value cannot be represented (division
/// by zero, magnitudes outside the 64-bit range) collapse to `Undefined`,
/// which every operation propagates, in the way ordinary scalar arithmetic
/// propagates its own non-finite values.
#[derive(Clone, Copy, Debug)]
pub enum Scalar {
    /// The exact rational `num / den`; a well-formed value keeps `den >= 1`.
    Rat { num: i64, den: i64 },
    /// Absorbing stand-in for a value outside the representation.
    Undefined,
}

impl Scalar {
    /// Well-formedness: a defined value keeps a positive denominator.
    pub open spec fn wf(self) -> bool {
        match self {
            Scalar::Rat { num: _, den } => den >= 1,
            Scalar::Undefined => true,
        }
    }

    pub open spec fn is_defined(self) -> bool {
        self matches Scalar::Rat { .. }
    }

    pub open spec fn numer(self) -> int {
        match self {
            Scalar::Rat { num, .. } => num as int,
            Scalar::Undefined => 0,
        }
    }

    pub open spec fn denom(self) -> int {
        match self {
            Scalar::Rat { den, .. } => den as int,
            Scalar::Undefined => 0,
        }
    }

    /// Two scalars denote the same value: equal as rationals (by
    /// cross-multiplication), or both `Undefined`.
    pub open spec fn same_value(a: Scalar, b: Scalar) -> bool {
        match (a, b) {
            (Scalar::Rat { num: an, den: ad }, Scalar::Rat { num: bn, den: bd }) => an * bd
                == bn * ad,
            (Scalar::Undefined, Scalar::Undefined) => true,
            _ => false,
        }
    }

    pub open spec fn fits_i64(n: int) -> bool {
        i64::MIN <= n <= i64::MAX
    }

    /// The scalar denoting `n / d` for a positive `d`, where representable.
    pub open spec fn make(n: int, d: int) -> Scalar {
        if Self::fits_i64(n) && 1 <= d <= i64::MAX {
            Scalar::Rat { num: n as i64, den: d as i64 }
        } else {
            Scalar::Undefined
        }
    }

    pub open spec fn zero_spec() -> Scalar {
        Scalar::Rat { num: 0, den: 1 }
    }

    pub open spec fn one_spec() -> Scalar {
        Scalar::Rat { num: 1, den: 1 }
    }

    pub open spec fn two_spec() -> Scalar {
        Scalar::Rat { num: 2, den: 1 }
    }

    /// Exact rational addition: `a/b + c/d == (a*d + c*b) / (b*d)`.
    pub open spec fn add_spec(a: Scalar, b: Scalar) -> Scalar {
        match (a, b) {
            (Scalar::Rat { num: an, den: ad }, Scalar::Rat { num: bn, den: bd }) => Self::make(
                an * bd + bn * ad,
                ad * bd,
            ),
            _ => Scalar::Undefined,
        }
    }

    /// Exact rational multiplication: `a/b * c/d == (a*c) / (b*d)`.
    pub open spec fn mul_spec(a: Scalar, b: Scalar) -> Scalar {
        match (a, b) {
            (Scalar::Rat { num: an, den: ad }, Scalar::Rat { num: bn, den: bd }) => Self::make(
                an * bn,
                ad * bd,
            ),
            _ => Scalar::Undefined,
        }
    }

    /// Exact reciprocal; the reciprocal of zero is `Undefined`.
    pub open spec fn inv_spec(a: Scalar) -> Scalar {
        match a {
            Scalar::Rat { num, den } => if num > 0 {
                Self::make(den as int, num as int)
            } else if num < 0 {
                Self::make(-(den as int), -(num as int))
            } else {
                Scalar::Undefined
            },
            Scalar::Undefined => Scalar::Undefined,
        }
    }

    /// Integer power by repeated multiplication; a negative exponent raises
    /// the reciprocal, and any exponent of zero yields one.
    pub open spec fn pow_spec(a: Scalar, e: int) -> Scalar
        decreases (if e >= 0 { e } else { -e }), (if e >= 0 { 0int } else { 1int }),
    {
        if e == 0 {
            Self::one_spec()
        } else if e > 0 {
            Self::mul_spec(Self::pow_spec(a, e - 1), a)
        } else {
            Self::pow_spec(Self::inv_spec(a), -e)
        }
    }

    /// `max(0, a)` on defined values.
    pub open spec fn relu_spec(a: Scalar) -> Scalar {
        match a {
            Scalar::Rat { num, den: _ } => if num > 0 {
                a
            } else {
                Self::zero_spec()
            },
            Scalar::Undefined => Scalar::Undefined,
        }
    }

    /// The scalar denoting `num / den`; a non-positive denominator is
    /// normalized away or rejected as `Undefined`.
    pub open spec fn new_spec(num: i64, den: i64) -> Scalar {
        if den >= 1 {
            Scalar::Rat { num, den }
        } else if den <= -1 {
            Self::make(-(num as int), -(den as int))
        } else {
            Scalar::Undefined
        }
    }

    /// Whether the value is well formed; for callers outside the
    /// verifier's reach, which cannot see the specification.
    pub fn is_wf(&self) -> (r: bool)
        ensures
            r == self.wf(),
    {
        match *self {
            Scalar::Rat { num: _, den } => den >= 1,
            Scalar::Undefined => true,
        }
    }

    pub fn from_int(n: i64) -> (r: Scalar)
        ensures
            r == (Scalar::Rat { num: n, den: 1 }),
            r.wf(),
    {
        Scalar::Rat { num: n, den: 1 }
    }

    pub fn zero() -> (r: Scalar)
        ensures
            r == Self::zero_spec(),
            r.wf(),
    {
        Scalar::Rat { num: 0, den: 1 }
    }

    pub fn one() -> (r: Scalar)
        ensures
            r == Self::one_spec(),
            r.wf(),
    {
        Scalar::Rat { num: 1, den: 1 }
    }

    pub fn new(num: i64, den: i64) -> (r: Scalar)
        ensures
            r == Self::new_spec(num, den),
            r.wf(),
    {
        if den >= 1 {
            Scalar::Rat { num, den }
        } else if den == i64::MIN || den == 0 || num == i64::MIN {
            Scalar::Undefined
        } else {
            Scalar::Rat { num: -num, den: -den }
        }
    }

    /// Narrows an exactly computed `n / d` back into the representation.
    fn from_parts(n: i128, d: i128) -> (r: Scalar)
        requires
            1 <= d,
        ensures
            r == Self::make(n as int, d as int),
            r.wf(),
    {
        if n < i64::MIN as i128 || n > i64::MAX as i128 || d > i64::MAX as i128 {
            Scalar::Undefined
        } else {
            Scalar::Rat { num: n as i64, den: d as i64 }
        }
    }

    pub fn add(&self, other: &Scalar) -> (r: Scalar)
        requires
            self.wf(),
            other.wf(),
        ensures
            r == Self::add_spec(*self, *other),
            r.wf(),
    {
        match (*self, *other) {
            (Scalar::Rat { num: an, den: ad }, Scalar::Rat { num: bn, den: bd }) => {
                proof {
                    lemma_num_den_product_bound(an as int, bd as int);
                    lemma_num_den_product_bound(bn as int, ad as int);
                    lemma_den_product_bound(ad as int, bd as int);
                }
                let n: i128 = (an as i128) * (bd as i128) + (bn as i128) * (ad as i128);
                let d: i128 = (ad as i128) * (bd as i128);
                Self::from_parts(n, d)
            },
            _ => Scalar::Undefined,
        }
    }

    pub fn mul(&self, other: &Scalar) -> (r: Scalar)
        requires
            self.wf(),
            other.wf(),
        ensures
            r == Self::mul_spec(*self, *other),
            r.wf(),
    {
        match (*self, *other) {
            (Scalar::Rat { num: an, den: ad }, Scalar::Rat { num: bn, den: bd }) => {
                proof {
                    lemma_i64_product_bound(an as int, bn as int);
                    lemma_den_product_bound(ad as int, bd as int);
                }
                let n: i128 = (an as i128) * (bn as i128);
                let d: i128 = (ad as i128) * (bd as i128);
                Self::from_parts(n, d)
            },
            _ => Scalar::Undefined,
        }
    }

    pub fn inv(&self) -> (r: Scalar)
        requires
            self.wf(),
        ensures
            r == Self::inv_spec(*self),
            r.wf(),
    {
        match *self {
            Scalar::Rat { num, den } => {
                if num > 0 {
                    Scalar::Rat { num: den, den: num }
                } else if num == i64::MIN || num == 0 {
                    Scalar::Undefined
                } else {
                    Scalar::Rat { num: -den, den: -num }
                }
            },
            Scalar::Undefined => Scalar::Undefined,
        }
    }

    pub fn pow(&self, e: i64) -> (r: Scalar)
        requires
            self.wf(),
        ensures
            r == Self::pow_spec(*self, e as int),
            r.wf(),
    {
        let base: Scalar;
        let n: u64;
        if e < 0 {
            base = self.inv();
            n = (-(e as i128)) as u64;
        } else {
            base = *self;
            n = e as u64;
        }
        let mut acc = Scalar::Rat { num: 1, den: 1 };
        let mut i: u64 = 0;
        while i < n
            invariant
                i <= n,
                base.wf(),
                acc.wf(),
                acc == Self::pow_spec(base, i as int),
            decreases n - i,
        {
            acc = acc.mul(&base);
            i = i + 1;
        }
        acc
    }

    pub fn relu(&self) -> (r: Scalar)
        requires
            self.wf(),
        ensures
            r == Self::relu_spec(*self),
            r.wf(),
    {
        match *self {
            Scalar::Rat { num, den: _ } => {
                if num > 0 {
                    *self
                } else {
                    Scalar::Rat { num: 0, den: 1 }
                }
            },
            Scalar::Undefined => Scalar::Undefined,
        }
    }
}

impl PartialEq for Scalar {
    /// Equality of denoted values: cross-multiplication on defined values.
    fn eq(&self, other: &Self) -> bool {
        match (*self, *other) {
            (Scalar::Rat { num: an, den: ad }, Scalar::Rat { num: bn, den: bd }) => {
                proof {
                    lemma_i64_product_bound(an as int, bd as int);
                    lemma_i64_product_bound(bn as int, ad as int);
                }
                (an as i128) * (bd as i128) == (bn as i128) * (ad as i128)
            },
            (Scalar::Undefined, Scalar::Undefined) => true,
            _ => false,
        }
    }
}

impl vstd::std_specs::cmp::PartialEqSpecImpl for Scalar {
    open spec fn obeys_eq_spec() -> bool {
        true
    }

    open spec fn eq_spec(&self, other: &Self) -> bool {
        Scalar::same_value(*self, *other)
    }
}

/// A product of two 64-bit values stays within the 128-bit range.
pub proof fn lemma_i64_product_bound(x: int, y: int)
    requires
        -0x8000_0000_0000_0000 <= x <= 0x7fff_ffff_ffff_ffff,
        -0x8000_0000_0000_0000 <= y <= 0x7fff_ffff_ffff_ffff,
    ensures
        -0x4000_0000_0000_0000_0000_0000_0000_0000 <= x * y
            <= 0x4000_0000_0000_0000_0000_0000_0000_0000,
{
    assert(-0x4000_0000_0000_0000_0000_0000_0000_0000 <= x * y
        <= 0x4000_0000_0000_0000_0000_0000_0000_0000) by (nonlinear_arith)
        requires
            -0x8000_0000_0000_0000 <= x <= 0x7fff_ffff_ffff_ffff,
            -0x8000_0000_0000_0000 <= y <= 0x7fff_ffff_ffff_ffff,
    ;
}

/// A numerator times a positive denominator leaves room to add one more
/// such product without leaving the 128-bit range.
pub proof fn lemma_num_den_product_bound(x: int, d: int)
    requires
        -0x8000_0000_0000_0000 <= x <= 0x7fff_ffff_ffff_ffff,
        1 <= d <= 0x7fff_ffff_ffff_ffff,
    ensures
        -0x3fff_ffff_ffff_ffff_8000_0000_0000_0000 <= x * d
            <= 0x3fff_ffff_ffff_ffff_8000_0000_0000_0000,
{
    assert(-0x3fff_ffff_ffff_ffff_8000_0000_0000_0000 <= x * d
        <= 0x3fff_ffff_ffff_ffff_8000_0000_0000_0000) by (nonlinear_arith)
        requires
            -0x8000_0000_0000_0000 <= x <= 0x7fff_ffff_ffff_ffff,
            1 <= d <= 0x7fff_ffff_ffff_ffff,
    ;
}

/// A product of two positive denominators stays positive and bounded.
pub proof fn lemma_den_product_bound(d1: int, d2: int)
    requires
        1 <= d1 <= 0x7fff_ffff_ffff_ffff,
        1 <= d2 <= 0x7fff_ffff_ffff_ffff,
    ensures
        1 <= d1 * d2 <= 0x4000_0000_0000_0000_0000_0000_0000_0000,
{
    assert(1 <= d1 * d2 <= 0x4000_0000_0000_0000_0000_0000_0000_0000) by (nonlinear_arith)
        requires
            1 <= d1 <= 0x7fff_ffff_ffff_ffff,
            1 <= d2 <= 0x7fff_ffff_ffff_ffff,
    ;
}

} // verus!
