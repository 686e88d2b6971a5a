use vstd::prelude::*;

verus! {

/// One balanced-ternary digit: T (-1), 0 or 1.
#[derive(Debug, Clone, Copy, PartialEq, Eq, Structural, PartialOrd, Ord)]
pub enum Trit {
    NegOne,
    Zero,
    One,
}

impl Trit {
    /// The integer a trit stands for.
    pub open spec fn value(self) -> int {
        match self {
            Trit::NegOne => -1,
            Trit::Zero => 0,
            Trit::One => 1,
        }
    }

    /// The trit whose value is `v`, for `v` in -1..=1.
    pub open spec fn of_value(v: int) -> Trit {
        if v < 0 {
            Trit::NegOne
        } else if v == 0 {
            Trit::Zero
        } else {
            Trit::One
        }
    }

    /// The two-bit code of a trit: T = 00, 0 = 01, 1 = 10.
    pub open spec fn code(self) -> u8 {
        match self {
            Trit::NegOne => 0,
            Trit::Zero => 1,
            Trit::One => 2,
        }
    }

    /// Builds a trit from -1, 0 or 1; any other value gives `None`.
    pub fn from_i8(v: i8) -> (r: Option<Trit>)
        ensures
            (-1 <= v <= 1) ==> r == Some(Trit::of_value(v as int)),
            !(-1 <= v <= 1) ==> r is None,
            r matches Some(t) ==> t.value() == v,
    {
        match v {
            -1 => Some(Trit::NegOne),
            0 => Some(Trit::Zero),
            1 => Some(Trit::One),
            _ => None,
        }
    }

    /// The value of the trit as an `i8`.
    pub fn to_i8(self) -> (r: i8)
        ensures
            r == self.value(),
    {
        match self {
            Trit::NegOne => -1,
            Trit::Zero => 0,
            Trit::One => 1,
        }
    }

    /// Negation: T and 1 swap, 0 stays.
    pub open spec fn spec_neg(self) -> Trit {
        Trit::of_value(-self.value())
    }

    /// Balanced-ternary sum of two trits as (sum, carry).
    pub open spec fn spec_add(self, rhs: Trit) -> (Trit, Trit) {
        let s = self.value() + rhs.value();
        if s == -2 {
            (Trit::One, Trit::NegOne)
        } else if s == 2 {
            (Trit::NegOne, Trit::One)
        } else {
            (Trit::of_value(s), Trit::Zero)
        }
    }

    /// Negation: T and 1 swap, 0 stays.
    #[verifier::when_used_as_spec(spec_neg)]
    pub fn neg(self) -> (r: Trit)
        ensures
            r == self.spec_neg(),
            r.value() == -self.value(),
    {
        match self {
            Trit::NegOne => Trit::One,
            Trit::Zero => Trit::Zero,
            Trit::One => Trit::NegOne,
        }
    }

    /// Balanced-ternary addition of two trits: returns (sum, carry)
    /// with `sum + 3 * carry == self + rhs`.
    #[verifier::when_used_as_spec(spec_add)]
    pub fn add(self, rhs: Trit) -> (r: (Trit, Trit))
        ensures
            r == self.spec_add(rhs),
            r.0.value() + 3 * r.1.value() == self.value() + rhs.value(),
    {
        let s: i8 = self.to_i8() + rhs.to_i8();
        match s {
            -2 => (Trit::One, Trit::NegOne),
            -1 => (Trit::NegOne, Trit::Zero),
            0 => (Trit::Zero, Trit::Zero),
            1 => (Trit::One, Trit::Zero),
            _ => (Trit::NegOne, Trit::One),
        }
    }

    /// Subtraction as addition of the negation: (difference, carry)
    /// with `difference + 3 * carry == self - rhs`.
    pub fn sub(self, rhs: Trit) -> (r: (Trit, Trit))
        ensures
            r.0.value() + 3 * r.1.value() == self.value() - rhs.value(),
            r == self.spec_add(rhs.spec_neg()),
    {
        self.add(rhs.neg())
    }

    /// Multiplication of two trits.
    pub fn mul(self, rhs: Trit) -> (r: Trit)
        ensures
            r.value() == self.value() * rhs.value(),
    {
        match (self, rhs) {
            (Trit::NegOne, Trit::NegOne) => Trit::One,
            (Trit::NegOne, Trit::Zero) => Trit::Zero,
            (Trit::NegOne, Trit::One) => Trit::NegOne,
            (Trit::Zero, _) => Trit::Zero,
            (Trit::One, Trit::NegOne) => Trit::NegOne,
            (Trit::One, Trit::Zero) => Trit::Zero,
            (Trit::One, Trit::One) => Trit::One,
        }
    }

    /// The trit whose two-bit code is the low two bits of `bits`, if any.
    pub open spec fn spec_from_bits(bits: u8) -> Option<Trit> {
        let low = bits & 3;
        if low == 0 {
            Some(Trit::NegOne)
        } else if low == 1 {
            Some(Trit::Zero)
        } else if low == 2 {
            Some(Trit::One)
        } else {
            None
        }
    }

    /// Decodes the two low bits of `bits`: 00 is T, 01 is 0, 10 is 1, 11 is `None`.
    #[verifier::when_used_as_spec(spec_from_bits)]
    pub fn from_bits(bits: u8) -> (r: Option<Trit>)
        ensures
            (bits & 3) == 0 ==> r == Some(Trit::NegOne),
            (bits & 3) == 1 ==> r == Some(Trit::Zero),
            (bits & 3) == 2 ==> r == Some(Trit::One),
            (bits & 3) == 3 ==> r is None,
            r matches Some(t) ==> t.code() == (bits & 3),
            r == Trit::spec_from_bits(bits),
    {
        let low: u8 = bits & 3;
        assert(low < 4) by (bit_vector)
            requires
                low == bits & 3,
        ;
        match low {
            0 => Some(Trit::NegOne),
            1 => Some(Trit::Zero),
            2 => Some(Trit::One),
            _ => None,
        }
    }

    /// The two-bit code of the trit.
    pub fn to_bits(self) -> (r: u8)
        ensures
            r == self.code(),
            r < 3,
    {
        match self {
            Trit::NegOne => 0,
            Trit::Zero => 1,
            Trit::One => 2,
        }
    }

    /// The character that shows the trit: 'T', '0' or '1'.
    pub fn to_char(self) -> (c: char)
        ensures
            c == self.glyph(),
    {
        match self {
            Trit::NegOne => 'T',
            Trit::Zero => '0',
            Trit::One => '1',
        }
    }

    /// The trit as text: "T", "0" or "1".
    pub fn to_string(&self) -> (s: String)
        ensures
            s@ == seq![self.glyph()],
    {
        let mut s = String::new();
        crate::text::push_char(&mut s, self.to_char());
        s
    }

    /// The character that shows the trit.
    pub open spec fn glyph(self) -> char {
        match self {
            Trit::NegOne => 'T',
            Trit::Zero => '0',
            Trit::One => '1',
        }
    }
}

/// Negating a trit twice gives it back.
pub proof fn lemma_neg_involutive(t: Trit)
    ensures
        t.neg().neg() == t,
{
}

/// Decoding the code of a trit gives the trit back.
pub proof fn lemma_bits_roundtrip(t: Trit)
    ensures
        Trit::spec_from_bits(t.code()) == Some(t),
{
    assert(0u8 & 3 == 0 && 1u8 & 3 == 1 && 2u8 & 3 == 2) by (bit_vector);
}

/// Every trit is the trit of its own value, and its value lies in -1..=1.
pub proof fn lemma_value_range(t: Trit)
    ensures
        -1 <= t.value() <= 1,
        Trit::of_value(t.value()) == t,
{
}

/// Sum and carry of a trit addition always recombine to the exact sum.
pub proof fn lemma_add_exact(a: Trit, b: Trit)
    ensures
        a.spec_add(b).0.value() + 3 * a.spec_add(b).1.value() == a.value() + b.value(),
{
}

} // verus!
