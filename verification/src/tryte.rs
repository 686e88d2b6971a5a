use crate::trit::Trit;
use vstd::prelude::*;

verus! {

pub const TRYTE_MIN: i16 = -364;

pub const TRYTE_MAX: i16 = 364;

/// A six-trit balanced-ternary word, holding a value in -364..=364.
#[derive(Debug, Clone, Copy, PartialEq, Eq, Structural)]
pub struct Tryte(i16);

/// Errors of tryte arithmetic.
#[derive(Debug, Clone, PartialEq, Eq, Structural)]
pub enum TryteError {
    /// The exact result left the range; carries the bound it saturates to.
    Overflow(Tryte),
    DivisionByZero,
}

/// Whether `v` can be held by a tryte.
pub open spec fn in_tryte_range(v: int) -> bool {
    -364 <= v <= 364
}

/// The value of a little-endian sequence of trits.
pub open spec fn trits_value(ts: Seq<Trit>) -> int
    decreases ts.len(),
{
    if ts.len() == 0 {
        0
    } else {
        ts[0].value() + 3 * trits_value(ts.drop_first())
    }
}

/// The lowest balanced-ternary digit of `v`: the member of -1..=1 congruent to `v` mod 3.
pub open spec fn low_digit(v: int) -> int {
    (v + 1) % 3 - 1
}

/// The `n` lowest balanced-ternary digits of `v`, least significant first.
pub open spec fn balanced_digits(v: int, n: nat) -> Seq<Trit>
    decreases n,
{
    if n == 0 {
        Seq::empty()
    } else {
        seq![Trit::of_value(low_digit(v))] + balanced_digits((v - low_digit(v)) / 3, (n - 1) as nat)
    }
}

/// The balanced residue of `p` modulo 729, in -364..=364.
pub open spec fn balanced_mod_729(p: int) -> int {
    (p + 364) % 729 - 364
}

/// Absolute value.
pub open spec fn abs(v: int) -> int {
    if v < 0 {
        -v
    } else {
        v
    }
}

/// Division rounding toward zero.
pub open spec fn trunc_div(a: int, b: int) -> int {
    if (a < 0) != (b < 0) {
        -(abs(a) / abs(b))
    } else {
        abs(a) / abs(b)
    }
}

/// Remainder of division rounding toward zero; it takes the sign of `a`.
pub open spec fn trunc_rem(a: int, b: int) -> int {
    if a < 0 {
        -(abs(a) % abs(b))
    } else {
        abs(a) % abs(b)
    }
}

impl Tryte {
    #[verifier::type_invariant]
    pub closed spec fn in_range(self) -> bool {
        -364 <= self.0 <= 364
    }

    /// The tryte holding `v`, for `v` in range.
    pub closed spec fn from_int(v: int) -> Tryte {
        Tryte(v as i16)
    }

    /// Saturating sum: `Ok` when the exact sum fits, else the bound it crossed.
    pub open spec fn spec_add(self, rhs: Tryte) -> Result<Tryte, TryteError> {
        let s = self@ + rhs@;
        if s > 364 {
            Err(TryteError::Overflow(Tryte::from_int(364)))
        } else if s < -364 {
            Err(TryteError::Overflow(Tryte::from_int(-364)))
        } else {
            Ok(Tryte::from_int(s))
        }
    }

    /// The tryte holding 0.
    pub fn zero() -> (r: Tryte)
        ensures
            r@ == 0,
    {
        Tryte(0)
    }

    /// The tryte holding 1.
    pub fn one() -> (r: Tryte)
        ensures
            r@ == 1,
    {
        Tryte(1)
    }

    /// The tryte holding -1.
    pub fn neg_one() -> (r: Tryte)
        ensures
            r@ == -1,
    {
        Tryte(-1)
    }

    /// The largest tryte, 364.
    pub fn maximum() -> (r: Tryte)
        ensures
            r@ == 364,
    {
        Tryte(TRYTE_MAX)
    }

    /// The smallest tryte, -364.
    pub fn minimum() -> (r: Tryte)
        ensures
            r@ == -364,
    {
        Tryte(TRYTE_MIN)
    }

    /// Builds a tryte from an `i16`; values outside -364..=364 give `None`.
    pub fn from_i16(v: i16) -> (r: Option<Tryte>)
        ensures
            in_tryte_range(v as int) ==> r == Some(Tryte::from_int(v as int)),
            !in_tryte_range(v as int) ==> r is None,
            r matches Some(t) ==> t@ == v,
    {
        if v < TRYTE_MIN || v > TRYTE_MAX {
            None
        } else {
            Some(Tryte(v))
        }
    }

    /// Builds a tryte from six trits, least significant first; never fails.
    pub fn from_trits(ts: [Trit; 6]) -> (r: Tryte)
        ensures
            r@ == trits_value(ts@),
            r == Tryte::from_int(trits_value(ts@)),
    {
        proof {
            lemma_trits_value_6(ts@);
        }
        let v: i16 = ts[0].to_i8() as i16 + 3 * (ts[1].to_i8() as i16) + 9 * (ts[2].to_i8() as i16)
            + 27 * (ts[3].to_i8() as i16) + 81 * (ts[4].to_i8() as i16) + 243 * (
        ts[5].to_i8() as i16);
        Tryte(v)
    }

    /// The value as an `i16`.
    pub fn to_i16(self) -> (r: i16)
        ensures
            r == self@,
            in_tryte_range(r as int),
    {
        proof {
            use_type_invariant(&self);
        }
        self.0
    }

    /// The six balanced-ternary digits, least significant first.
    pub fn to_trits(self) -> (ts: [Trit; 6])
        ensures
            ts@ == balanced_digits(self@, 6),
            trits_value(ts@) == self@,
    {
        proof {
            use_type_invariant(&self);
            reveal_with_fuel(pow3, 7);
            lemma_digits_value(self@, 6);
            reveal_with_fuel(balanced_digits, 7);
        }
        // Shifting by 364 (all ones in ternary) turns balanced digits into plain ones.
        let mut u: u16 = (self.0 + 364) as u16;
        let mut ts: [Trit; 6] = [Trit::Zero; 6];
        let ghost mut w: int = self@;
        let mut i: usize = 0;
        while i < 6
            invariant
                0 <= i <= 6,
                u == w + (pow3((6 - i) as nat) - 1) / 2,
                0 <= u < pow3((6 - i) as nat),
                balanced_digits(self@, 6) == ts@.take(i as int) + balanced_digits(w, (6 - i) as nat),
            decreases 6 - i,
        {
            proof {
                lemma_pow3_step((6 - i) as nat);
                lemma_shifted_digit(w, (pow3((5 - i) as nat) - 1) / 2);
            }
            let d: u16 = u % 3;
            let ghost old_ts = ts@;
            ts[i] = digit_trit(d);
            proof {
                assert(ts@.take(i as int + 1) =~= old_ts.take(i as int) + seq![
                    Trit::of_value(low_digit(w)),
                ]);
                w = (w - low_digit(w)) / 3;
            }
            u = u / 3;
            i = i + 1;
        }
        proof {
            assert(ts@.take(6) =~= ts@);
            assert(balanced_digits(w, 0) =~= Seq::<Trit>::empty());
            assert(ts@ =~= balanced_digits(self@, 6));
        }
        ts
    }

    /// The twelve-bit code of the tryte: two bits per trit, least significant trit lowest.
    pub fn to_bits(self) -> (r: u16)
        ensures
            r == trit_codes(balanced_digits(self@, 6)),
            r < 4096,
    {
        let ts = self.to_trits();
        proof {
            lemma_trit_codes_6(ts@);
        }
        ts[0].to_bits() as u16 + 4 * (ts[1].to_bits() as u16) + 16 * (ts[2].to_bits() as u16) + 64
            * (ts[3].to_bits() as u16) + 256 * (ts[4].to_bits() as u16) + 1024 * (
        ts[5].to_bits() as u16)
    }

    /// Decodes a twelve-bit code; a field `11` anywhere gives `None`. Bits above
    /// the twelfth are ignored.
    pub fn from_bits(bits: u16) -> (r: Option<Tryte>)
        ensures
            r == spec_tryte_from_bits(bits),
    {
        let mut ts: [Trit; 6] = [Trit::Zero; 6];
        let mut divisor: u16 = 1;
        let mut i: usize = 0;
        while i < 6
            invariant
                0 <= i <= 6,
                divisor == pow4(i as nat),
                i < 6 ==> divisor <= 1024,
                forall|j: int| 0 <= j < i ==> bit_field(bits, j) != 3,
                forall|j: int| 0 <= j < i ==> ts@[j] == code_trit(bit_field(bits, j)),
            decreases 6 - i,
        {
            proof {
                reveal_with_fuel(pow4, 7);
            }
            let field: u16 = (bits / divisor) % 4;
            let byte: u8 = field as u8;
            assert(byte & 3 == byte) by (bit_vector)
                requires
                    byte < 4,
            ;
            match Trit::from_bits(byte) {
                Some(t) => {
                    ts[i] = t;
                },
                None => {
                    assert(bit_field(bits, i as int) == 3);
                    return None;
                },
            }
            divisor = divisor * 4;
            i = i + 1;
        }
        proof {
            assert(ts@ =~= field_trits(bits));
        }
        Some(Tryte::from_trits(ts))
    }

    /// Addition; a sum outside the range gives `Overflow` with the bound it crossed.
    pub fn add(self, rhs: Tryte) -> (r: Result<Tryte, TryteError>)
        ensures
            r == self.spec_add(rhs),
            in_tryte_range(self@ + rhs@) ==> (r matches Ok(t) && t@ == self@ + rhs@),
            self@ + rhs@ > 364 ==> (r matches Err(TryteError::Overflow(t)) && t@ == 364),
            self@ + rhs@ < -364 ==> (r matches Err(TryteError::Overflow(t)) && t@ == -364),
    {
        proof {
            use_type_invariant(&self);
            use_type_invariant(&rhs);
        }
        let sum: i32 = self.0 as i32 + rhs.0 as i32;
        if sum > TRYTE_MAX as i32 {
            Err(TryteError::Overflow(Tryte(TRYTE_MAX)))
        } else if sum < TRYTE_MIN as i32 {
            Err(TryteError::Overflow(Tryte(TRYTE_MIN)))
        } else {
            Ok(Tryte(sum as i16))
        }
    }

    /// Subtraction, as addition of the negation; saturates like `add`.
    pub fn sub(self, rhs: Tryte) -> (r: Result<Tryte, TryteError>)
        ensures
            r == self.spec_add(Tryte::from_int(-rhs@)),
            in_tryte_range(self@ - rhs@) ==> (r matches Ok(t) && t@ == self@ - rhs@),
            self@ - rhs@ > 364 ==> (r matches Err(TryteError::Overflow(t)) && t@ == 364),
            self@ - rhs@ < -364 ==> (r matches Err(TryteError::Overflow(t)) && t@ == -364),
    {
        proof {
            use_type_invariant(&rhs);
        }
        self.add(Tryte(-rhs.0))
    }

    /// The full product as (high, low) trytes: `high * 729 + low` is the exact
    /// product and `low` is its balanced residue modulo 729. Never overflows.
    pub fn mul_wide(self, rhs: Tryte) -> (r: (Tryte, Tryte))
        ensures
            r.1@ == balanced_mod_729(self@ * rhs@),
            r.0@ == (self@ * rhs@ - r.1@) / 729,
            r.0@ * 729 + r.1@ == self@ * rhs@,
            -364 <= r.1@ <= 364,
    {
        proof {
            use_type_invariant(&self);
            use_type_invariant(&rhs);
        }
        let a: i32 = self.0 as i32;
        let b: i32 = rhs.0 as i32;
        assert(-132496 <= a * b <= 132496) by (nonlinear_arith)
            requires
                -364 <= a <= 364,
                -364 <= b <= 364,
        ;
        let product: i32 = a * b;
        // 146164 is 364 plus a multiple of 729, large enough to make the dividend non-negative.
        let shifted: i32 = product + 146164;
        let lo: i32 = shifted % 729 - 364;
        let hi: i32 = (product - lo) / 729;
        proof {
            assert(shifted % 729 == (product + 364) % 729);
        }
        (Tryte(hi as i16), Tryte(lo as i16))
    }

    /// Division rounding toward zero; a zero divisor gives `DivisionByZero`.
    pub fn div(self, rhs: Tryte) -> (r: Result<Tryte, TryteError>)
        ensures
            rhs@ == 0 ==> r == Err::<Tryte, TryteError>(TryteError::DivisionByZero),
            rhs@ != 0 ==> (r matches Ok(t) && t@ == trunc_div(self@, rhs@)),
            rhs@ != 0 ==> r == Ok::<Tryte, TryteError>(Tryte::from_int(trunc_div(self@, rhs@))),
    {
        proof {
            use_type_invariant(&self);
            use_type_invariant(&rhs);
        }
        if rhs.0 == 0 {
            return Err(TryteError::DivisionByZero);
        }
        let a: i16 = if self.0 < 0 { -self.0 } else { self.0 };
        let b: i16 = if rhs.0 < 0 { -rhs.0 } else { rhs.0 };
        let q: i16 = a / b;
        assert(q <= a) by (nonlinear_arith)
            requires
                q == a / b,
                a >= 0,
                b >= 1,
        ;
        let quotient: i16 = if (self.0 < 0) != (rhs.0 < 0) { -q } else { q };
        if quotient > TRYTE_MAX {
            Ok(Tryte(TRYTE_MAX))
        } else if quotient < TRYTE_MIN {
            Ok(Tryte(TRYTE_MIN))
        } else {
            Ok(Tryte(quotient))
        }
    }

    /// Remainder of the division rounding toward zero; it has the sign of `self`.
    /// A zero divisor gives `DivisionByZero`.
    pub fn rem(self, rhs: Tryte) -> (r: Result<Tryte, TryteError>)
        ensures
            rhs@ == 0 ==> r == Err::<Tryte, TryteError>(TryteError::DivisionByZero),
            rhs@ != 0 ==> (r matches Ok(t) && t@ == trunc_rem(self@, rhs@)),
            rhs@ != 0 ==> r == Ok::<Tryte, TryteError>(Tryte::from_int(trunc_rem(self@, rhs@))),
    {
        proof {
            use_type_invariant(&self);
            use_type_invariant(&rhs);
        }
        if rhs.0 == 0 {
            return Err(TryteError::DivisionByZero);
        }
        let a: i16 = if self.0 < 0 { -self.0 } else { self.0 };
        let b: i16 = if rhs.0 < 0 { -rhs.0 } else { rhs.0 };
        let m: i16 = a % b;
        assert(m <= a) by (nonlinear_arith)
            requires
                m == a % b,
                a >= 0,
                b >= 1,
        ;
        Ok(Tryte(if self.0 < 0 { -m } else { m }))
    }

    /// Negation; never fails since the range is symmetric.
    pub fn neg(self) -> (r: Tryte)
        ensures
            r@ == -self@,
            r == Tryte::from_int(-self@),
    {
        proof {
            use_type_invariant(&self);
        }
        Tryte(-self.0)
    }
}

/// The trit for a plain base-3 digit `d` shifted down by one.
fn digit_trit(d: u16) -> (t: Trit)
    requires
        d < 3,
    ensures
        t.value() == d - 1,
        t == Trit::of_value(d - 1),
{
    if d == 0 {
        Trit::NegOne
    } else if d == 1 {
        Trit::Zero
    } else {
        Trit::One
    }
}

impl View for Tryte {
    type V = int;

    closed spec fn view(&self) -> int {
        self.0 as int
    }
}

/// A tryte built from a value in range holds that value.
pub broadcast proof fn lemma_from_int_view(v: int)
    requires
        in_tryte_range(v),
    ensures
        #[trigger] Tryte::from_int(v)@ == v,
{
}

/// A tryte is determined by its value.
pub broadcast proof fn lemma_from_view(t: Tryte)
    ensures
        #[trigger] Tryte::from_int(t@) == t,
{
}

/// Six trits spell out their value term by term.
pub proof fn lemma_trits_value_6(ts: Seq<Trit>)
    requires
        ts.len() == 6,
    ensures
        trits_value(ts) == ts[0].value() + 3 * ts[1].value() + 9 * ts[2].value() + 27
            * ts[3].value() + 81 * ts[4].value() + 243 * ts[5].value(),
        in_tryte_range(trits_value(ts)),
{
    reveal_with_fuel(trits_value, 7);
    assert(ts.drop_first().drop_first().drop_first().drop_first().drop_first().drop_first().len()
        == 0);
}

/// The lowest digit of `v` and the rest recombine to `v`.
proof fn lemma_low_digit(v: int)
    ensures
        -1 <= low_digit(v) <= 1,
        (v - low_digit(v)) % 3 == 0,
        v == low_digit(v) + 3 * ((v - low_digit(v)) / 3),
{
}

/// `n` balanced digits of `v` spell `v` whenever `v` fits in `n` digits.
pub proof fn lemma_digits_value(v: int, n: nat)
    requires
        abs(v) <= (pow3(n) - 1) / 2,
    ensures
        balanced_digits(v, n).len() == n,
        trits_value(balanced_digits(v, n)) == v,
    decreases n,
{
    if n == 0 {
    } else {
        lemma_low_digit(v);
        let d = low_digit(v);
        let w = (v - d) / 3;
        lemma_pow3_step(n);
        let k = (pow3((n - 1) as nat) - 1) / 2;
        assert(abs(w) <= k);
        lemma_digits_value(w, (n - 1) as nat);
        let s = balanced_digits(v, n);
        assert(s.drop_first() =~= balanced_digits(w, (n - 1) as nat));
    }
}

/// Powers of four.
pub open spec fn pow4(n: nat) -> int
    decreases n,
{
    if n == 0 {
        1
    } else {
        4 * pow4((n - 1) as nat)
    }
}

/// The two-bit field number `i` of `bits`.
pub open spec fn bit_field(bits: u16, i: int) -> int {
    (bits as int / pow4(i as nat)) % 4
}

/// The trit with two-bit code `c` (0, 1 or 2).
pub open spec fn code_trit(c: int) -> Trit {
    if c == 0 {
        Trit::NegOne
    } else if c == 1 {
        Trit::Zero
    } else {
        Trit::One
    }
}

/// The six trits coded by the low twelve bits of `bits`.
pub open spec fn field_trits(bits: u16) -> Seq<Trit> {
    Seq::new(6, |i: int| code_trit(bit_field(bits, i)))
}

/// The tryte coded by `bits`, unless one of its six fields is `11`.
pub open spec fn spec_tryte_from_bits(bits: u16) -> Option<Tryte> {
    if exists|i: int| 0 <= i < 6 && bit_field(bits, i) == 3 {
        None
    } else {
        Some(Tryte::from_int(trits_value(field_trits(bits))))
    }
}

/// The codes of a sequence of trits, two bits each, first trit lowest.
pub open spec fn trit_codes(ts: Seq<Trit>) -> int
    decreases ts.len(),
{
    if ts.len() == 0 {
        0
    } else {
        ts[0].code() + 4 * trit_codes(ts.drop_first())
    }
}

/// Six trit codes spelled out term by term.
pub proof fn lemma_trit_codes_6(ts: Seq<Trit>)
    requires
        ts.len() == 6,
    ensures
        trit_codes(ts) == ts[0].code() + 4 * ts[1].code() + 16 * ts[2].code() + 64 * ts[3].code()
            + 256 * ts[4].code() + 1024 * ts[5].code(),
{
    reveal_with_fuel(trit_codes, 7);
    assert(ts.drop_first().drop_first().drop_first().drop_first().drop_first().drop_first().len()
        == 0);
}

/// Powers of three.
pub open spec fn pow3(n: nat) -> int
    decreases n,
{
    if n == 0 {
        1
    } else {
        3 * pow3((n - 1) as nat)
    }
}

/// The digit of `v` read off the shifted value `v + 1 + 3h`.
proof fn lemma_shifted_digit(v: int, h: int)
    ensures
        low_digit(v) == (v + 1 + 3 * h) % 3 - 1,
        (v + 1 + 3 * h) / 3 == (v - low_digit(v)) / 3 + h,
{
}

proof fn lemma_pow3_step(n: nat)
    requires
        n > 0,
    ensures
        pow3(n) == 3 * pow3((n - 1) as nat),
        pow3(n) >= 1,
        pow3(n) % 2 == 1,
        pow3((n - 1) as nat) % 2 == 1,
    decreases n,
{
    reveal_with_fuel(pow3, 2);
    if n > 1 {
        lemma_pow3_step((n - 1) as nat);
    } else {
        assert(pow3(0) == 1);
        assert(pow3(1) == 3);
    }
}

} // verus!

verus! {

/// The value of a sequence of trits fixes the trits: a sequence is exactly the
/// balanced digits of its value.
pub proof fn lemma_digits_of_value(ts: Seq<Trit>)
    ensures
        balanced_digits(trits_value(ts), ts.len()) == ts,
    decreases ts.len(),
{
    if ts.len() > 0 {
        let v = trits_value(ts);
        let rest = ts.drop_first();
        lemma_digits_of_value(rest);
        assert(low_digit(v) == ts[0].value());
        assert((v - low_digit(v)) / 3 == trits_value(rest));
        assert(balanced_digits(v, ts.len()) =~= seq![ts[0]] + rest);
        assert(seq![ts[0]] + rest =~= ts);
    }
}

/// Two trit sequences of one length with the same value are equal.
pub proof fn lemma_trits_injective(a: Seq<Trit>, b: Seq<Trit>)
    requires
        a.len() == b.len(),
        trits_value(a) == trits_value(b),
    ensures
        a == b,
{
    lemma_digits_of_value(a);
    lemma_digits_of_value(b);
}

/// Trits of a tryte value give the value back, and decoding the bit code of a
/// tryte value gives the tryte back.
#[verifier::spinoff_prover]
#[verifier::rlimit(40)]
pub proof fn lemma_bits_roundtrip(v: int)
    requires
        in_tryte_range(v),
    ensures
        trits_value(balanced_digits(v, 6)) == v,
        spec_tryte_from_bits(trit_codes(balanced_digits(v, 6)) as u16) == Some(Tryte::from_int(v)),
{
    reveal_with_fuel(pow3, 7);
    lemma_digits_value(v, 6);
    let ts = balanced_digits(v, 6);
    lemma_trit_codes_6(ts);
    let bits = trit_codes(ts) as u16;
    reveal_with_fuel(pow4, 7);
    let c0 = ts[0].code() as int;
    let c1 = ts[1].code() as int;
    let c2 = ts[2].code() as int;
    let c3 = ts[3].code() as int;
    let c4 = ts[4].code() as int;
    let c5 = ts[5].code() as int;
    let b = bits as int;
    assert(b == c0 + 4 * c1 + 16 * c2 + 64 * c3 + 256 * c4 + 1024 * c5);
    assert(pow4(0) == 1 && pow4(1) == 4 && pow4(2) == 16 && pow4(3) == 64 && pow4(4) == 256
        && pow4(5) == 1024);
    assert(b / 4 == c1 + 4 * c2 + 16 * c3 + 64 * c4 + 256 * c5);
    assert(b / 16 == c2 + 4 * c3 + 16 * c4 + 64 * c5);
    assert(b / 64 == c3 + 4 * c4 + 16 * c5);
    assert(b / 256 == c4 + 4 * c5);
    assert(b / 1024 == c5);
    assert(bit_field(bits, 0) == c0);
    assert(bit_field(bits, 1) == c1);
    assert(bit_field(bits, 2) == c2);
    assert(bit_field(bits, 3) == c3);
    assert(bit_field(bits, 4) == c4);
    assert(bit_field(bits, 5) == c5);
    assert(field_trits(bits) =~= ts);
}

} // verus!

verus! {

/// The glyphs of the six digits of `v`, most significant first.
pub open spec fn msb_glyphs(v: int) -> Seq<char> {
    Seq::new(6, |i: int| balanced_digits(v, 6)[5 - i].glyph())
}

/// `g` with its leading '0' glyphs dropped, unless `started`.
pub open spec fn drop_leading_zeros(g: Seq<char>, started: bool) -> Seq<char>
    decreases g.len(),
{
    if g.len() == 0 {
        g
    } else if !started && g[0] == '0' {
        drop_leading_zeros(g.drop_first(), false)
    } else {
        seq![g[0]] + drop_leading_zeros(g.drop_first(), true)
    }
}

/// The balanced-ternary spelling of a tryte value, most significant trit first,
/// without leading zeros; zero is spelled "0".
pub open spec fn ternary_text(v: int) -> Seq<char> {
    let r = drop_leading_zeros(msb_glyphs(v), false);
    if r.len() == 0 {
        seq!['0']
    } else {
        r
    }
}

/// What a string in the ternary notation spells, read most significant first:
/// the trits, or the first character that is not 'T', 't', '0' or '1'.
pub open spec fn scan_trits(cs: Seq<char>) -> Result<Seq<Trit>, char>
    decreases cs.len(),
{
    if cs.len() == 0 {
        Ok(Seq::empty())
    } else {
        let c = cs[0];
        let t = if c == 'T' || c == 't' {
            Some(Trit::NegOne)
        } else if c == '0' {
            Some(Trit::Zero)
        } else if c == '1' {
            Some(Trit::One)
        } else {
            None
        };
        match t {
            None => Err(c),
            Some(t) => match scan_trits(cs.drop_first()) {
                Ok(rest) => Ok(seq![t] + rest),
                Err(e) => Err(e),
            },
        }
    }
}

/// The result of reading a tryte in balanced-ternary notation: white space around
/// it is ignored; an empty text, more than six trits, or a character other than
/// 'T', 't', '0', '1' is refused with a message.
pub open spec fn spec_parse_ternary(s: Seq<char>) -> Result<int, Seq<char>> {
    let t = crate::text::trim(s);
    if t.len() == 0 {
        Err("empty string"@)
    } else if t.len() > 6 {
        Err("too many trits: "@ + crate::text::nat_text(t.len()))
    } else {
        match scan_trits(t) {
            Err(c) => Err("invalid char '"@ + seq![c] + "'"@),
            Ok(msb) => Ok(trits_value(msb.reverse())),
        }
    }
}

impl Tryte {
    /// The balanced-ternary spelling, most significant trit first, no leading zeros.
    pub fn to_string(&self) -> (s: String)
        ensures
            s@ == ternary_text(self@),
    {
        let ts = self.to_trits();
        let ghost g = msb_glyphs(self@);
        let mut s = String::new();
        let mut started = false;
        let mut k: usize = 0;
        proof {
            assert(g.skip(0) =~= g);
            assert(s@ + drop_leading_zeros(g, false) =~= drop_leading_zeros(g, false));
        }
        while k < 6
            invariant
                0 <= k <= 6,
                g == msb_glyphs(self@),
                ts@ == balanced_digits(self@, 6),
                s@ + drop_leading_zeros(g.skip(k as int), started) == drop_leading_zeros(g, false),
                !started ==> s@.len() == 0,
                started ==> s@.len() > 0,
            decreases 6 - k,
        {
            let t = ts[5 - k];
            proof {
                assert(g.skip(k as int)[0] == t.glyph());
                assert(g.skip(k as int).drop_first() =~= g.skip(k as int + 1));
            }
            if t != Trit::Zero || started {
                crate::text::push_char(&mut s, t.to_char());
                started = true;
            }
            k = k + 1;
        }
        proof {
            assert(g.skip(6) =~= Seq::<char>::empty());
            assert(s@ =~= drop_leading_zeros(g, false));
        }
        if !started {
            crate::text::push_char(&mut s, '0');
        }
        s
    }

    /// Reads a tryte written in balanced ternary, most significant trit first
    /// (`"1T0"` is 6), as `str::parse` does through `FromStr`.
    pub fn parse_ternary(s: &str) -> (r: Result<Tryte, String>)
        ensures
            match spec_parse_ternary(s@) {
                Ok(v) => r == Ok::<Tryte, String>(Tryte::from_int(v)) && in_tryte_range(v),
                Err(m) => r matches Err(e) && e@ == m,
            },
    {
        proof {
            reveal_strlit("empty string");
            reveal_strlit("too many trits: ");
            reveal_strlit("invalid char '");
            reveal_strlit("'");
        }
        let all = crate::text::chars_of(s);
        let t = crate::text::trim_chars(all.as_slice());
        let len = t.len();
        if len == 0 {
            let m = crate::text::string_of(
                &['e', 'm', 'p', 't', 'y', ' ', 's', 't', 'r', 'i', 'n', 'g'],
            );
            proof {
                assert(m@ =~= "empty string"@);
            }
            return Err(m);
        }
        if len > 6 {
            let mut m = crate::text::string_of(
                &['t', 'o', 'o', ' ', 'm', 'a', 'n', 'y', ' ', 't', 'r', 'i', 't', 's', ':', ' '],
            );
            crate::text::push_nat(&mut m, len as u64);
            proof {
                assert(m@ =~= "too many trits: "@ + crate::text::nat_text(len as nat));
            }
            return Err(m);
        }
        let mut ts: [Trit; 6] = [Trit::Zero; 6];
        let mut i: usize = 0;
        proof {
            assert(t@.skip(0) =~= t@);
            assert(ts@.subrange(len as int, len as int).reverse() =~= Seq::<Trit>::empty());
            lemma_prepend_empty(scan_trits(t@));
        }
        while i < len
            invariant
                0 <= i <= len,
                len == t@.len(),
                t@ == crate::text::trim(s@),
                1 <= len <= 6,
                scan_trits(t@) == prepend_trits(
                    ts@.subrange(len - i, len as int).reverse(),
                    scan_trits(t@.skip(i as int)),
                ),
                forall|j: int| len <= j < 6 ==> ts@[j] == Trit::Zero,
            decreases len - i,
        {
            let c = t[i];
            let tr = if c == 'T' || c == 't' {
                Trit::NegOne
            } else if c == '0' {
                Trit::Zero
            } else if c == '1' {
                Trit::One
            } else {
                let mut m = crate::text::string_of(
                    &['i', 'n', 'v', 'a', 'l', 'i', 'd', ' ', 'c', 'h', 'a', 'r', ' ', '\''],
                );
                crate::text::push_char(&mut m, c);
                crate::text::push_char(&mut m, '\'');
                proof {
                    assert(scan_trits(t@.skip(i as int)) == Err::<Seq<Trit>, char>(c));
                    reveal_strlit("invalid char '");
                    reveal_strlit("'");
                    assert(m@ =~= "invalid char '"@ + seq![c] + "'"@);
                }
                return Err(m);
            };
            let ghost old_ts = ts@;
            ts[len - 1 - i] = tr;
            proof {
                assert(t@.skip(i as int).drop_first() =~= t@.skip(i as int + 1));
                assert(ts@.subrange(len - (i + 1), len as int).reverse() =~= old_ts.subrange(
                    len - i,
                    len as int,
                ).reverse() + seq![tr]);
                lemma_prepend_assoc(
                    old_ts.subrange(len - i, len as int).reverse(),
                    tr,
                    scan_trits(t@.skip(i as int + 1)),
                );
            }
            i = i + 1;
        }
        proof {
            assert(t@.skip(len as int) =~= Seq::<char>::empty());
            assert(ts@.subrange(0, len as int).reverse() + Seq::<Trit>::empty()
                =~= ts@.subrange(0, len as int).reverse());
            let msb = ts@.subrange(0, len as int).reverse();
            assert(scan_trits(t@) == Ok::<Seq<Trit>, char>(msb));
            assert(msb.reverse() =~= ts@.subrange(0, len as int));
            lemma_trits_value_zero_tail(ts@, len as int);
            lemma_trits_value_6(ts@);
        }
        Ok(Tryte::from_trits(ts))
    }
}

/// `p` put in front of the trits of a successful scan; errors pass through.
pub open spec fn prepend_trits(p: Seq<Trit>, r: Result<Seq<Trit>, char>) -> Result<Seq<Trit>, char> {
    match r {
        Ok(x) => Ok(p + x),
        Err(e) => Err(e),
    }
}

proof fn lemma_prepend_empty(r: Result<Seq<Trit>, char>)
    ensures
        prepend_trits(Seq::empty(), r) == r,
{
    if let Ok(x) = r {
        assert(Seq::<Trit>::empty() + x =~= x);
    }
}

proof fn lemma_prepend_assoc(p: Seq<Trit>, t: Trit, r: Result<Seq<Trit>, char>)
    ensures
        prepend_trits(p, prepend_trits(seq![t], r)) == prepend_trits(p + seq![t], r),
{
    if let Ok(x) = r {
        assert(p + (seq![t] + x) =~= p + seq![t] + x);
    }
}

/// Trailing zero trits add nothing to a value.
pub proof fn lemma_trits_value_zero_tail(ts: Seq<Trit>, n: int)
    requires
        0 <= n <= ts.len(),
        forall|j: int| n <= j < ts.len() ==> ts[j] == Trit::Zero,
    ensures
        trits_value(ts) == trits_value(ts.subrange(0, n)),
    decreases ts.len(),
{
    if ts.len() > 0 {
        if n == 0 {
            lemma_trits_value_zero_tail(ts.drop_first(), 0);
            assert(ts.drop_first().subrange(0, 0) =~= Seq::<Trit>::empty());
            assert(ts.subrange(0, 0) =~= Seq::<Trit>::empty());
        } else {
            lemma_trits_value_zero_tail(ts.drop_first(), n - 1);
            assert(ts.drop_first().subrange(0, n - 1) =~= ts.subrange(0, n).drop_first());
        }
    }
}

impl std::str::FromStr for Tryte {
    type Err = String;

    fn from_str(s: &str) -> (r: Result<Tryte, String>)
        ensures
            match spec_parse_ternary(s@) {
                Ok(v) => r == Ok::<Tryte, String>(Tryte::from_int(v)) && in_tryte_range(v),
                Err(m) => r matches Err(e) && e@ == m,
            },
    {
        Tryte::parse_ternary(s)
    }
}

} // verus!

verus! {

/// The first `k` of `n` balanced digits are the `k` balanced digits.
pub proof fn lemma_digits_prefix(v: int, n: nat, k: nat)
    requires
        k <= n,
    ensures
        balanced_digits(v, n).subrange(0, k as int) == balanced_digits(v, k),
    decreases k,
{
    lemma_digits_len(v, n);
    if k == 0 {
        assert(balanced_digits(v, n).subrange(0, 0) =~= balanced_digits(v, 0));
    } else {
        let w = (v - low_digit(v)) / 3;
        lemma_digits_prefix(w, (n - 1) as nat, (k - 1) as nat);
        lemma_digits_len(w, (n - 1) as nat);
        assert(balanced_digits(v, n).subrange(0, k as int) =~= seq![Trit::of_value(low_digit(v))]
            + balanced_digits(w, (n - 1) as nat).subrange(0, k - 1));
    }
}

/// `n` balanced digits are `n` trits long.
pub proof fn lemma_digits_len(v: int, n: nat)
    ensures
        balanced_digits(v, n).len() == n,
    decreases n,
{
    if n > 0 {
        lemma_digits_len((v - low_digit(v)) / 3, (n - 1) as nat);
    }
}

/// A value of at most 13 in magnitude is spelled by its three low digits.
pub proof fn lemma_low_three_digits(v: int)
    requires
        -13 <= v <= 13,
    ensures
        trits_value(balanced_digits(v, 6).subrange(0, 3)) == v,
{
    lemma_digits_prefix(v, 6, 3);
    reveal_with_fuel(pow3, 4);
    lemma_digits_value(v, 3);
}

/// The digits of a tryte spell its value.
pub proof fn lemma_tryte_digits(t: Tryte)
    requires
        in_tryte_range(t@),
    ensures
        trits_value(balanced_digits(t@, 6)) == t@,
        Tryte::from_int(trits_value(balanced_digits(t@, 6))) == t,
{
    reveal_with_fuel(pow3, 7);
    lemma_digits_value(t@, 6);
}

/// Dropping leading zero glyphs skips a run of '0's, after which the rest is kept whole.
proof fn lemma_drop_zeros(g: Seq<char>, started: bool) -> (z: int)
    ensures
        0 <= z <= g.len(),
        drop_leading_zeros(g, started) == g.skip(z),
        forall|j: int| 0 <= j < z ==> g[j] == '0',
        started ==> z == 0,
    decreases g.len(),
{
    if g.len() == 0 {
        assert(g.skip(0) =~= g);
        0
    } else if !started && g[0] == '0' {
        let z = lemma_drop_zeros(g.drop_first(), false);
        assert(g.drop_first().skip(z) =~= g.skip(z + 1));
        assert forall|j: int| 0 <= j < z + 1 implies g[j] == '0' by {
            if j > 0 {
                assert(g[j] == g.drop_first()[j - 1]);
            }
        }
        z + 1
    } else {
        let z = lemma_drop_zeros(g.drop_first(), true);
        assert(seq![g[0]] + g.drop_first() =~= g.skip(0));
        0
    }
}

/// Scanning the glyphs of trits gives the trits back.
proof fn lemma_scan_glyphs(ts: Seq<Trit>)
    ensures
        scan_trits(Seq::new(ts.len(), |i: int| ts[i].glyph())) == Ok::<Seq<Trit>, char>(ts),
    decreases ts.len(),
{
    let g = Seq::new(ts.len(), |i: int| ts[i].glyph());
    if ts.len() > 0 {
        lemma_scan_glyphs(ts.drop_first());
        assert(g.drop_first() =~= Seq::new(ts.drop_first().len(), |i: int| ts.drop_first()[i].glyph()));
        assert(seq![ts[0]] + ts.drop_first() =~= ts);
    } else {
        assert(ts =~= Seq::<Trit>::empty());
    }
}

/// Reading the balanced-ternary spelling of a tryte value gives the value back.
pub proof fn lemma_text_roundtrip(v: int)
    requires
        in_tryte_range(v),
    ensures
        spec_parse_ternary(ternary_text(v)) == Ok::<int, Seq<char>>(v),
        crate::text::trim(ternary_text(v)) == ternary_text(v),
        0 < ternary_text(v).len() <= 6,
{
    reveal_with_fuel(pow3, 7);
    lemma_digits_value(v, 6);
    let d = balanced_digits(v, 6);
    let g = msb_glyphs(v);
    let z = lemma_drop_zeros(g, false);
    let text = ternary_text(v);
    let n = 6 - z;
    assert forall|j: int| n <= j < 6 implies d[j] == Trit::Zero by {
        assert(g[5 - j] == d[j].glyph());
    }
    lemma_trits_value_zero_tail(d, n);
    if z == 6 {
        assert(g.skip(6) =~= Seq::<char>::empty());
        assert(d.subrange(0, 0) =~= Seq::<Trit>::empty());
        assert(text == seq!['0']);
        let one = seq![Trit::Zero];
        lemma_scan_glyphs(one);
        assert(Seq::new(1, |i: int| one[i].glyph()) =~= text);
        assert(one.reverse() =~= one);
        assert(one.drop_first() =~= Seq::<Trit>::empty());
        assert(trits_value(one) == 0);
        assert(crate::text::trim_start(text) == text);
        assert(crate::text::trim_end(text) == text);
    } else {
        let m = Seq::new(n as nat, |i: int| d[5 - z - i]);
        assert(g.skip(z) =~= Seq::new(m.len(), |i: int| m[i].glyph()));
        lemma_scan_glyphs(m);
        assert(m.reverse() =~= d.subrange(0, n));
        assert(text == g.skip(z));
        assert(crate::text::trim_start(text) == text);
        assert(crate::text::trim_end(text) == text);
    }
}

/// Negating a tryte twice gives it back.
pub proof fn lemma_neg_involutive(v: int)
    requires
        in_tryte_range(v),
    ensures
        in_tryte_range(-v),
        Tryte::from_int(-Tryte::from_int(-v)@) == Tryte::from_int(v),
{
}

/// Truncating division and its remainder rebuild the dividend: the quotient
/// times the divisor plus the remainder is the dividend, and the remainder is
/// smaller than the divisor and has the sign of the dividend.
pub proof fn lemma_div_rem(a: int, b: int)
    requires
        b != 0,
    ensures
        trunc_div(a, b) * b + trunc_rem(a, b) == a,
        abs(trunc_rem(a, b)) < abs(b),
        a >= 0 ==> trunc_rem(a, b) >= 0,
        a <= 0 ==> trunc_rem(a, b) <= 0,
{
    let x = abs(a);
    let y = abs(b);
    let q = x / y;
    let r = x % y;
    assert(q * y + r == x && 0 <= r < y) by (nonlinear_arith)
        requires
            y > 0,
            q == x / y,
            r == x % y,
    ;
    if a >= 0 && b > 0 {
    } else if a >= 0 && b < 0 {
        assert(-q * b == q * y) by (nonlinear_arith)
            requires
                y == -b,
        ;
    } else if a < 0 && b > 0 {
        assert(-q * b == -(q * y)) by (nonlinear_arith)
            requires
                y == b,
        ;
    } else {
        assert(q * b == -(q * y)) by (nonlinear_arith)
            requires
                y == -b,
        ;
    }
}

/// A twelve-bit number is the sum of its six base-4 digits.
proof fn lemma_base4_digits(b: u16)
    requires
        b < 4096,
    ensures
        b == b % 4 + 4 * ((b / 4) % 4) + 16 * ((b / 16) % 4) + 64 * ((b / 64) % 4) + 256 * ((b / 256)
            % 4) + 1024 * ((b / 1024) % 4),
{
    assert(b == b % 4 + 4 * ((b / 4) % 4) + 16 * ((b / 16) % 4) + 64 * ((b / 64) % 4) + 256 * ((b
        / 256) % 4) + 1024 * ((b / 1024) % 4)) by (bit_vector)
        requires
            b < 4096,
    ;
}

/// The six fields of a code, read as trits, have those fields as their codes
/// when no field is `11`.
proof fn lemma_field_codes(bits: u16)
    requires
        forall|i: int| 0 <= i < 6 ==> bit_field(bits, i) != 3,
    ensures
        forall|i: int| 0 <= i < 6 ==> #[trigger] field_trits(bits)[i].code() == bit_field(bits, i),
{
    assert forall|i: int| 0 <= i < 6 implies #[trigger] field_trits(bits)[i].code() == bit_field(bits, i) by {
        let c = bit_field(bits, i);
        assert(0 <= c < 4);
    }
}

/// Encoding the tryte that a valid bit code decodes to gives the bit code
/// back: for a code below 4096 with no field `11`, `to_bits(from_bits(b)) == b`.
pub proof fn lemma_codes_roundtrip(bits: u16)
    requires
        bits < 4096,
        spec_tryte_from_bits(bits) is Some,
    ensures
        ({
            let t = spec_tryte_from_bits(bits)->Some_0;
            &&& in_tryte_range(t@)
            &&& trit_codes(balanced_digits(t@, 6)) == bits
        }),
{
    let ts = field_trits(bits);
    assert(forall|i: int| 0 <= i < 6 ==> bit_field(bits, i) != 3);
    lemma_field_codes(bits);
    lemma_trits_value_6(ts);
    lemma_digits_of_value(ts);
    lemma_trit_codes_6(ts);
    lemma_base4_digits(bits);
    reveal_with_fuel(pow4, 7);
    assert(ts[0].code() == bit_field(bits, 0));
    assert(ts[1].code() == bit_field(bits, 1));
    assert(ts[2].code() == bit_field(bits, 2));
    assert(ts[3].code() == bit_field(bits, 3));
    assert(ts[4].code() == bit_field(bits, 4));
    assert(ts[5].code() == bit_field(bits, 5));
    assert(pow4(0) == 1 && pow4(1) == 4 && pow4(2) == 16 && pow4(3) == 64 && pow4(4) == 256
        && pow4(5) == 1024);
}

/// The truncating quotient and remainder of tryte values are tryte values.
pub proof fn lemma_trunc_in_range(a: int, b: int)
    requires
        in_tryte_range(a),
        in_tryte_range(b),
        b != 0,
    ensures
        in_tryte_range(trunc_div(a, b)),
        in_tryte_range(trunc_rem(a, b)),
{
    let x = abs(a);
    let y = abs(b);
    assert(0 <= x / y <= x) by (nonlinear_arith)
        requires
            x >= 0,
            y >= 1,
    ;
    assert(0 <= x % y < y) by (nonlinear_arith)
        requires
            y >= 1,
    ;
}

} // verus!

