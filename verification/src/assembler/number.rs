use crate::trit::Trit;
use crate::tryte::{in_tryte_range, lemma_text_roundtrip, scan_trits, ternary_text, trits_value};
use vstd::prelude::*;

verus! {

/// The value of digit `c` in base `radix` (2, 10 or 16), if it is one.
pub open spec fn radix_digit(c: char, radix: int) -> Option<int> {
    let d = if '0' <= c && c <= '9' {
        c as int - '0' as int
    } else if 'a' <= c && c <= 'f' {
        c as int - 'a' as int + 10
    } else if 'A' <= c && c <= 'F' {
        c as int - 'A' as int + 10
    } else {
        radix
    };
    if d < radix {
        Some(d)
    } else {
        None
    }
}

/// The value of a run of base-`radix` digits, most significant first; `None`
/// if a character is not a digit.
pub open spec fn digits_value(s: Seq<char>, radix: int) -> Option<int>
    decreases s.len(),
{
    if s.len() == 0 {
        Some(0)
    } else {
        match (digits_value(s.drop_last(), radix), radix_digit(s.last(), radix)) {
            (Some(v), Some(d)) => Some(v * radix + d),
            _ => None,
        }
    }
}

/// The integer an optionally signed run of base-`radix` digits spells, as
/// `i16::from_str_radix` reads it, without its range check: a lone sign or an
/// empty text spells nothing.
pub open spec fn signed_value(s: Seq<char>, radix: int) -> Option<int> {
    if s.len() == 0 {
        None
    } else if s[0] == '+' || s[0] == '-' {
        if s.len() == 1 {
            None
        } else {
            match digits_value(s.drop_first(), radix) {
                Some(v) => Some(
                    if s[0] == '-' {
                        -v
                    } else {
                        v
                    },
                ),
                None => None,
            }
        }
    } else {
        digits_value(s, radix)
    }
}

/// Keeps a value only when a tryte can hold it.
pub open spec fn in_range(v: Option<int>) -> Option<int> {
    match v {
        Some(x) => if -364 <= x <= 364 {
            Some(x)
        } else {
            None
        },
        None => None,
    }
}

/// The value of balanced-ternary digit `c` ('1', '0', 'T' or 't').
pub open spec fn ternary_digit(c: char) -> Option<int> {
    if c == '1' {
        Some(1)
    } else if c == '0' {
        Some(0)
    } else if c == 'T' || c == 't' {
        Some(-1)
    } else {
        None
    }
}

/// The value of a balanced-ternary text, most significant first.
pub open spec fn ternary_value(s: Seq<char>) -> Option<int>
    decreases s.len(),
{
    if s.len() == 0 {
        Some(0)
    } else {
        match (ternary_value(s.drop_last()), ternary_digit(s.last())) {
            (Some(v), Some(d)) => Some(3 * v + d),
            _ => None,
        }
    }
}

/// A balanced-ternary literal: at most nine digits, value a tryte can hold.
pub open spec fn spec_balanced_ternary(s: Seq<char>) -> Option<int> {
    if s.len() >= 10 {
        None
    } else {
        in_range(ternary_value(s))
    }
}

/// Whether `s` begins with `p`.
pub open spec fn has_prefix(s: Seq<char>, p: Seq<char>) -> bool {
    s.len() >= p.len() && s.subrange(0, p.len() as int) == p
}

/// Whether every character is a balanced-ternary digit and one is 'T' or 't'.
pub open spec fn is_bare_ternary(s: Seq<char>) -> bool {
    &&& s.len() > 0
    &&& exists|i: int| 0 <= i < s.len() && (s[i] == 'T' || s[i] == 't')
    &&& forall|i: int| 0 <= i < s.len() ==> ternary_digit(#[trigger] s[i]) is Some
}

/// A numeric literal of the assembly language: `0x`/`0X` hexadecimal,
/// `0b`/`0B` binary, `0t`/`0T` balanced ternary, bare balanced ternary (digits
/// 1, 0, T with at least one T), or signed decimal; only values in -364..=364.
pub open spec fn spec_parse_number(w: Seq<char>) -> Option<int> {
    if has_prefix(w, seq!['0', 'x']) || has_prefix(w, seq!['0', 'X']) {
        in_range(signed_value(w.skip(2), 16))
    } else if has_prefix(w, seq!['0', 'b']) || has_prefix(w, seq!['0', 'B']) {
        in_range(signed_value(w.skip(2), 2))
    } else if has_prefix(w, seq!['0', 't']) || has_prefix(w, seq!['0', 'T']) {
        spec_balanced_ternary(w.skip(2))
    } else if is_bare_ternary(w) {
        spec_balanced_ternary(w)
    } else {
        in_range(signed_value(w, 10))
    }
}

fn radix_digit_exec(c: char, radix: u32) -> (r: Option<i32>)
    requires
        radix == 2 || radix == 10 || radix == 16,
    ensures
        r matches Some(d) ==> radix_digit(c, radix as int) == Some(d as int),
        r is None ==> radix_digit(c, radix as int) is None,
        r matches Some(d) ==> 0 <= d < radix,
{
    let d: u32 = if '0' <= c && c <= '9' {
        (c as u32) - ('0' as u32)
    } else if 'a' <= c && c <= 'f' {
        (c as u32) - ('a' as u32) + 10
    } else if 'A' <= c && c <= 'F' {
        (c as u32) - ('A' as u32) + 10
    } else {
        radix
    };
    if d < radix {
        Some(d as i32)
    } else {
        None
    }
}

proof fn lemma_digits_value_monotone(s: Seq<char>, radix: int, k: int)
    requires
        radix >= 2,
        0 <= k <= s.len(),
        digits_value(s, radix) is Some,
    ensures
        digits_value(s.subrange(0, k), radix) is Some,
        0 <= digits_value(s.subrange(0, k), radix)->0 <= digits_value(s, radix)->0,
    decreases s.len() - k,
{
    assert(s.subrange(0, s.len() as int) =~= s);
    if k < s.len() {
        let t = s.drop_last();
        assert(digits_value(t, radix) is Some);
        lemma_digits_value_monotone(t, radix, k);
        assert(t.subrange(0, k) =~= s.subrange(0, k));
        lemma_digits_value_nonneg(t, radix);
        let v = digits_value(t, radix)->0;
        let d = radix_digit(s.last(), radix)->0;
        assert(v <= v * radix + d) by (nonlinear_arith)
            requires
                v >= 0,
                radix >= 2,
                d >= 0,
        ;
    } else {
        lemma_digits_value_nonneg(s, radix);
    }
}

proof fn lemma_digits_value_nonneg(s: Seq<char>, radix: int)
    requires
        radix >= 2,
    ensures
        digits_value(s, radix) matches Some(v) ==> v >= 0,
    decreases s.len(),
{
    if s.len() > 0 {
        lemma_digits_value_nonneg(s.drop_last(), radix);
        if let (Some(v), Some(d)) = (digits_value(s.drop_last(), radix), radix_digit(s.last(), radix)) {
            assert(v * radix + d >= 0) by (nonlinear_arith)
                requires
                    v >= 0,
                    radix >= 2,
                    d >= 0,
            ;
        }
    }
}

/// The value of the base-`radix` digits `s[from..]`, or `None` if some
/// character is not a digit or the value exceeds 364.
fn small_digits_value(s: &[char], from: usize, radix: u32) -> (r: Option<i32>)
    requires
        radix == 2 || radix == 10 || radix == 16,
        from <= s.len(),
    ensures
        r matches Some(v) ==> digits_value(s@.skip(from as int), radix as int) == Some(v as int)
            && 0 <= v <= 364,
        r is None ==> (digits_value(s@.skip(from as int), radix as int) matches Some(v) ==> v > 364),
{
    let ghost t = s@.skip(from as int);
    let mut acc: i32 = 0;
    let mut i: usize = from;
    proof {
        assert(t.subrange(0, 0) =~= Seq::<char>::empty());
    }
    while i < s.len()
        invariant
            from <= i <= s.len(),
            t == s@.skip(from as int),
            radix == 2 || radix == 10 || radix == 16,
            digits_value(t.subrange(0, i - from), radix as int) == Some(acc as int),
            0 <= acc <= 364,
        decreases s.len() - i,
    {
        proof {
            assert(t.subrange(0, i - from + 1).drop_last() =~= t.subrange(0, i - from));
        }
        match radix_digit_exec(s[i], radix) {
            None => {
                proof {
                    if digits_value(t, radix as int) is Some {
                        lemma_digits_value_monotone(t, radix as int, i - from + 1);
                    }
                }
                return None;
            },
            Some(d) => {
                let next: i32 = acc * (radix as i32) + d;
                assert(next == acc * radix + d);
                if next > 364 {
                    proof {
                        if digits_value(t, radix as int) is Some {
                            lemma_digits_value_monotone(t, radix as int, i - from + 1);
                        }
                    }
                    return None;
                }
                acc = next;
            },
        }
        i = i + 1;
    }
    proof {
        assert(t.subrange(0, s.len() - from) =~= t);
    }
    Some(acc)
}

/// `i16::from_str_radix(s[from..], radix)` kept only in -364..=364.
fn small_signed_value(s: &[char], from: usize, radix: u32) -> (r: Option<i16>)
    requires
        radix == 2 || radix == 10 || radix == 16,
        from <= s.len(),
    ensures
        r matches Some(v) ==> in_range(signed_value(s@.skip(from as int), radix as int)) == Some(
            v as int,
        ),
        r is None ==> in_range(signed_value(s@.skip(from as int), radix as int)) is None,
{
    let ghost t = s@.skip(from as int);
    if from >= s.len() {
        return None;
    }
    let c = s[from];
    if c == '+' || c == '-' {
        if from + 1 >= s.len() {
            return None;
        }
        proof {
            assert(t.drop_first() =~= s@.skip(from + 1));
        }
        match small_digits_value(s, from + 1, radix) {
            Some(v) => Some(if c == '-' { -(v as i16) } else { v as i16 }),
            None => None,
        }
    } else {
        match small_digits_value(s, from, radix) {
            Some(v) => Some(v as i16),
            None => None,
        }
    }
}

/// Balanced-ternary literal as the assembler reads it: at most nine digits
/// '1', '0', 'T'/'t', most significant first, value in -364..=364.
pub fn parse_balanced_ternary_chars(s: &[char], from: usize) -> (r: Option<i16>)
    requires
        from <= s.len(),
    ensures
        r matches Some(v) ==> spec_balanced_ternary(s@.skip(from as int)) == Some(v as int),
        r is None ==> spec_balanced_ternary(s@.skip(from as int)) is None,
{
    let ghost t = s@.skip(from as int);
    if s.len() - from >= 10 {
        return None;
    }
    let mut val: i16 = 0;
    let mut i: usize = from;
    let ghost mut bound: int = 0;
    proof {
        assert(t.subrange(0, 0) =~= Seq::<char>::empty());
    }
    while i < s.len()
        invariant
            from <= i <= s.len(),
            s.len() - from < 10,
            t == s@.skip(from as int),
            ternary_value(t.subrange(0, i - from)) == Some(val as int),
            -bound <= val <= bound,
            bound == (crate::tryte::pow3((i - from) as nat) - 1) / 2,
            crate::tryte::pow3((i - from) as nat) <= crate::tryte::pow3(9) || i - from <= 9,
        decreases s.len() - i,
    {
        let c = s[i];
        let d: i16 = if c == '1' {
            1
        } else if c == '0' {
            0
        } else if c == 'T' || c == 't' {
            -1
        } else {
            proof {
                assert(t.subrange(0, i - from + 1).drop_last() =~= t.subrange(0, i - from));
                lemma_ternary_prefix_none(t, i - from + 1);
            }
            return None;
        };
        proof {
            lemma_pow3_mono((i - from) as nat);
            assert(t.subrange(0, i - from + 1).drop_last() =~= t.subrange(0, i - from));
        }
        val = 3 * val + d;
        proof {
            bound = 3 * bound + 1;
        }
        i = i + 1;
    }
    proof {
        assert(t.subrange(0, s.len() - from) =~= t);
    }
    if val >= -364 && val <= 364 {
        Some(val)
    } else {
        None
    }
}

proof fn lemma_pow3_mono(n: nat)
    requires
        n < 9,
    ensures
        crate::tryte::pow3(n + 1) == 3 * crate::tryte::pow3(n),
        (crate::tryte::pow3(n + 1) - 1) / 2 == 3 * ((crate::tryte::pow3(n) - 1) / 2) + 1,
        crate::tryte::pow3(n) <= 6561,
        crate::tryte::pow3(n) % 2 == 1,
{
    reveal_with_fuel(crate::tryte::pow3, 10);
}

proof fn lemma_ternary_prefix_none(t: Seq<char>, k: int)
    requires
        0 < k <= t.len(),
        ternary_value(t.subrange(0, k)) is None,
    ensures
        ternary_value(t) is None,
    decreases t.len() - k,
{
    if k < t.len() {
        assert(t.subrange(0, k + 1).drop_last() =~= t.subrange(0, k));
        lemma_ternary_prefix_none(t, k + 1);
    } else {
        assert(t.subrange(0, k) =~= t);
    }
}

} // verus!

verus! {

fn starts_with2(w: &[char], a: char, b: char) -> (r: bool)
    ensures
        r == has_prefix(w@, seq![a, b]),
{
    let r = w.len() >= 2 && w[0] == a && w[1] == b;
    proof {
        if w.len() >= 2 {
            if r {
                assert(w@.subrange(0, 2) =~= seq![a, b]);
            } else {
                assert(w@.subrange(0, 2)[0] == w@[0]);
                assert(w@.subrange(0, 2)[1] == w@[1]);
            }
        }
    }
    r
}

fn bare_ternary(w: &[char]) -> (r: bool)
    ensures
        r == is_bare_ternary(w@),
{
    if w.len() == 0 {
        return false;
    }
    let mut any_t = false;
    let mut i: usize = 0;
    while i < w.len()
        invariant
            0 <= i <= w.len(),
            forall|j: int| 0 <= j < i ==> ternary_digit(#[trigger] w@[j]) is Some,
            any_t <==> exists|j: int| 0 <= j < i && (w@[j] == 'T' || w@[j] == 't'),
        decreases w.len() - i,
    {
        let c = w[i];
        if !(c == 'T' || c == 't' || c == '0' || c == '1') {
            assert(ternary_digit(w@[i as int]) is None);
            return false;
        }
        if c == 'T' || c == 't' {
            any_t = true;
        }
        i = i + 1;
    }
    any_t
}

/// Reads a numeric literal given as characters (see `spec_parse_number`).
pub fn parse_number_chars(w: &[char]) -> (r: Option<i16>)
    ensures
        r matches Some(v) ==> spec_parse_number(w@) == Some(v as int),
        r is None ==> spec_parse_number(w@) is None,
{
    if starts_with2(w, '0', 'x') || starts_with2(w, '0', 'X') {
        small_signed_value(w, 2, 16)
    } else if starts_with2(w, '0', 'b') || starts_with2(w, '0', 'B') {
        small_signed_value(w, 2, 2)
    } else if starts_with2(w, '0', 't') || starts_with2(w, '0', 'T') {
        parse_balanced_ternary_chars(w, 2)
    } else if bare_ternary(w) {
        proof {
            assert(w@.skip(0) =~= w@);
        }
        parse_balanced_ternary_chars(w, 0)
    } else {
        proof {
            assert(w@.skip(0) =~= w@);
        }
        small_signed_value(w, 0, 10)
    }
}

/// Reads a numeric literal of the assembly language: `0x`/`0X` hexadecimal,
/// `0b`/`0B` binary, `0t`/`0T` or bare balanced ternary, or decimal; values
/// outside -364..=364 are refused.
pub fn parse_number(word: &str) -> (r: Option<i16>)
    ensures
        r matches Some(v) ==> spec_parse_number(word@) == Some(v as int),
        r is None ==> spec_parse_number(word@) is None,
{
    let w = crate::text::chars_of(word);
    parse_number_chars(w.as_slice())
}

/// Reads a balanced-ternary literal: at most nine digits '1', '0', 'T'/'t',
/// most significant first; values outside -364..=364 are refused.
pub fn parse_balanced_ternary(s: &str) -> (r: Option<i16>)
    ensures
        r matches Some(v) ==> spec_balanced_ternary(s@) == Some(v as int),
        r is None ==> spec_balanced_ternary(s@) is None,
{
    let w = crate::text::chars_of(s);
    proof {
        assert(w@.skip(0) =~= w@);
    }
    parse_balanced_ternary_chars(w.as_slice(), 0)
}

} // verus!

verus! {

/// Scanning a text of ternary glyphs reads one trit per character, each the
/// trit its glyph stands for.
proof fn lemma_scan_each(s: Seq<char>)
    ensures
        scan_trits(s) matches Ok(m) ==> m.len() == s.len() && forall|i: int|
            0 <= i < s.len() ==> ternary_digit(s[i]) == Some(#[trigger] m[i].value()),
    decreases s.len(),
{
    if s.len() > 0 {
        lemma_scan_each(s.drop_first());
        if let Ok(m) = scan_trits(s) {
            let rest = scan_trits(s.drop_first())->Ok_0;
            assert forall|i: int| 0 <= i < s.len() implies ternary_digit(s[i]) == Some(#[trigger] m[i].value()) by {
                if i > 0 {
                    assert(m[i] == rest[i - 1]);
                    assert(s[i] == s.drop_first()[i - 1]);
                }
            }
        }
    }
}

/// The value of a ternary text, read most significant first, is the value of
/// its trits read least significant first.
proof fn lemma_value_of_trits(s: Seq<char>, m: Seq<Trit>)
    requires
        m.len() == s.len(),
        forall|i: int| 0 <= i < s.len() ==> ternary_digit(s[i]) == Some(#[trigger] m[i].value()),
    ensures
        ternary_value(s) == Some(trits_value(m.reverse())),
    decreases s.len(),
{
    if s.len() > 0 {
        let n = s.len() - 1;
        assert(ternary_digit(s[n]) == Some(m[n].value()));
        lemma_value_of_trits(s.drop_last(), m.drop_last());
        assert(m.reverse().drop_first() =~= m.drop_last().reverse());
        assert(m.reverse()[0] == m[n]);
    } else {
        assert(m.reverse() =~= Seq::<Trit>::empty());
    }
}

/// A `0t` literal spelled as the VM prints a tryte in ternary reads back the
/// tryte's value: the printed spelling is a valid literal of the language.
pub proof fn lemma_printed_ternary_literal(v: int)
    requires
        in_tryte_range(v),
    ensures
        spec_balanced_ternary(ternary_text(v)) == Some(v),
        spec_parse_number(seq!['0', 't'] + ternary_text(v)) == Some(v),
{
    lemma_text_roundtrip(v);
    let text = ternary_text(v);
    lemma_scan_each(text);
    let m = scan_trits(text)->Ok_0;
    lemma_value_of_trits(text, m);
    let w = seq!['0', 't'] + text;
    assert(w.subrange(0, 2) =~= seq!['0', 't']);
    assert(w.skip(2) =~= text);
    assert(w[1] == 't');
}

} // verus!

verus! {

/// Each decimal digit character reads back as its digit.
proof fn lemma_digit_char_value(d: int)
    requires
        0 <= d <= 9,
    ensures
        radix_digit(crate::text::digit_char(d), 10) == Some(d),
        crate::text::digit_char(d) != '+' && crate::text::digit_char(d) != '-',
{
}

/// The decimal spelling of a natural number reads back as that number.
proof fn lemma_nat_text_value(n: nat)
    ensures
        digits_value(crate::text::nat_text(n), 10) == Some(n as int),
        crate::text::nat_text(n).len() > 0,
        crate::text::nat_text(n)[0] != '+' && crate::text::nat_text(n)[0] != '-',
    decreases n,
{
    if n < 10 {
        lemma_digit_char_value(n as int);
        let t = crate::text::nat_text(n);
        assert(t.drop_last() =~= Seq::<char>::empty());
        assert(digits_value(t.drop_last(), 10) == Some(0int));
        assert(t.last() == crate::text::digit_char(n as int));
    } else {
        lemma_nat_text_value(n / 10);
        lemma_digit_char_value((n % 10) as int);
        let t = crate::text::nat_text(n);
        assert(t.drop_last() =~= crate::text::nat_text(n / 10));
        assert(t.last() == crate::text::digit_char((n % 10) as int));
        assert(t[0] == crate::text::nat_text(n / 10)[0]);
        assert((n / 10) as int * 10 + (n % 10) as int == n);
    }
}

/// What the machine prints in decimal is a decimal literal of the assembly
/// language that reads back as the printed value, sign included.
pub proof fn lemma_decimal_text_reads_back(v: int)
    ensures
        signed_value(crate::text::int_text(v), 10) == Some(v),
{
    if v < 0 {
        lemma_nat_text_value((-v) as nat);
        let t = crate::text::int_text(v);
        assert(t.drop_first() =~= crate::text::nat_text((-v) as nat));
    } else {
        lemma_nat_text_value(v as nat);
    }
}

/// Hexadecimal digits are read case-insensitively: `a`..`f` and `A`..`F` are
/// ten to fifteen, `0`..`9` are their own value.
pub proof fn lemma_hex_digits(c: char)
    ensures
        '0' <= c <= '9' ==> radix_digit(c, 16) == Some(c as int - '0' as int),
        'a' <= c <= 'f' ==> radix_digit(c, 16) == Some(10 + (c as int - 'a' as int)),
        'A' <= c <= 'F' ==> radix_digit(c, 16) == Some(10 + (c as int - 'A' as int)),
        !('0' <= c <= '9' || 'a' <= c <= 'f' || 'A' <= c <= 'F') ==> radix_digit(c, 16) is None,
{
}

/// The value of a hexadecimal digit character, either case.
pub open spec fn hex_value(c: char) -> int {
    if '0' <= c <= '9' {
        c as int - '0' as int
    } else if 'a' <= c <= 'f' {
        c as int - 'a' as int + 10
    } else {
        c as int - 'A' as int + 10
    }
}

/// Whether `c` is a hexadecimal digit, either case.
pub open spec fn is_hex_char(c: char) -> bool {
    '0' <= c <= '9' || 'a' <= c <= 'f' || 'A' <= c <= 'F'
}

/// A two-digit `0x` literal, in either case, is the number sixteen times its
/// first digit plus its second.
pub proof fn lemma_hex_literal(a: char, b: char)
    requires
        is_hex_char(a),
        is_hex_char(b),
    ensures
        spec_parse_number(seq!['0', 'x', a, b]) == Some(16 * hex_value(a) + hex_value(b)),
        spec_parse_number(seq!['0', 'X', a, b]) == Some(16 * hex_value(a) + hex_value(b)),
{
    let s = seq![a, b];
    let w = seq!['0', 'x', a, b];
    let w2 = seq!['0', 'X', a, b];
    assert(w.subrange(0, 2) =~= seq!['0', 'x']);
    assert(w.skip(2) =~= s);
    assert(w2.subrange(0, 2) =~= seq!['0', 'X']);
    assert(!(w2.subrange(0, 2) =~= seq!['0', 'x']));
    assert(w2.skip(2) =~= s);
    assert(s.drop_last() =~= seq![a]);
    assert(seq![a].drop_last() =~= Seq::<char>::empty());
    assert(s.last() == b);
    assert(seq![a].last() == a);
    assert(radix_digit(a, 16) == Some(hex_value(a)));
    assert(radix_digit(b, 16) == Some(hex_value(b)));
    assert(digits_value(Seq::<char>::empty(), 16) == Some(0int));
    assert(digits_value(seq![a], 16) == Some(hex_value(a)));
    assert(digits_value(s, 16) == Some(16 * hex_value(a) + hex_value(b)));
    assert(a != '+' && a != '-');
}

} // verus!

