use super::number::{parse_number_chars, spec_parse_number};
use super::token::{Tok, Token, regs_in_range, toks};
use super::{AsmError, AssembleError};
use crate::text::{lit, push_char, push_str, string_of};
use vstd::prelude::*;

verus! {

/// ASCII white space as `char::is_ascii_whitespace` knows it.
pub open spec fn is_ascii_white(c: char) -> bool {
    c == ' ' || c == '\t' || c == '\n' || c == '\x0C' || c == '\r'
}

pub open spec fn is_digit(c: char) -> bool {
    '0' <= c && c <= '9'
}

pub open spec fn is_alpha(c: char) -> bool {
    ('a' <= c && c <= 'z') || ('A' <= c && c <= 'Z')
}

pub open spec fn is_alnum(c: char) -> bool {
    is_digit(c) || is_alpha(c)
}

/// Characters that continue a word: letters, digits and '_'.
pub open spec fn is_word_char(c: char) -> bool {
    is_alnum(c) || c == '_'
}

/// The end of the run of letters starting at `j`.
pub open spec fn alpha_end(cs: Seq<char>, j: int) -> int
    decreases cs.len() - j,
{
    if 0 <= j < cs.len() && is_alpha(cs[j]) {
        alpha_end(cs, j + 1)
    } else {
        j
    }
}

/// The end of the run of word characters starting at `j`.
pub open spec fn word_end(cs: Seq<char>, j: int) -> int
    decreases cs.len() - j,
{
    if 0 <= j < cs.len() && is_word_char(cs[j]) {
        word_end(cs, j + 1)
    } else {
        j
    }
}

/// The position of the first line break at or after `j`, or the end.
pub open spec fn line_end(cs: Seq<char>, j: int) -> int
    decreases cs.len() - j,
{
    if 0 <= j < cs.len() && cs[j] != '\n' {
        line_end(cs, j + 1)
    } else {
        j
    }
}

/// The character an escape `\c` stands for in a string literal.
pub open spec fn escape_of(c: char) -> Option<char> {
    if c == 'n' {
        Some('\n')
    } else if c == 't' {
        Some('\t')
    } else if c == '\\' {
        Some('\\')
    } else if c == '"' {
        Some('"')
    } else if c == '0' {
        Some('\0')
    } else {
        None
    }
}

/// The body of a string literal starting at `k` (after the opening quote):
/// its characters and the position after the closing quote.
pub open spec fn string_body(cs: Seq<char>, k: int) -> Result<(Seq<char>, int), Seq<char>>
    decreases cs.len() - k,
{
    if k < 0 || k >= cs.len() {
        Err("unterminated string literal"@)
    } else if cs[k] == '"' {
        Ok((Seq::empty(), k + 1))
    } else if cs[k] == '\\' && k + 1 < cs.len() {
        match escape_of(cs[k + 1]) {
            None => Err("invalid escape: \\"@ + seq![cs[k + 1]]),
            Some(x) => match string_body(cs, k + 2) {
                Ok((s, j)) => Ok((seq![x] + s, j)),
                Err(e) => Err(e),
            },
        }
    } else {
        match string_body(cs, k + 1) {
            Ok((s, j)) => Ok((seq![cs[k]] + s, j)),
            Err(e) => Err(e),
        }
    }
}

/// Whether a word names a register, "R0" to "R7".
pub open spec fn is_reg_word(w: Seq<char>) -> bool {
    w.len() == 2 && w[0] == 'R' && '0' <= w[1] && w[1] <= '7'
}

/// The token a word stands for: a number, a register, or an identifier.
pub open spec fn classify(w: Seq<char>) -> Tok {
    match spec_parse_number(w) {
        Some(v) => Tok::Number(v as i16),
        None => if is_reg_word(w) {
            Tok::Register((w[1] as int - '0' as int) as u8)
        } else {
            Tok::Ident(w)
        },
    }
}

/// `t` in front of the tokens of a successful lexing; errors pass through.
pub open spec fn cons_tok(t: Tok, r: Result<Seq<Tok>, Seq<char>>) -> Result<Seq<Tok>, Seq<char>> {
    match r {
        Ok(x) => Ok(seq![t] + x),
        Err(e) => Err(e),
    }
}

/// `p` in front of the tokens of a successful lexing; errors pass through.
pub open spec fn prepend_toks(p: Seq<Tok>, r: Result<Seq<Tok>, Seq<char>>) -> Result<Seq<Tok>, Seq<char>> {
    match r {
        Ok(x) => Ok(p + x),
        Err(e) => Err(e),
    }
}

pub proof fn lemma_line_end(cs: Seq<char>, j: int)
    requires
        0 <= j,
    ensures
        line_end(cs, j) >= j,
        line_end(cs, j) <= cs.len() || line_end(cs, j) == j,
    decreases cs.len() - j,
{
    if 0 <= j < cs.len() && cs[j] != '\n' {
        lemma_line_end(cs, j + 1);
    }
}

pub proof fn lemma_word_end(cs: Seq<char>, j: int)
    requires
        0 <= j,
    ensures
        word_end(cs, j) >= j,
        word_end(cs, j) <= cs.len() || word_end(cs, j) == j,
    decreases cs.len() - j,
{
    if 0 <= j < cs.len() && is_word_char(cs[j]) {
        lemma_word_end(cs, j + 1);
    }
}

pub proof fn lemma_alpha_end(cs: Seq<char>, j: int)
    requires
        0 <= j,
    ensures
        alpha_end(cs, j) >= j,
        alpha_end(cs, j) <= cs.len() || alpha_end(cs, j) == j,
    decreases cs.len() - j,
{
    if 0 <= j < cs.len() && is_alpha(cs[j]) {
        lemma_alpha_end(cs, j + 1);
    }
}

pub proof fn lemma_string_body(cs: Seq<char>, k: int)
    ensures
        string_body(cs, k) matches Ok((_, j)) ==> k < j <= cs.len(),
    decreases cs.len() - k,
{
    if 0 <= k < cs.len() && cs[k] != '"' {
        if cs[k] == '\\' && k + 1 < cs.len() {
            lemma_string_body(cs, k + 2);
        } else {
            lemma_string_body(cs, k + 1);
        }
    }
}

/// The tokens of `cs` from position `i` on, or the message of the first lexical error.
pub open spec fn lex_from(cs: Seq<char>, i: int) -> Result<Seq<Tok>, Seq<char>>
    decreases cs.len() - i,
{
    if i < 0 || i >= cs.len() {
        Ok(Seq::empty())
    } else {
        let c = cs[i];
        if is_ascii_white(c) && c != '\n' {
            lex_from(cs, i + 1)
        } else if c == '\n' {
            cons_tok(Tok::Newline, lex_from(cs, i + 1))
        } else if c == ';' {
            proof {
                lemma_line_end(cs, i + 1);
            }
            lex_from(cs, line_end(cs, i + 1))
        } else if c == ',' {
            cons_tok(Tok::Comma, lex_from(cs, i + 1))
        } else if c == ':' {
            cons_tok(Tok::Colon, lex_from(cs, i + 1))
        } else if c == '"' {
            proof {
                lemma_string_body(cs, i + 1);
            }
            match string_body(cs, i + 1) {
                Err(m) => Err(m),
                Ok((s, j)) => cons_tok(Tok::StringLit(s), lex_from(cs, j)),
            }
        } else if c == '.' {
            proof {
                lemma_alpha_end(cs, i + 1);
            }
            let j = alpha_end(cs, i + 1);
            if j == i + 1 {
                Err("bare '.'"@)
            } else {
                cons_tok(Tok::Directive(cs.subrange(i + 1, j)), lex_from(cs, j))
            }
        } else if is_alnum(c) || c == '+' || c == '-' {
            proof {
                lemma_word_end(cs, i + 1);
            }
            let j = word_end(cs, i + 1);
            cons_tok(classify(cs.subrange(i, j)), lex_from(cs, j))
        } else {
            Err("unexpected character '"@ + seq![c] + "'"@)
        }
    }
}

/// `t` in front of tokens whose registers are in range keeps them in range.
proof fn lemma_cons_tok_regs(t: Tok, r: Result<Seq<Tok>, Seq<char>>)
    requires
        t matches Tok::Register(q) ==> q < 8,
        r matches Ok(ts) ==> regs_in_range(ts),
    ensures
        cons_tok(t, r) matches Ok(ts) ==> regs_in_range(ts),
{
    if let Ok(x) = r {
        let all = seq![t] + x;
        assert forall|k: int| 0 <= k < all.len() implies (#[trigger] all[k] matches Tok::Register(q) ==> q < 8) by {
            if k > 0 {
                assert(all[k] == x[k - 1]);
            }
        }
    }
}

/// The lexer only makes register tokens for the eight registers.
pub proof fn lemma_lex_regs(cs: Seq<char>, i: int)
    ensures
        lex_from(cs, i) matches Ok(ts) ==> regs_in_range(ts),
    decreases cs.len() - i,
{
    if i < 0 || i >= cs.len() {
    } else {
        let c = cs[i];
        if is_ascii_white(c) && c != '\n' {
            lemma_lex_regs(cs, i + 1);
        } else if c == '\n' || c == ',' || c == ':' {
            lemma_lex_regs(cs, i + 1);
            lemma_cons_tok_regs(if c == '\n' { Tok::Newline } else if c == ',' { Tok::Comma } else { Tok::Colon }, lex_from(cs, i + 1));
        } else if c == ';' {
            lemma_line_end(cs, i + 1);
            lemma_lex_regs(cs, line_end(cs, i + 1));
        } else if c == '"' {
            lemma_string_body(cs, i + 1);
            if let Ok((s, j)) = string_body(cs, i + 1) {
                lemma_lex_regs(cs, j);
                lemma_cons_tok_regs(Tok::StringLit(s), lex_from(cs, j));
            }
        } else if c == '.' {
            lemma_alpha_end(cs, i + 1);
            let j = alpha_end(cs, i + 1);
            if j != i + 1 {
                lemma_lex_regs(cs, j);
                lemma_cons_tok_regs(Tok::Directive(cs.subrange(i + 1, j)), lex_from(cs, j));
            }
        } else if is_alnum(c) || c == '+' || c == '-' {
            lemma_word_end(cs, i + 1);
            let j = word_end(cs, i + 1);
            lemma_lex_regs(cs, j);
            lemma_cons_tok_regs(classify(cs.subrange(i, j)), lex_from(cs, j));
        }
    }
}

/// Each token takes at least one character, so there are no more tokens than characters.
pub proof fn lemma_lex_len(cs: Seq<char>, i: int)
    requires
        0 <= i <= cs.len(),
    ensures
        lex_from(cs, i) matches Ok(ts) ==> ts.len() <= cs.len() - i,
    decreases cs.len() - i,
{
    if i < cs.len() {
        let c = cs[i];
        if is_ascii_white(c) && c != '\n' {
            lemma_lex_len(cs, i + 1);
        } else if c == '\n' || c == ',' || c == ':' {
            lemma_lex_len(cs, i + 1);
        } else if c == ';' {
            lemma_line_end(cs, i + 1);
            lemma_lex_len(cs, line_end(cs, i + 1));
        } else if c == '"' {
            lemma_string_body(cs, i + 1);
            if let Ok((s, j)) = string_body(cs, i + 1) {
                lemma_lex_len(cs, j);
            }
        } else if c == '.' {
            lemma_alpha_end(cs, i + 1);
            let j = alpha_end(cs, i + 1);
            if j != i + 1 {
                lemma_lex_len(cs, j);
            }
        } else if is_alnum(c) || c == '+' || c == '-' {
            lemma_word_end(cs, i + 1);
            lemma_lex_len(cs, word_end(cs, i + 1));
        }
    }
}

/// The tokens of a source text, or the message of its first lexical error.
pub open spec fn spec_lex(source: Seq<char>) -> Result<Seq<Tok>, Seq<char>> {
    lex_from(source, 0)
}

} // verus!

verus! {

fn is_alpha_char(c: char) -> (r: bool)
    ensures
        r == is_alpha(c),
{
    ('a' <= c && c <= 'z') || ('A' <= c && c <= 'Z')
}

fn is_alnum_char(c: char) -> (r: bool)
    ensures
        r == is_alnum(c),
{
    ('0' <= c && c <= '9') || is_alpha_char(c)
}

fn scan_alpha(cs: &[char], j: usize) -> (r: usize)
    requires
        j <= cs.len(),
    ensures
        r == alpha_end(cs@, j as int),
        j <= r <= cs.len(),
{
    let mut k = j;
    while k < cs.len() && is_alpha_char(cs[k])
        invariant
            j <= k <= cs.len(),
            alpha_end(cs@, j as int) == alpha_end(cs@, k as int),
        decreases cs.len() - k,
    {
        k = k + 1;
    }
    k
}

fn scan_word(cs: &[char], j: usize) -> (r: usize)
    requires
        j <= cs.len(),
    ensures
        r == word_end(cs@, j as int),
        j <= r <= cs.len(),
{
    let mut k = j;
    while k < cs.len() && (is_alnum_char(cs[k]) || cs[k] == '_')
        invariant
            j <= k <= cs.len(),
            word_end(cs@, j as int) == word_end(cs@, k as int),
        decreases cs.len() - k,
    {
        k = k + 1;
    }
    k
}

fn scan_line_end(cs: &[char], j: usize) -> (r: usize)
    requires
        j <= cs.len(),
    ensures
        r == line_end(cs@, j as int),
        j <= r <= cs.len(),
{
    let mut k = j;
    while k < cs.len() && cs[k] != '\n'
        invariant
            j <= k <= cs.len(),
            line_end(cs@, j as int) == line_end(cs@, k as int),
        decreases cs.len() - k,
    {
        k = k + 1;
    }
    k
}

/// The characters `cs[a..b]`.
pub fn copy_range(cs: &[char], a: usize, b: usize) -> (r: Vec<char>)
    requires
        a <= b <= cs.len(),
    ensures
        r@ == cs@.subrange(a as int, b as int),
{
    let mut r: Vec<char> = Vec::new();
    let mut k = a;
    while k < b
        invariant
            a <= k <= b <= cs.len(),
            r@ == cs@.subrange(a as int, k as int),
        decreases b - k,
    {
        r.push(cs[k]);
        proof {
            assert(cs@.subrange(a as int, k + 1) =~= cs@.subrange(a as int, k as int).push(
                cs@[k as int],
            ));
        }
        k = k + 1;
    }
    r
}

/// `p` in front of the characters of a successful string body; errors pass through.
pub open spec fn prepend_body(p: Seq<char>, r: Result<(Seq<char>, int), Seq<char>>) -> Result<(Seq<char>, int), Seq<char>> {
    match r {
        Ok((s, j)) => Ok((p + s, j)),
        Err(e) => Err(e),
    }
}

/// Reads the body of a string literal starting at `k`.
fn scan_string(cs: &[char], k: usize) -> (r: Result<(String, usize), AssembleError>)
    requires
        k <= cs.len(),
    ensures
        match string_body(cs@, k as int) {
            Ok((s, j)) => r matches Ok((st, jj)) && st@ == s && jj == j,
            Err(m) => r matches Err(e) && e@ == AsmError::Lex(m),
        },
{
    let mut out: Vec<char> = Vec::new();
    let mut i = k;
    proof {
        assert(out@ =~= Seq::<char>::empty());
        match string_body(cs@, k as int) {
            Ok((s, j)) => assert(Seq::<char>::empty() + s =~= s),
            Err(_) => {},
        }
    }
    while i < cs.len() && cs[i] != '"'
        invariant
            k <= i <= cs.len(),
            string_body(cs@, k as int) == prepend_body(out@, string_body(cs@, i as int)),
        decreases cs.len() - i,
    {
        if cs[i] == '\\' && i + 1 < cs.len() {
            let e = cs[i + 1];
            let x = if e == 'n' {
                '\n'
            } else if e == 't' {
                '\t'
            } else if e == '\\' {
                '\\'
            } else if e == '"' {
                '"'
            } else if e == '0' {
                '\0'
            } else {
                let mut m = lit("invalid escape: \\");
                push_char(&mut m, e);
                proof {
                    assert(m@ =~= "invalid escape: \\"@ + seq![e]);
                }
                return Err(AssembleError::Lex(m));
            };
            proof {
                match string_body(cs@, i + 2) {
                    Ok((s, j)) => assert(out@.push(x) + s =~= out@ + (seq![x] + s)),
                    Err(_) => {},
                }
            }
            out.push(x);
            i = i + 2;
        } else {
            proof {
                match string_body(cs@, i + 1) {
                    Ok((s, j)) => assert(out@.push(cs@[i as int]) + s =~= out@ + (seq![cs@[i as int]] + s)),
                    Err(_) => {},
                }
            }
            out.push(cs[i]);
            i = i + 1;
        }
    }
    if i >= cs.len() {
        return Err(AssembleError::Lex(lit("unterminated string literal")));
    }
    proof {
        assert(out@ + Seq::<char>::empty() =~= out@);
    }
    Ok((string_of(out.as_slice()), i + 1))
}

/// The token a word stands for.
fn classify_word(w: &[char]) -> (t: Token)
    ensures
        t@ == classify(w@),
{
    match parse_number_chars(w) {
        Some(v) => Token::Number(v),
        None => {
            if w.len() == 2 && w[0] == 'R' && '0' <= w[1] && w[1] <= '7' {
                Token::Register(((w[1] as u32) - ('0' as u32)) as u8)
            } else {
                Token::Ident(string_of(w))
            }
        },
    }
}

} // verus!

verus! {

proof fn lemma_prepend_toks_push(p: Seq<Tok>, t: Tok, r: Result<Seq<Tok>, Seq<char>>)
    ensures
        prepend_toks(p, cons_tok(t, r)) == prepend_toks(p.push(t), r),
{
    if let Ok(x) = r {
        assert(p + (seq![t] + x) =~= p.push(t) + x);
    }
}

proof fn lemma_toks_push(v: Seq<Token>, t: Token)
    ensures
        toks(v.push(t)) == toks(v).push(t@),
{
    assert(toks(v.push(t)) =~= toks(v).push(t@));
}

/// Splits a source text into tokens; the first lexical error stops it.
pub fn lex(source: &str) -> (r: Result<Vec<Token>, AssembleError>)
    ensures
        match spec_lex(source@) {
            Ok(ts) => r matches Ok(v) && toks(v@) == ts,
            Err(m) => r matches Err(e) && e@ == AsmError::Lex(m),
        },
{
    let chars = crate::text::chars_of(source);
    let cs = chars.as_slice();
    let len = cs.len();
    let mut i: usize = 0;
    let mut tokens: Vec<Token> = Vec::new();
    proof {
        assert(toks(tokens@) =~= Seq::<Tok>::empty());
        match lex_from(cs@, 0) {
            Ok(x) => assert(Seq::<Tok>::empty() + x =~= x),
            Err(_) => {},
        }
    }
    while i < len
        invariant
            0 <= i <= len,
            len == cs@.len(),
            cs@ == source@,
            lex_from(cs@, 0) == prepend_toks(toks(tokens@), lex_from(cs@, i as int)),
        decreases len - i,
    {
        let c = cs[i];
        let ghost p = toks(tokens@);
        if (c == ' ' || c == '\t' || c == '\x0C' || c == '\r') {
            i = i + 1;
        } else if c == '\n' {
            proof {
                lemma_prepend_toks_push(p, Tok::Newline, lex_from(cs@, i + 1));
                lemma_toks_push(tokens@, Token::Newline);
            }
            tokens.push(Token::Newline);
            i = i + 1;
        } else if c == ';' {
            i = scan_line_end(cs, i + 1);
        } else if c == ',' {
            proof {
                lemma_prepend_toks_push(p, Tok::Comma, lex_from(cs@, i + 1));
                lemma_toks_push(tokens@, Token::Comma);
            }
            tokens.push(Token::Comma);
            i = i + 1;
        } else if c == ':' {
            proof {
                lemma_prepend_toks_push(p, Tok::Colon, lex_from(cs@, i + 1));
                lemma_toks_push(tokens@, Token::Colon);
            }
            tokens.push(Token::Colon);
            i = i + 1;
        } else if c == '"' {
            let (s, j) = scan_string(cs, i + 1)?;
            let ghost t = Tok::StringLit(s@);
            proof {
                lemma_prepend_toks_push(p, t, lex_from(cs@, j as int));
                lemma_toks_push(tokens@, Token::StringLit(s));
                lemma_string_body(cs@, i + 1);
            }
            tokens.push(Token::StringLit(s));
            i = j;
        } else if c == '.' {
            let j = scan_alpha(cs, i + 1);
            if j == i + 1 {
                return Err(AssembleError::Lex(lit("bare '.'")));
            }
            let name = string_of(copy_range(cs, i + 1, j).as_slice());
            proof {
                lemma_prepend_toks_push(p, Tok::Directive(name@), lex_from(cs@, j as int));
                lemma_toks_push(tokens@, Token::Directive(name));
            }
            tokens.push(Token::Directive(name));
            i = j;
        } else if is_alnum_char(c) || c == '+' || c == '-' {
            let j = scan_word(cs, i + 1);
            let word = copy_range(cs, i, j);
            let t = classify_word(word.as_slice());
            proof {
                lemma_prepend_toks_push(p, t@, lex_from(cs@, j as int));
                lemma_toks_push(tokens@, t);
            }
            tokens.push(t);
            i = j;
        } else {
            let mut m = lit("unexpected character '");
            push_char(&mut m, c);
            push_str(&mut m, "'");
            proof {
                assert(m@ =~= "unexpected character '"@ + seq![c] + "'"@);
            }
            return Err(AssembleError::Lex(m));
        }
    }
    proof {
        assert(toks(tokens@) + Seq::<Tok>::empty() =~= toks(tokens@));
    }
    Ok(tokens)
}

} // verus!
