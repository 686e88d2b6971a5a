use crate::text::{int_text, push_char, push_int, push_str};
use vstd::prelude::*;

verus! {

/// A token of the assembly language.
#[derive(Debug, Clone, PartialEq)]
pub enum Token {
    Ident(String),
    Register(u8),
    Number(i16),
    Directive(String),
    StringLit(String),
    Comma,
    Colon,
    Newline,
}

/// A token as plain values.
pub enum Tok {
    Ident(Seq<char>),
    Register(u8),
    Number(i16),
    Directive(Seq<char>),
    StringLit(Seq<char>),
    Comma,
    Colon,
    Newline,
}

impl View for Token {
    type V = Tok;

    open spec fn view(&self) -> Tok {
        match self {
            Token::Ident(s) => Tok::Ident(s@),
            Token::Register(r) => Tok::Register(*r),
            Token::Number(n) => Tok::Number(*n),
            Token::Directive(s) => Tok::Directive(s@),
            Token::StringLit(s) => Tok::StringLit(s@),
            Token::Comma => Tok::Comma,
            Token::Colon => Tok::Colon,
            Token::Newline => Tok::Newline,
        }
    }
}

/// The plain values of a sequence of tokens.
pub open spec fn toks(v: Seq<Token>) -> Seq<Tok> {
    v.map_values(|t: Token| t@)
}

/// Every register token names one of the eight registers.
pub open spec fn regs_in_range(ts: Seq<Tok>) -> bool {
    forall|i: int| 0 <= i < ts.len() ==> (#[trigger] ts[i] matches Tok::Register(r) ==> r < 8)
}

/// What std's `char::escape_debug` yields for `c`.
pub uninterp spec fn char_escape_debug(c: char) -> Seq<char>;

/// std's `char::escape_debug`, collected into a string. Trusted to give
/// `char_escape_debug(c)`, which depends on `c` alone. Which characters it
/// escapes, and how, is left unsaid here: std decides it from Unicode's
/// printable and grapheme-extend tables.
#[verifier::external_body]
fn escape_debug_text(c: char) -> (s: String)
    ensures
        s@ == char_escape_debug(c),
{
    c.escape_debug().to_string()
}

/// How a character is escaped inside a quoted debug string: as
/// `char::escape_debug` escapes it, except that a single quote stays as it is.
pub open spec fn escape_char(c: char) -> Seq<char> {
    if c == '\'' {
        seq!['\'']
    } else {
        char_escape_debug(c)
    }
}

/// The escaped characters of `s`.
pub open spec fn escaped(s: Seq<char>) -> Seq<char>
    decreases s.len(),
{
    if s.len() == 0 {
        Seq::empty()
    } else {
        escaped(s.drop_last()) + escape_char(s.last())
    }
}

/// `s` between double quotes, escaped.
pub open spec fn quoted(s: Seq<char>) -> Seq<char> {
    seq!['"'] + escaped(s) + seq!['"']
}

/// The debug spelling of a token, as it appears in parse error messages.
pub open spec fn tok_text(t: Tok) -> Seq<char> {
    match t {
        Tok::Ident(s) => "Ident("@ + quoted(s) + ")"@,
        Tok::Register(r) => "Register("@ + int_text(r as int) + ")"@,
        Tok::Number(n) => "Number("@ + int_text(n as int) + ")"@,
        Tok::Directive(s) => "Directive("@ + quoted(s) + ")"@,
        Tok::StringLit(s) => "StringLit("@ + quoted(s) + ")"@,
        Tok::Comma => "Comma"@,
        Tok::Colon => "Colon"@,
        Tok::Newline => "Newline"@,
    }
}

/// Appends `s` between double quotes, escaped.
pub fn push_quoted(out: &mut String, s: &String)
    ensures
        final(out)@ == old(out)@ + quoted(s@),
{
    let cs = crate::text::chars_of(s.as_str());
    push_char(out, '"');
    let ghost start = out@;
    let mut i: usize = 0;
    while i < cs.len()
        invariant
            0 <= i <= cs.len(),
            out@ == start + escaped(cs@.subrange(0, i as int)),
        decreases cs.len() - i,
    {
        let c = cs[i];
        let ghost before = out@;
        if c == '\'' {
            push_char(out, c);
        } else {
            let e = escape_debug_text(c);
            push_str(out, e.as_str());
        }
        proof {
            assert(out@ =~= before + escape_char(c));
            assert(cs@.subrange(0, i as int + 1).drop_last() =~= cs@.subrange(0, i as int));
            assert(start + escaped(cs@.subrange(0, i as int)) + escape_char(c) =~= start
                + escaped(cs@.subrange(0, i as int + 1)));
        }
        i = i + 1;
    }
    push_char(out, '"');
    proof {
        assert(cs@.subrange(0, cs.len() as int) =~= cs@);
        assert(out@ =~= old(out)@ + quoted(s@));
    }
}

impl Token {
    /// Appends the debug spelling of the token.
    pub fn push_text(&self, out: &mut String)
        ensures
            final(out)@ == old(out)@ + tok_text(self@),
    {
        let ghost before = out@;
        match self {
            Token::Ident(s) => {
                push_str(out, "Ident(");
                push_quoted(out, s);
                push_str(out, ")");
            },
            Token::Register(r) => {
                push_str(out, "Register(");
                push_int(out, *r as i64);
                push_str(out, ")");
            },
            Token::Number(n) => {
                push_str(out, "Number(");
                push_int(out, *n as i64);
                push_str(out, ")");
            },
            Token::Directive(s) => {
                push_str(out, "Directive(");
                push_quoted(out, s);
                push_str(out, ")");
            },
            Token::StringLit(s) => {
                push_str(out, "StringLit(");
                push_quoted(out, s);
                push_str(out, ")");
            },
            Token::Comma => push_str(out, "Comma"),
            Token::Colon => push_str(out, "Colon"),
            Token::Newline => push_str(out, "Newline"),
        }
        proof {
            assert(out@ =~= before + tok_text(self@));
        }
    }

    /// Whether the token is a line break.
    pub fn is_newline(&self) -> (r: bool)
        ensures
            r == (self@ is Newline),
    {
        match self {
            Token::Newline => true,
            _ => false,
        }
    }

    /// Whether the token is a colon.
    pub fn is_colon(&self) -> (r: bool)
        ensures
            r == (self@ is Colon),
    {
        match self {
            Token::Colon => true,
            _ => false,
        }
    }
}

} // verus!
