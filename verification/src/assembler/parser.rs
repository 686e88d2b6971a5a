use super::token::{regs_in_range, Tok, Token, tok_text, toks};
use super::{AsmError, AssembleError};
use crate::text::{lit, push_str, str_eq};
use vstd::prelude::*;

verus! {

/// An instruction operand.
#[derive(Debug, Clone, PartialEq)]
pub enum Operand {
    Reg(u8),
    Imm(i16),
    Label(String),
}

/// What a source line holds.
#[derive(Debug, Clone)]
pub enum LineKind {
    Text { mnemonic: String, operands: Vec<Operand> },
    Word(Vec<i16>),
    Asciiz(String),
}

/// A parsed source line with its label, if any.
#[derive(Debug, Clone)]
pub struct Line {
    pub label: Option<String>,
    pub kind: LineKind,
}

/// An operand as plain values.
pub enum Opnd {
    Reg(u8),
    Imm(i16),
    Label(Seq<char>),
}

/// What a line holds, as plain values.
pub enum LKind {
    Text { mnemonic: Seq<char>, operands: Seq<Opnd> },
    Word(Seq<i16>),
    Asciiz(Seq<char>),
}

/// A line as plain values.
pub struct LineV {
    pub label: Option<Seq<char>>,
    pub kind: LKind,
}

impl View for Operand {
    type V = Opnd;

    open spec fn view(&self) -> Opnd {
        match self {
            Operand::Reg(r) => Opnd::Reg(*r),
            Operand::Imm(v) => Opnd::Imm(*v),
            Operand::Label(s) => Opnd::Label(s@),
        }
    }
}

/// The plain values of a sequence of operands.
pub open spec fn opnds(v: Seq<Operand>) -> Seq<Opnd> {
    v.map_values(|o: Operand| o@)
}

/// The plain value of an optional label.
pub open spec fn label_view(l: Option<String>) -> Option<Seq<char>> {
    match l {
        Some(s) => Some(s@),
        None => None,
    }
}

impl View for LineKind {
    type V = LKind;

    open spec fn view(&self) -> LKind {
        match self {
            LineKind::Text { mnemonic, operands } => LKind::Text {
                mnemonic: mnemonic@,
                operands: opnds(operands@),
            },
            LineKind::Word(v) => LKind::Word(v@),
            LineKind::Asciiz(s) => LKind::Asciiz(s@),
        }
    }
}

impl View for Line {
    type V = LineV;

    open spec fn view(&self) -> LineV {
        LineV { label: label_view(self.label), kind: self.kind@ }
    }
}

/// The plain values of a sequence of lines.
pub open spec fn lines_view(v: Seq<Line>) -> Seq<LineV> {
    v.map_values(|l: Line| l@)
}

/// Why parsing stopped: an error with its message, or a directive that needs
/// one more token at the very end of the input.
pub enum ParseStop {
    Error(Seq<char>),
    OutOfTokens,
}

/// The operands of an instruction from token `j` to the end of the line, and
/// the position of that end.
pub open spec fn operands_from(ts: Seq<Tok>, j: int) -> Result<(Seq<Opnd>, int), Seq<char>>
    decreases ts.len() - j,
{
    if j < 0 || j >= ts.len() || ts[j] is Newline {
        Ok((Seq::empty(), j))
    } else {
        let rest = operands_from(ts, j + 1);
        let one = match ts[j] {
            Tok::Register(r) => Some(Some(Opnd::Reg(r))),
            Tok::Number(n) => Some(Some(Opnd::Imm(n))),
            Tok::Ident(name) => Some(Some(Opnd::Label(name))),
            Tok::Comma => Some(None),
            _ => None,
        };
        match one {
            None => Err("unexpected token "@ + tok_text(ts[j]) + " in instruction operands"@),
            Some(o) => match rest {
                Err(e) => Err(e),
                Ok((os, end)) => Ok(
                    (
                        match o {
                            Some(x) => seq![x] + os,
                            None => os,
                        },
                        end,
                    ),
                ),
            },
        }
    }
}

/// An instruction line starting at token `i`, and where the next line starts.
pub open spec fn text_line(ts: Seq<Tok>, i: int, label: Option<Seq<char>>) -> Result<(LineV, int), Seq<char>> {
    match ts[i] {
        Tok::Ident(m) => match operands_from(ts, i + 1) {
            Err(e) => Err(e),
            Ok((os, j)) => Ok((LineV { label, kind: LKind::Text { mnemonic: m, operands: os } }, j + 1)),
        },
        _ => Err("expected instruction mnemonic, got "@ + tok_text(ts[i])),
    }
}

/// The values of a `.word` directive from token `j` to the end of the line,
/// and the position of that end.
pub open spec fn words_from(ts: Seq<Tok>, j: int) -> Result<(Seq<i16>, int), Seq<char>>
    decreases ts.len() - j,
{
    if j < 0 || j >= ts.len() || ts[j] is Newline {
        Ok((Seq::empty(), j))
    } else {
        match ts[j] {
            Tok::Number(n) => match words_from(ts, j + 1) {
                Err(e) => Err(e),
                Ok((vs, end)) => Ok((seq![n] + vs, end)),
            },
            Tok::Ident(name) => Err("unresolved label '"@ + name + "' in .word"@),
            Tok::Comma => words_from(ts, j + 1),
            _ => Err("unexpected token "@ + tok_text(ts[j]) + " in .word"@),
        }
    }
}

/// A data line starting at token `i`, and where the next line starts.
pub open spec fn data_line(ts: Seq<Tok>, i: int, label: Option<Seq<char>>) -> Result<(LineV, int), ParseStop> {
    match ts[i] {
        Tok::Directive(d) => if d == "word"@ {
            match words_from(ts, i + 1) {
                Err(e) => Err(ParseStop::Error(e)),
                Ok((vs, j)) => Ok((LineV { label, kind: LKind::Word(vs) }, j + 1)),
            }
        } else if d == "asciiz"@ {
            if i + 1 >= ts.len() {
                Err(ParseStop::OutOfTokens)
            } else {
                match ts[i + 1] {
                    Tok::StringLit(s) => Ok((LineV { label, kind: LKind::Asciiz(s) }, i + 3)),
                    _ => Err(
                        ParseStop::Error(
                            "expected string literal after .asciiz, got "@ + tok_text(ts[i + 1]),
                        ),
                    ),
                }
            }
        } else {
            Err(ParseStop::Error("unknown data directive '"@ + d + "'"@))
        },
        _ => Err(ParseStop::Error("expected directive in .data section, got "@ + tok_text(ts[i]))),
    }
}

/// `l` in front of the lines of a successful parse; failures pass through.
pub open spec fn cons_line(l: LineV, r: Result<Seq<LineV>, ParseStop>) -> Result<Seq<LineV>, ParseStop> {
    match r {
        Ok(x) => Ok(seq![l] + x),
        Err(e) => Err(e),
    }
}

/// `p` in front of the lines of a successful parse; failures pass through.
pub open spec fn prepend_lines(p: Seq<LineV>, r: Result<Seq<LineV>, ParseStop>) -> Result<Seq<LineV>, ParseStop> {
    match r {
        Ok(x) => Ok(p + x),
        Err(e) => Err(e),
    }
}

pub proof fn lemma_operands_from(ts: Seq<Tok>, j: int)
    requires
        0 <= j,
    ensures
        j <= ts.len() ==> (operands_from(ts, j) matches Ok((_, end)) ==> j <= end <= ts.len()),
    decreases ts.len() - j,
{
    if 0 <= j < ts.len() && !(ts[j] is Newline) {
        lemma_operands_from(ts, j + 1);
    }
}

pub proof fn lemma_words_from(ts: Seq<Tok>, j: int)
    requires
        0 <= j,
    ensures
        j <= ts.len() ==> (words_from(ts, j) matches Ok((_, end)) ==> j <= end <= ts.len()),
    decreases ts.len() - j,
{
    if 0 <= j < ts.len() && !(ts[j] is Newline) {
        lemma_words_from(ts, j + 1);
    }
}

pub proof fn lemma_text_line_advances(ts: Seq<Tok>, i: int, label: Option<Seq<char>>)
    requires
        0 <= i < ts.len(),
    ensures
        text_line(ts, i, label) matches Ok((_, end)) ==> i < end <= ts.len() + 1,
{
    lemma_operands_from(ts, i + 1);
}

pub proof fn lemma_data_line_advances(ts: Seq<Tok>, i: int, label: Option<Seq<char>>)
    requires
        0 <= i < ts.len(),
    ensures
        data_line(ts, i, label) matches Ok((_, end)) ==> i < end <= ts.len() + 2,
{
    lemma_words_from(ts, i + 1);
}

/// The lines of the tokens from position `i` on, in the section `in_text`
/// (else data), with `pending` the label waiting for its line.
pub open spec fn parse_from(ts: Seq<Tok>, i: int, in_text: bool, pending: Option<Seq<char>>) -> Result<Seq<LineV>, ParseStop>
    decreases ts.len() + 2 - i,
{
    if i < 0 || i >= ts.len() {
        match pending {
            Some(l) => Err(
                ParseStop::Error(
                    "label '"@ + l + "' at end of file without instruction or directive"@,
                ),
            ),
            None => Ok(Seq::empty()),
        }
    } else {
        let next = if i + 1 < ts.len() && ts[i + 1] is Newline {
            i + 2
        } else {
            i + 1
        };
        if ts[i] == Tok::Directive("text"@) {
            parse_from(ts, next, true, pending)
        } else if ts[i] == Tok::Directive("data"@) {
            parse_from(ts, next, false, pending)
        } else if ts[i] is Newline {
            parse_from(ts, i + 1, in_text, pending)
        } else if i + 1 < ts.len() && ts[i + 1] is Colon {
            match ts[i] {
                Tok::Ident(name) => if pending is Some {
                    Err(
                        ParseStop::Error(
                            "consecutive labels: '"@ + name + "' overwrites previous label"@,
                        ),
                    )
                } else {
                    parse_from(ts, i + 2, in_text, Some(name))
                },
                _ => Err(ParseStop::Error("label must be an identifier"@)),
            }
        } else if in_text {
            proof {
                lemma_text_line_advances(ts, i, pending);
            }
            match text_line(ts, i, pending) {
                Err(m) => Err(ParseStop::Error(m)),
                Ok((line, end)) => cons_line(line, parse_from(ts, end, in_text, None)),
            }
        } else {
            proof {
                lemma_data_line_advances(ts, i, pending);
            }
            match data_line(ts, i, pending) {
                Err(e) => Err(e),
                Ok((line, end)) => cons_line(line, parse_from(ts, end, in_text, None)),
            }
        }
    }
}

/// The lines of a token sequence, starting in the text section.
pub open spec fn spec_parse(ts: Seq<Tok>) -> Result<Seq<LineV>, ParseStop> {
    parse_from(ts, 0, true, None)
}

} // verus!

verus! {

/// Every register operand names one of the eight registers.
pub open spec fn opnd_regs_valid(os: Seq<Opnd>) -> bool {
    forall|j: int| 0 <= j < os.len() ==> (#[trigger] os[j] matches Opnd::Reg(r) ==> r < 8)
}

/// Every register operand of every instruction line names one of the eight registers.
pub open spec fn regs_valid(lines: Seq<LineV>) -> bool {
    forall|k: int|
        0 <= k < lines.len() ==> (#[trigger] lines[k].kind matches LKind::Text { operands, .. }
            ==> opnd_regs_valid(operands))
}

/// Operands read from tokens whose registers are in range have their registers in range.
pub proof fn lemma_operands_regs(ts: Seq<Tok>, j: int)
    requires
        regs_in_range(ts),
    ensures
        operands_from(ts, j) matches Ok((os, _)) ==> opnd_regs_valid(os),
    decreases ts.len() - j,
{
    if !(j < 0 || j >= ts.len() || ts[j] is Newline) {
        lemma_operands_regs(ts, j + 1);
        assert(ts[j] matches Tok::Register(r) ==> r < 8);
        if let Ok((os, _)) = operands_from(ts, j + 1) {
            if let Tok::Register(r) = ts[j] {
                let all = seq![Opnd::Reg(r)] + os;
                assert forall|k: int| 0 <= k < all.len() implies (#[trigger] all[k] matches Opnd::Reg(q) ==> q < 8) by {
                    if k > 0 {
                        assert(all[k] == os[k - 1]);
                    }
                }
            } else if let Tok::Number(n) = ts[j] {
                let all = seq![Opnd::Imm(n)] + os;
                assert forall|k: int| 0 <= k < all.len() implies (#[trigger] all[k] matches Opnd::Reg(q) ==> q < 8) by {
                    if k > 0 {
                        assert(all[k] == os[k - 1]);
                    }
                }
            } else if let Tok::Ident(name) = ts[j] {
                let all = seq![Opnd::Label(name)] + os;
                assert forall|k: int| 0 <= k < all.len() implies (#[trigger] all[k] matches Opnd::Reg(q) ==> q < 8) by {
                    if k > 0 {
                        assert(all[k] == os[k - 1]);
                    }
                }
            }
        }
    }
}

/// Lines parsed from tokens whose registers are in range have their registers in range.
pub proof fn lemma_parse_regs(ts: Seq<Tok>, i: int, in_text: bool, pending: Option<Seq<char>>)
    requires
        regs_in_range(ts),
    ensures
        parse_from(ts, i, in_text, pending) matches Ok(ls) ==> regs_valid(ls),
    decreases ts.len() + 2 - i,
{
    if i < 0 || i >= ts.len() {
    } else {
        let next = if i + 1 < ts.len() && ts[i + 1] is Newline {
            i + 2
        } else {
            i + 1
        };
        if ts[i] == Tok::Directive("text"@) {
            lemma_parse_regs(ts, next, true, pending);
        } else if ts[i] == Tok::Directive("data"@) {
            lemma_parse_regs(ts, next, false, pending);
        } else if ts[i] is Newline {
            lemma_parse_regs(ts, i + 1, in_text, pending);
        } else if i + 1 < ts.len() && ts[i + 1] is Colon {
            if let Tok::Ident(name) = ts[i] {
                if !(pending is Some) {
                    lemma_parse_regs(ts, i + 2, in_text, Some(name));
                }
            }
        } else if in_text {
            lemma_text_line_advances(ts, i, pending);
            lemma_operands_regs(ts, i + 1);
            if let Ok((line, end)) = text_line(ts, i, pending) {
                lemma_parse_regs(ts, end, in_text, None);
                lemma_cons_regs(line, parse_from(ts, end, in_text, None));
            }
        } else {
            lemma_data_line_advances(ts, i, pending);
            if let Ok((line, end)) = data_line(ts, i, pending) {
                lemma_parse_regs(ts, end, in_text, None);
                lemma_cons_regs(line, parse_from(ts, end, in_text, None));
            }
        }
    }
}

proof fn lemma_cons_regs(l: LineV, r: Result<Seq<LineV>, ParseStop>)
    requires
        l.kind matches LKind::Text { operands, .. } ==> opnd_regs_valid(operands),
        r matches Ok(ls) ==> regs_valid(ls),
    ensures
        cons_line(l, r) matches Ok(ls) ==> regs_valid(ls),
{
    if let Ok(x) = r {
        let all = seq![l] + x;
        assert forall|k: int| 0 <= k < all.len() implies (#[trigger] all[k].kind matches LKind::Text { operands, .. }
            ==> opnd_regs_valid(operands)) by {
            if k > 0 {
                assert(all[k] == x[k - 1]);
            }
        }
    }
}

} // verus!

verus! {

/// `p` in front of the operands of a successful scan; errors pass through.
pub open spec fn prepend_ops(p: Seq<Opnd>, r: Result<(Seq<Opnd>, int), Seq<char>>) -> Result<(Seq<Opnd>, int), Seq<char>> {
    match r {
        Ok((x, e)) => Ok((p + x, e)),
        Err(m) => Err(m),
    }
}

/// `p` in front of the values of a successful scan; errors pass through.
pub open spec fn prepend_words(p: Seq<i16>, r: Result<(Seq<i16>, int), Seq<char>>) -> Result<(Seq<i16>, int), Seq<char>> {
    match r {
        Ok((x, e)) => Ok((p + x, e)),
        Err(m) => Err(m),
    }
}

/// The text of a parse error about a token: `before`, the token, then `after`.
fn token_message(before: &str, t: &Token, after: &str) -> (m: String)
    ensures
        m@ == before@ + tok_text(t@) + after@,
{
    let mut m = lit(before);
    t.push_text(&mut m);
    push_str(&mut m, after);
    m
}

/// Parses an instruction line starting at token `i`.
pub fn parse_text_line(tokens: &[Token], i: usize, label: Option<String>) -> (r: Result<(Line, usize), AssembleError>)
    requires
        i < tokens.len(),
        tokens.len() < usize::MAX,
    ensures
        match text_line(toks(tokens@), i as int, label_view(label)) {
            Ok((l, end)) => r matches Ok((line, e)) && line@ == l && e == end,
            Err(m) => r matches Err(er) && er@ == AsmError::Parse(m),
        },
{
    let ghost ts = toks(tokens@);
    let mnemonic = match &tokens[i] {
        Token::Ident(m) => m.clone(),
        _ => {
            let m = token_message("expected instruction mnemonic, got ", &tokens[i], "");
            proof {
                reveal_strlit("");
                assert(m@ =~= "expected instruction mnemonic, got "@ + tok_text(ts[i as int]));
            }
            return Err(AssembleError::Parse(m));
        },
    };
    let mut j = i + 1;
    let mut operands: Vec<Operand> = Vec::new();
    proof {
        assert(opnds(operands@) =~= Seq::<Opnd>::empty());
        match operands_from(ts, j as int) {
            Ok((x, e)) => assert(Seq::<Opnd>::empty() + x =~= x),
            Err(_) => {},
        }
    }
    while j < tokens.len() && !tokens[j].is_newline()
        invariant
            i < j <= tokens.len(),
            tokens.len() < usize::MAX,
            ts == toks(tokens@),
            ts[i as int] is Ident,
            operands_from(ts, i + 1) == prepend_ops(opnds(operands@), operands_from(ts, j as int)),
        decreases tokens.len() - j,
    {
        let ghost p = opnds(operands@);
        match &tokens[j] {
            Token::Register(r) => {
                operands.push(Operand::Reg(*r));
            },
            Token::Number(n) => {
                operands.push(Operand::Imm(*n));
            },
            Token::Ident(name) => {
                operands.push(Operand::Label(name.clone()));
            },
            Token::Comma => {},
            _ => {
                return Err(
                    AssembleError::Parse(
                        token_message("unexpected token ", &tokens[j], " in instruction operands"),
                    ),
                );
            },
        }
        proof {
            assert(ts[j as int] == tokens@[j as int]@);
            match operands_from(ts, j + 1) {
                Ok((x, e)) => {
                    assert(opnds(operands@) =~= p + match ts[j as int] {
                        Tok::Register(r) => seq![Opnd::Reg(r)],
                        Tok::Number(n) => seq![Opnd::Imm(n)],
                        Tok::Ident(name) => seq![Opnd::Label(name)],
                        _ => Seq::<Opnd>::empty(),
                    });
                    assert(p + (match ts[j as int] {
                        Tok::Register(r) => seq![Opnd::Reg(r)] + x,
                        Tok::Number(n) => seq![Opnd::Imm(n)] + x,
                        Tok::Ident(name) => seq![Opnd::Label(name)] + x,
                        _ => x,
                    }) =~= opnds(operands@) + x);
                },
                Err(_) => {},
            }
        }
        j = j + 1;
    }
    proof {
        assert(opnds(operands@) + Seq::<Opnd>::empty() =~= opnds(operands@));
    }
    let end = j + 1;
    Ok((Line { label, kind: LineKind::Text { mnemonic, operands } }, end))
}

} // verus!

verus! {

/// Why parsing stopped: an error, or a directive at the very end of the input
/// that needs one more token (reading past the end).
pub enum ParseFailure {
    Error(AssembleError),
    OutOfTokens,
}

/// Whether a parse failure is the given stop.
pub open spec fn failure_is(f: ParseFailure, s: ParseStop) -> bool {
    match (f, s) {
        (ParseFailure::Error(e), ParseStop::Error(m)) => e@ == AsmError::Parse(m),
        (ParseFailure::OutOfTokens, ParseStop::OutOfTokens) => true,
        _ => false,
    }
}

/// Parses a data line (`.word` or `.asciiz`) starting at token `i`.
pub fn parse_data_line(tokens: &[Token], i: usize, label: Option<String>) -> (r: Result<(Line, usize), ParseFailure>)
    requires
        i < tokens.len(),
        tokens.len() < usize::MAX - 2,
    ensures
        match data_line(toks(tokens@), i as int, label_view(label)) {
            Ok((l, end)) => r matches Ok((line, e)) && line@ == l && e == end,
            Err(stop) => r matches Err(f) && failure_is(f, stop),
        },
{
    let ghost ts = toks(tokens@);
    let directive = match &tokens[i] {
        Token::Directive(d) => d,
        _ => {
            let m = token_message("expected directive in .data section, got ", &tokens[i], "");
            proof {
                reveal_strlit("");
                assert(m@ =~= "expected directive in .data section, got "@ + tok_text(ts[i as int]));
            }
            return Err(ParseFailure::Error(AssembleError::Parse(m)));
        },
    };
    let mut j = i + 1;
    if str_eq(directive.as_str(), "word") {
        let mut values: Vec<i16> = Vec::new();
        proof {
            match words_from(ts, j as int) {
                Ok((x, e)) => assert(values@ + x =~= x),
                Err(_) => {},
            }
        }
        while j < tokens.len() && !tokens[j].is_newline()
            invariant
                i < j <= tokens.len(),
                tokens.len() < usize::MAX - 2,
                ts == toks(tokens@),
                ts[i as int] == Tok::Directive("word"@),
                words_from(ts, i + 1) == prepend_words(values@, words_from(ts, j as int)),
            decreases tokens.len() - j,
        {
            let ghost p = values@;
            match &tokens[j] {
                Token::Number(n) => values.push(*n),
                Token::Ident(name) => {
                    let mut m = lit("unresolved label '");
                    push_str(&mut m, name.as_str());
                    push_str(&mut m, "' in .word");
                    return Err(ParseFailure::Error(AssembleError::Parse(m)));
                },
                Token::Comma => {},
                _ => {
                    return Err(
                        ParseFailure::Error(
                            AssembleError::Parse(
                                token_message("unexpected token ", &tokens[j], " in .word"),
                            ),
                        ),
                    );
                },
            }
            proof {
                match words_from(ts, j + 1) {
                    Ok((x, e)) => {
                        if let Tok::Number(n) = ts[j as int] {
                            assert(p + (seq![n] + x) =~= values@ + x);
                        }
                    },
                    Err(_) => {},
                }
            }
            j = j + 1;
        }
        proof {
            assert(values@ + Seq::<i16>::empty() =~= values@);
        }
        let end = j + 1;
        Ok((Line { label, kind: LineKind::Word(values) }, end))
    } else if str_eq(directive.as_str(), "asciiz") {
        if j >= tokens.len() {
            return Err(ParseFailure::OutOfTokens);
        }
        let s = match &tokens[j] {
            Token::StringLit(s) => s.clone(),
            _ => {
                let m = token_message("expected string literal after .asciiz, got ", &tokens[j], "");
                proof {
                    reveal_strlit("");
                    assert(m@ =~= "expected string literal after .asciiz, got "@ + tok_text(ts[j as int]));
                }
                return Err(ParseFailure::Error(AssembleError::Parse(m)));
            },
        };
        j = j + 1;
        let end = j + 1;
        Ok((Line { label, kind: LineKind::Asciiz(s) }, end))
    } else {
        let mut m = lit("unknown data directive '");
        push_str(&mut m, directive.as_str());
        push_str(&mut m, "'");
        Err(ParseFailure::Error(AssembleError::Parse(m)))
    }
}

} // verus!

verus! {

/// Whether the token is the directive `.name`.
fn is_directive(t: &Token, name: &str) -> (r: bool)
    ensures
        r == (t@ == Tok::Directive(name@)),
{
    match t {
        Token::Directive(d) => str_eq(d.as_str(), name),
        _ => false,
    }
}

proof fn lemma_lines_push(v: Seq<Line>, l: Line)
    ensures
        lines_view(v.push(l)) == lines_view(v).push(l@),
{
    assert(lines_view(v.push(l)) =~= lines_view(v).push(l@));
}

/// Groups tokens into lines: labels attach to the next line, `.text` and
/// `.data` switch sections; the first error stops it.
pub fn parse_tokens(tokens: &[Token]) -> (r: Result<Vec<Line>, ParseFailure>)
    requires
        tokens.len() < usize::MAX - 2,
    ensures
        match spec_parse(toks(tokens@)) {
            Ok(ls) => r matches Ok(v) && lines_view(v@) == ls,
            Err(stop) => r matches Err(f) && failure_is(f, stop),
        },
{
    let ghost ts = toks(tokens@);
    let mut lines: Vec<Line> = Vec::new();
    let mut in_text = true;
    let mut i: usize = 0;
    let len = tokens.len();
    let mut pending: Option<String> = None;
    proof {
        assert(lines_view(lines@) =~= Seq::<LineV>::empty());
        match parse_from(ts, 0, true, None) {
            Ok(x) => assert(Seq::<LineV>::empty() + x =~= x),
            Err(_) => {},
        }
    }
    while i < len
        invariant
            0 <= i <= len + 2,
            len == tokens.len(),
            len < usize::MAX - 2,
            ts == toks(tokens@),
            parse_from(ts, 0, true, None) == prepend_lines(
                lines_view(lines@),
                parse_from(ts, i as int, in_text, label_view(pending)),
            ),
        decreases len + 2 - i,
    {
        if is_directive(&tokens[i], "text") {
            in_text = true;
            i = i + 1;
            if i < len && tokens[i].is_newline() {
                i = i + 1;
            }
            continue;
        } else if is_directive(&tokens[i], "data") {
            in_text = false;
            i = i + 1;
            if i < len && tokens[i].is_newline() {
                i = i + 1;
            }
            continue;
        } else if tokens[i].is_newline() {
            i = i + 1;
            continue;
        }
        if i + 1 < len && tokens[i + 1].is_colon() {
            match &tokens[i] {
                Token::Ident(name) => {
                    if pending.is_some() {
                        let mut m = lit("consecutive labels: '");
                        push_str(&mut m, name.as_str());
                        push_str(&mut m, "' overwrites previous label");
                        return Err(ParseFailure::Error(AssembleError::Parse(m)));
                    }
                    pending = Some(name.clone());
                    i = i + 2;
                    continue;
                },
                _ => {
                    return Err(
                        ParseFailure::Error(
                            AssembleError::Parse(lit("label must be an identifier")),
                        ),
                    );
                },
            }
        }
        let captured = pending;
        pending = None;
        let ghost p = lines_view(lines@);
        if in_text {
            proof {
                lemma_text_line_advances(ts, i as int, label_view(captured));
            }
            match parse_text_line(tokens, i, captured) {
                Ok((line, end)) => {
                    proof {
                        lemma_lines_push(lines@, line);
                        match parse_from(ts, end as int, in_text, None) {
                            Ok(x) => assert(p + (seq![line@] + x) =~= p.push(line@) + x),
                            Err(_) => {},
                        }
                    }
                    lines.push(line);
                    i = end;
                },
                Err(e) => {
                    return Err(ParseFailure::Error(e));
                },
            }
        } else {
            proof {
                lemma_data_line_advances(ts, i as int, label_view(captured));
            }
            match parse_data_line(tokens, i, captured) {
                Ok((line, end)) => {
                    proof {
                        lemma_lines_push(lines@, line);
                        match parse_from(ts, end as int, in_text, None) {
                            Ok(x) => assert(p + (seq![line@] + x) =~= p.push(line@) + x),
                            Err(_) => {},
                        }
                    }
                    lines.push(line);
                    i = end;
                },
                Err(f) => {
                    return Err(f);
                },
            }
        }
    }
    if let Some(label) = pending {
        let mut m = lit("label '");
        push_str(&mut m, label.as_str());
        push_str(&mut m, "' at end of file without instruction or directive");
        return Err(ParseFailure::Error(AssembleError::Parse(m)));
    }
    proof {
        assert(lines_view(lines@) + Seq::<LineV>::empty() =~= lines_view(lines@));
    }
    Ok(lines)
}

/// Groups tokens into lines: labels attach to the next line, `.text` and
/// `.data` switch sections; the first error stops it.
pub fn parse(tokens: &[Token]) -> (r: Result<Vec<Line>, AssembleError>)
    requires
        tokens.len() < usize::MAX - 2,
        !(spec_parse(toks(tokens@)) matches Err(ParseStop::OutOfTokens)),
    ensures
        match spec_parse(toks(tokens@)) {
            Ok(ls) => (r matches Ok(v) && lines_view(v@) == ls),
            Err(ParseStop::Error(m)) => (r matches Err(e) && e@ == AsmError::Parse(m)),
            Err(ParseStop::OutOfTokens) => true,
        },
{
    match parse_tokens(tokens) {
        Ok(lines) => Ok(lines),
        Err(ParseFailure::Error(e)) => Err(e),
        Err(ParseFailure::OutOfTokens) => {
            // the precondition rules this out
            proof {
                assert(false);
            }
            Err(AssembleError::Parse(String::new()))
        },
    }
}

} // verus!
