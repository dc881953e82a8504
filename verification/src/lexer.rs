//! From source text to tokens, with Indent and Dedent for blocks.
//!
//! The lexer is stated as a machine over the characters of the text: `spec_lex` runs it,
//! `lex` is proved to give exactly what it gives.
use vstd::prelude::*;
use crate::diagnostic::{Diagnostic, ErrorKind};
use crate::keywords::{find_spelling, keyword};
use crate::span::Span;
use crate::text::{
    byte_len, byte_offset, char_indices, indexes, lemma_offset_end, lemma_offset_ge_index,
    lemma_offset_mono, push_char,
};
use crate::token::{SpecTokenKind, Token, TokenKind, TokenKindOf};

verus! {

/// Whether `c` has Unicode's Alphabetic property.
pub uninterp spec fn alphabetic(c: char) -> bool;

/// Whether `c` is Alphabetic or Numeric.
pub uninterp spec fn alphanumeric(c: char) -> bool;

/// `char::is_alphabetic`; its result is named `alphabetic`.
#[verifier::external_body]
fn is_alphabetic(c: char) -> (r: bool)
    ensures
        r == alphabetic(c),
{
    c.is_alphabetic()
}

/// `char::is_alphanumeric`; its result is named `alphanumeric`. std documents it as
/// `is_alphabetic() || is_numeric()`, so an alphabetic character is alphanumeric.
#[verifier::external_body]
fn is_alphanumeric(c: char) -> (r: bool)
    ensures
        r == alphanumeric(c),
        alphabetic(c) ==> r,
{
    c.is_alphanumeric()
}

/// An ASCII digit.
pub open spec fn is_digit(c: char) -> bool {
    '0' <= c <= '9'
}

/// The apostrophes that may join two halves of a name: `'`, `’` and `ʼ`.
pub open spec fn is_apostrophe(c: char) -> bool {
    c == '\'' || c == '’' || c == 'ʼ'
}

/// A token as specifications see it.
pub type SpecToken = (SpecTokenKind, Span);

/// Where the lexer stands: the next character, the tokens so far, the widths of the open
/// blocks, how deep inside brackets it is, and which character indentation has used.
pub struct Scan {
    pub pos: int,
    pub tokens: Seq<SpecToken>,
    pub indents: Seq<int>,
    pub depth: int,
    pub indent_char: Option<char>,
}

/// The byte offset of character `p` of `s`.
pub open spec fn at(s: Seq<char>, p: int) -> usize {
    byte_offset(s, p) as usize
}

/// The bytes of characters `a..b`.
pub open spec fn span_of(s: Seq<char>, a: int, b: int) -> Span {
    Span { start: at(s, a), end: at(s, b) }
}

/// Where the first character is: past a byte-order mark.
pub open spec fn first_pos(s: Seq<char>) -> int {
    if s.len() > 0 && s[0] == '\u{feff}' {
        1
    } else {
        0
    }
}

/// Nothing yet, one open block of width 0.
pub open spec fn initial(s: Seq<char>) -> Scan {
    Scan { pos: first_pos(s), tokens: seq![], indents: seq![0], depth: 0, indent_char: None }
}

/// Adds a token of `kind` covering characters `start..st.pos`.
pub open spec fn emit(s: Seq<char>, st: Scan, kind: SpecTokenKind, start: int) -> Scan {
    Scan { tokens: st.tokens.push((kind, span_of(s, start, st.pos))), ..st }
}

/// The tokens so far end a logical line already (or there are none).
pub open spec fn ends_line(t: Seq<SpecToken>) -> bool {
    t.len() == 0 || t.last().0 is Newline || t.last().0 is Indent || t.last().0 is Dedent
}

/// Ends a logical line at byte `b`: never two Newlines in a row, none before the first token.
pub open spec fn newline(s: Seq<char>, st: Scan, b: int) -> Scan {
    if ends_line(st.tokens) {
        st
    } else {
        let end = if b + 1 <= byte_len(s) {
            b + 1
        } else {
            byte_len(s) as int
        };
        Scan {
            tokens: st.tokens.push((TokenKindOf::Newline, Span { start: b as usize, end: end as usize })),
            ..st
        }
    }
}

/// The first line break at or after `p`, or the end.
pub open spec fn line_end(s: Seq<char>, p: int) -> int
    decreases s.len() - p,
{
    if p >= s.len() || s[p] == '\n' {
        p
    } else {
        line_end(s, p + 1)
    }
}

pub proof fn lemma_line_end(s: Seq<char>, p: int)
    ensures
        line_end(s, p) >= p,
        p <= s.len() ==> line_end(s, p) <= s.len(),
        p < s.len() && s[p] != '\n' ==> line_end(s, p) > p,
        line_end(s, p) < s.len() ==> s[line_end(s, p)] == '\n',
    decreases s.len() - p,
{
    if !(p >= s.len() || s[p] == '\n') {
        lemma_line_end(s, p + 1);
    }
}

/// The run of spaces and tabs from `p`: where it ends, its width (a tab counts four),
/// whether it holds a space, whether it holds a tab.
pub open spec fn indent_run(s: Seq<char>, p: int) -> (int, int, bool, bool)
    decreases s.len() - p,
{
    if p >= s.len() || (s[p] != ' ' && s[p] != '\t') {
        (p, 0, false, false)
    } else {
        let r = indent_run(s, p + 1);
        (r.0, r.1 + if s[p] == ' ' {
            1int
        } else {
            4int
        }, r.2 || s[p] == ' ', r.3 || s[p] == '\t')
    }
}

pub proof fn lemma_indent_run(s: Seq<char>, p: int)
    ensures
        indent_run(s, p).0 >= p,
        p <= s.len() ==> indent_run(s, p).0 <= s.len(),
        0 <= indent_run(s, p).1 <= 4 * (indent_run(s, p).0 - p),
        indent_run(s, p).1 > 0 ==> indent_run(s, p).2 || indent_run(s, p).3,
    decreases s.len() - p,
{
    if !(p >= s.len() || (s[p] != ' ' && s[p] != '\t')) {
        lemma_indent_run(s, p + 1);
    }
}

/// Closes the blocks wider than `width`, a Dedent each; the width must then be that of an
/// open block.
pub open spec fn close_to(s: Seq<char>, st: Scan, width: int, span: Span) -> Result<Scan, Diagnostic>
    decreases st.indents.len(),
{
    if st.indents.len() > 0 && width < st.indents.last() {
        let b = at(s, st.pos);
        close_to(
            s,
            Scan {
                indents: st.indents.drop_last(),
                tokens: st.tokens.push((TokenKindOf::Dedent, Span { start: b, end: b })),
                ..st
            },
            width,
            span,
        )
    } else if st.indents.len() == 0 || width != st.indents.last() {
        Err(Diagnostic { kind: ErrorKind::BadDedent, span })
    } else {
        Ok(st)
    }
}

/// A line indented deeper than the open block opens a new one; otherwise blocks close.
pub open spec fn indent_to(s: Seq<char>, st: Scan, width: int, span: Span) -> Result<Scan, Diagnostic> {
    if st.indents.len() > 0 && width > st.indents.last() {
        Ok(
            Scan {
                indents: st.indents.push(width),
                tokens: st.tokens.push((TokenKindOf::Indent, span)),
                ..st
            },
        )
    } else {
        close_to(s, st, width, span)
    }
}

/// The indentation character of a line indented with tabs (`tabs`) or spaces.
pub open spec fn indent_kind(tabs: bool) -> char {
    if tabs {
        '\t'
    } else {
        ' '
    }
}

/// At the start of a line outside brackets: skips blank and comment-only lines, then turns
/// the indentation into Indent or Dedent tokens. Spaces and tabs may not be mixed, in a line
/// or between lines.
pub open spec fn line_start(s: Seq<char>, st: Scan) -> Result<Scan, Diagnostic>
    decreases s.len() - st.pos,
{
    let r = indent_run(s, st.pos);
    let q = r.0;
    let width = r.1;
    proof {
        lemma_indent_run(s, st.pos);
        lemma_line_end(s, q);
    }
    if q >= s.len() {
        Ok(Scan { pos: q, ..st })
    } else if s[q] == '\n' {
        line_start(s, Scan { pos: q + 1, ..st })
    } else if s[q] == '\r' && q + 1 < s.len() && s[q + 1] == '\n' {
        line_start(s, Scan { pos: q + 2, ..st })
    } else if s[q] == '#' {
        line_start(s, Scan { pos: line_end(s, q), ..st })
    } else {
        let span = span_of(s, st.pos, q);
        let kind = indent_kind(r.3);
        if r.2 && r.3 {
            Err(Diagnostic { kind: ErrorKind::MixedIndent, span })
        } else if width > 0 && st.indent_char is Some && st.indent_char != Some(kind) {
            Err(Diagnostic { kind: ErrorKind::MixedIndent, span })
        } else {
            let ic = if width > 0 {
                Some(kind)
            } else {
                st.indent_char
            };
            indent_to(s, Scan { pos: q, indent_char: ic, ..st }, width, span)
        }
    }
}

/// The body of a text from `p` (past the opening quote, which is at `start`), with `value`
/// read so far: where it ends (past the closing quote) and its value.
pub open spec fn text_body(s: Seq<char>, start: int, p: int, value: Seq<char>) -> Result<
    (int, Seq<char>),
    Diagnostic,
>
    decreases s.len() - p,
{
    if p >= s.len() || s[p] == '\n' {
        Err(Diagnostic { kind: ErrorKind::UnterminatedText, span: span_of(s, start, p) })
    } else if s[p] == '"' {
        Ok((p + 1, value))
    } else if s[p] == '\\' {
        if p + 1 >= s.len() || s[p + 1] == '\n' {
            Err(Diagnostic { kind: ErrorKind::UnterminatedText, span: span_of(s, start, p + 1) })
        } else {
            let c = s[p + 1];
            if c == 'n' {
                text_body(s, start, p + 2, value.push('\n'))
            } else if c == 't' {
                text_body(s, start, p + 2, value.push('\t'))
            } else if c == '"' || c == '\\' {
                text_body(s, start, p + 2, value.push(c))
            } else {
                Err(Diagnostic { kind: ErrorKind::BadEscape(c), span: span_of(s, p, p + 2) })
            }
        }
    } else {
        text_body(s, start, p + 1, value.push(s[p]))
    }
}

/// A text literal at the lexer's position.
pub open spec fn text(s: Seq<char>, st: Scan) -> Result<Scan, Diagnostic> {
    match text_body(s, st.pos, st.pos + 1, seq![]) {
        Err(e) => Err(e),
        Ok((q, value)) => Ok(emit(s, Scan { pos: q, ..st }, TokenKindOf::Text(value), st.pos)),
    }
}

/// The whole part of a number from `p`: digits, a `_` skipped where a digit follows it.
pub open spec fn int_digits(s: Seq<char>, p: int, digits: Seq<char>) -> (int, Seq<char>)
    decreases s.len() - p,
{
    if p < s.len() && is_digit(s[p]) {
        int_digits(s, p + 1, digits.push(s[p]))
    } else if p + 1 < s.len() && s[p] == '_' && is_digit(s[p + 1]) {
        int_digits(s, p + 1, digits)
    } else {
        (p, digits)
    }
}

/// The digits of a fraction from `p`.
pub open spec fn frac_digits(s: Seq<char>, p: int, digits: Seq<char>) -> (int, Seq<char>)
    decreases s.len() - p,
{
    if p < s.len() && is_digit(s[p]) {
        frac_digits(s, p + 1, digits.push(s[p]))
    } else {
        (p, digits)
    }
}

/// A number at the lexer's position, kept as its digits: `1_000.5` gives `1000.5`.
pub open spec fn number(s: Seq<char>, st: Scan) -> Scan {
    let w = int_digits(s, st.pos, seq![]);
    let q = w.0;
    let f = if q + 1 < s.len() && s[q] == '.' && is_digit(s[q + 1]) {
        frac_digits(s, q + 1, w.1.push('.'))
    } else {
        w
    };
    emit(s, Scan { pos: f.0, ..st }, TokenKindOf::Number(f.1), st.pos)
}

/// The characters of a name from `p`, with `word` read so far: letters, digits and `_`, and an
/// apostrophe between two letters, written as `'`.
pub open spec fn name_chars(s: Seq<char>, p: int, word: Seq<char>) -> (int, Seq<char>)
    decreases s.len() - p,
{
    if p >= s.len() {
        (p, word)
    } else if alphanumeric(s[p]) || s[p] == '_' {
        name_chars(s, p + 1, word.push(s[p]))
    } else if is_apostrophe(s[p]) && word.len() > 0 && alphabetic(word.last()) && p + 1 < s.len()
        && alphabetic(s[p + 1]) {
        name_chars(s, p + 1, word.push('\''))
    } else {
        (p, word)
    }
}

/// A keyword if `w` spells one, else a name.
pub open spec fn word_kind(w: Seq<char>) -> SpecTokenKind {
    match find_spelling(w, 0) {
        Some(k) => TokenKindOf::Kw(k),
        None => TokenKindOf::Name(w),
    }
}

/// A name or keyword at the lexer's position, which holds a letter or `_`.
pub open spec fn name(s: Seq<char>, st: Scan) -> Scan {
    let w = name_chars(s, st.pos + 1, seq![s[st.pos]]);
    emit(s, Scan { pos: w.0, ..st }, word_kind(w.1), st.pos)
}

/// The operator or bracket at `p` and how many characters it takes, if there is one.
pub open spec fn symbol_kind(s: Seq<char>, p: int) -> Option<(SpecTokenKind, int)> {
    let c = s[p];
    let eq = p + 1 < s.len() && s[p + 1] == '=';
    if c == '+' {
        Some((TokenKindOf::Plus, 1))
    } else if c == '-' {
        Some((TokenKindOf::Minus, 1))
    } else if c == '*' {
        Some((TokenKindOf::Star, 1))
    } else if c == '/' {
        Some((TokenKindOf::Slash, 1))
    } else if c == '%' {
        Some((TokenKindOf::Percent, 1))
    } else if c == ',' {
        Some((TokenKindOf::Comma, 1))
    } else if c == ':' {
        Some((TokenKindOf::Colon, 1))
    } else if c == '(' {
        Some((TokenKindOf::LParen, 1))
    } else if c == '[' {
        Some((TokenKindOf::LBracket, 1))
    } else if c == ')' {
        Some((TokenKindOf::RParen, 1))
    } else if c == ']' {
        Some((TokenKindOf::RBracket, 1))
    } else if c == '=' {
        if eq {
            Some((TokenKindOf::EqEq, 2))
        } else {
            Some((TokenKindOf::Assign, 1))
        }
    } else if c == '<' {
        if eq {
            Some((TokenKindOf::LessEq, 2))
        } else {
            Some((TokenKindOf::Less, 1))
        }
    } else if c == '>' {
        if eq {
            Some((TokenKindOf::GreaterEq, 2))
        } else {
            Some((TokenKindOf::Greater, 1))
        }
    } else if c == '!' && eq {
        Some((TokenKindOf::NotEq, 2))
    } else {
        None
    }
}

/// How deep inside brackets after `c`: an opening bracket goes one deeper, a closing one one
/// out, never below zero.
pub open spec fn depth_after(c: char, depth: int) -> int {
    if c == '(' || c == '[' {
        depth + 1
    } else if (c == ')' || c == ']') && depth > 0 {
        depth - 1
    } else if c == ')' || c == ']' {
        0
    } else {
        depth
    }
}

/// An operator or bracket at the lexer's position; any other character is refused.
pub open spec fn symbol(s: Seq<char>, st: Scan) -> Result<Scan, Diagnostic> {
    match symbol_kind(s, st.pos) {
        None => Err(
            Diagnostic {
                kind: ErrorKind::UnexpectedChar(s[st.pos]),
                span: span_of(s, st.pos, st.pos + 1),
            },
        ),
        Some((kind, n)) => Ok(
            emit(
                s,
                Scan { pos: st.pos + n, depth: depth_after(s[st.pos], st.depth), ..st },
                kind,
                st.pos,
            ),
        ),
    }
}

/// One step of the main loop, at the character at the lexer's position.
pub open spec fn step(s: Seq<char>, st: Scan) -> Result<Scan, Diagnostic> {
    let c = s[st.pos];
    if c == '\n' {
        let next = Scan { pos: st.pos + 1, ..st };
        if st.depth == 0 {
            line_start(s, newline(s, next, byte_offset(s, st.pos) as int))
        } else {
            Ok(next)
        }
    } else if c == ' ' || c == '\t' || c == '\r' {
        Ok(Scan { pos: st.pos + 1, ..st })
    } else if c == '#' {
        Ok(Scan { pos: line_end(s, st.pos), ..st })
    } else if c == '"' {
        text(s, st)
    } else if is_digit(c) {
        Ok(number(s, st))
    } else if alphabetic(c) || c == '_' {
        Ok(name(s, st))
    } else {
        symbol(s, st)
    }
}

/// At the end of the text: the last logical line ends, every open block closes, then Eof.
pub open spec fn finish(s: Seq<char>, st: Scan) -> Seq<SpecToken> {
    let end = byte_len(s) as usize;
    let closing = if st.indents.len() > 1 {
        (st.indents.len() - 1) as nat
    } else {
        0nat
    };
    newline(s, st, end as int).tokens + Seq::new(
        closing,
        |_i: int| (TokenKindOf::Dedent, Span { start: end, end }),
    ) + seq![(TokenKindOf::Eof, Span { start: end, end })]
}

pub proof fn lemma_close_to(s: Seq<char>, st: Scan, width: int, span: Span)
    ensures
        close_to(s, st, width, span) matches Ok(r) ==> r.pos == st.pos,
    decreases st.indents.len(),
{
    if st.indents.len() > 0 && width < st.indents.last() {
        let b = at(s, st.pos);
        lemma_close_to(
            s,
            Scan {
                indents: st.indents.drop_last(),
                tokens: st.tokens.push((TokenKindOf::Dedent, Span { start: b, end: b })),
                ..st
            },
            width,
            span,
        );
    }
}

pub proof fn lemma_line_start(s: Seq<char>, st: Scan)
    ensures
        line_start(s, st) matches Ok(r) ==> r.pos >= st.pos && (st.pos <= s.len() ==> r.pos
            <= s.len()),
    decreases s.len() - st.pos,
{
    let r = indent_run(s, st.pos);
    let q = r.0;
    lemma_indent_run(s, st.pos);
    lemma_line_end(s, q);
    if q >= s.len() {
    } else if s[q] == '\n' {
        lemma_line_start(s, Scan { pos: q + 1, ..st });
    } else if s[q] == '\r' && q + 1 < s.len() && s[q + 1] == '\n' {
        lemma_line_start(s, Scan { pos: q + 2, ..st });
    } else if s[q] == '#' {
        lemma_line_start(s, Scan { pos: line_end(s, q), ..st });
    } else {
        let span = span_of(s, st.pos, q);
        let kind = indent_kind(r.3);
        let ic = if r.1 > 0 {
            Some(kind)
        } else {
            st.indent_char
        };
        let st2 = Scan { pos: q, indent_char: ic, ..st };
        lemma_close_to(s, st2, r.1, span);
    }
}

pub proof fn lemma_text_body(s: Seq<char>, start: int, p: int, value: Seq<char>)
    ensures
        text_body(s, start, p, value) matches Ok(r) ==> p < r.0 && (p <= s.len() ==> r.0
            <= s.len()),
    decreases s.len() - p,
{
    if p >= s.len() || s[p] == '\n' {
    } else if s[p] == '"' {
    } else if s[p] == '\\' {
        if !(p + 1 >= s.len() || s[p + 1] == '\n') {
            let c = s[p + 1];
            if c == 'n' {
                lemma_text_body(s, start, p + 2, value.push('\n'));
            } else if c == 't' {
                lemma_text_body(s, start, p + 2, value.push('\t'));
            } else if c == '"' || c == '\\' {
                lemma_text_body(s, start, p + 2, value.push(c));
            }
        }
    } else {
        lemma_text_body(s, start, p + 1, value.push(s[p]));
    }
}

pub proof fn lemma_int_digits(s: Seq<char>, p: int, digits: Seq<char>)
    ensures
        int_digits(s, p, digits).0 >= p,
        p <= s.len() ==> int_digits(s, p, digits).0 <= s.len(),
        p < s.len() && is_digit(s[p]) ==> int_digits(s, p, digits).0 > p,
    decreases s.len() - p,
{
    if p < s.len() && is_digit(s[p]) {
        lemma_int_digits(s, p + 1, digits.push(s[p]));
    } else if p + 1 < s.len() && s[p] == '_' && is_digit(s[p + 1]) {
        lemma_int_digits(s, p + 1, digits);
    }
}

pub proof fn lemma_frac_digits(s: Seq<char>, p: int, digits: Seq<char>)
    ensures
        frac_digits(s, p, digits).0 >= p,
        p <= s.len() ==> frac_digits(s, p, digits).0 <= s.len(),
    decreases s.len() - p,
{
    if p < s.len() && is_digit(s[p]) {
        lemma_frac_digits(s, p + 1, digits.push(s[p]));
    }
}

pub proof fn lemma_name_chars(s: Seq<char>, p: int, word: Seq<char>)
    ensures
        name_chars(s, p, word).0 >= p,
        p <= s.len() ==> name_chars(s, p, word).0 <= s.len(),
    decreases s.len() - p,
{
    if p >= s.len() {
    } else if alphanumeric(s[p]) || s[p] == '_' {
        lemma_name_chars(s, p + 1, word.push(s[p]));
    } else if is_apostrophe(s[p]) && word.len() > 0 && alphabetic(word.last()) && p + 1 < s.len()
        && alphabetic(s[p + 1]) {
        lemma_name_chars(s, p + 1, word.push('\''));
    }
}

/// Every step of the main loop reads at least one character and stays within the text.
pub proof fn lemma_step_advances(s: Seq<char>, st: Scan)
    requires
        st.pos < s.len(),
    ensures
        step(s, st) matches Ok(next) ==> st.pos < next.pos <= s.len(),
{
    let c = s[st.pos];
    if c == '\n' {
        let next = Scan { pos: st.pos + 1, ..st };
        lemma_line_start(s, newline(s, next, byte_offset(s, st.pos) as int));
    } else if c == ' ' || c == '\t' || c == '\r' {
    } else if c == '#' {
        lemma_line_end(s, st.pos);
    } else if c == '"' {
        lemma_text_body(s, st.pos, st.pos + 1, seq![]);
    } else if is_digit(c) {
        let w = int_digits(s, st.pos, seq![]);
        lemma_int_digits(s, st.pos, seq![]);
        if w.0 + 1 < s.len() && s[w.0] == '.' && is_digit(s[w.0 + 1]) {
            lemma_frac_digits(s, w.0 + 1, w.1.push('.'));
        }
    } else if alphabetic(c) || c == '_' {
        lemma_name_chars(s, st.pos + 1, seq![c]);
    }
}

/// The main loop from `st` to the end of the text.
pub open spec fn run(s: Seq<char>, st: Scan) -> Result<Seq<SpecToken>, Diagnostic>
    decreases s.len() - st.pos,
{
    if st.pos >= s.len() {
        Ok(finish(s, st))
    } else {
        proof {
            lemma_step_advances(s, st);
        }
        match step(s, st) {
            Err(e) => Err(e),
            Ok(next) => run(s, next),
        }
    }
}

/// The tokens of `s`, or the first error in it.
pub open spec fn spec_lex(s: Seq<char>) -> Result<Seq<SpecToken>, Diagnostic> {
    match line_start(s, initial(s)) {
        Err(e) => Err(e),
        Ok(st) => run(s, st),
    }
}


/// Blocks opened minus blocks closed.
pub open spec fn open_blocks(t: Seq<SpecToken>) -> int
    decreases t.len(),
{
    if t.len() == 0 {
        0
    } else {
        open_blocks(t.drop_last()) + if t.last().0 is Indent {
            1int
        } else if t.last().0 is Dedent {
            -1int
        } else {
            0int
        }
    }
}

/// Every span starts no later than it ends, and ends within the text.
pub open spec fn spans_within(s: Seq<char>, t: Seq<SpecToken>) -> bool {
    forall|i: int| 0 <= i < t.len() ==> #[trigger] t[i].1.start <= t[i].1.end <= byte_len(s)
}

/// No Newline comes first, and none right after a Newline, an Indent or a Dedent.
pub open spec fn single_newlines(t: Seq<SpecToken>) -> bool {
    forall|i: int|
        0 <= i < t.len() && (#[trigger] t[i]).0 is Newline ==> i > 0 && !(t[i - 1].0 is Newline
            || t[i - 1].0 is Indent || t[i - 1].0 is Dedent)
}

/// How many round and square brackets are open after a token of `kind`, when `open` were
/// open before it; a closing bracket with none open changes nothing.
pub open spec fn brackets_after(kind: SpecTokenKind, open: int) -> int {
    if kind is LParen || kind is LBracket {
        open + 1
    } else if kind is RParen || kind is RBracket {
        if open > 0 {
            open - 1
        } else {
            0
        }
    } else {
        open
    }
}

/// How many round and square brackets the tokens `t` leave open.
pub open spec fn open_brackets(t: Seq<SpecToken>) -> int
    decreases t.len(),
{
    if t.len() == 0 {
        0
    } else {
        brackets_after(t.last().0, open_brackets(t.drop_last()))
    }
}

/// Newline, Indent and Dedent come only where no bracket is open: a line break inside brackets
/// does not end a line. Those the end of the text adds, at its very end, are the exception.
pub open spec fn breaks_outside_brackets(s: Seq<char>, t: Seq<SpecToken>) -> bool {
    forall|i: int|
        0 <= i < t.len() && ((#[trigger] t[i]).0 is Newline || t[i].0 is Indent || t[i].0 is Dedent)
            && t[i].1.start < byte_len(s) ==> open_brackets(t.take(i)) == 0
}

/// No prefix of `t` closes more blocks than it opens.
pub open spec fn never_negative(t: Seq<SpecToken>) -> bool {
    forall|k: int| 0 <= k <= t.len() ==> open_blocks(#[trigger] t.take(k)) >= 0
}

/// No token is Eof.
pub open spec fn no_eof(t: Seq<SpecToken>) -> bool {
    forall|i: int| 0 <= i < t.len() ==> !((#[trigger] t[i]).0 is Eof)
}

/// What the lexer keeps true while it runs.
pub open spec fn scan_ok(s: Seq<char>, st: Scan) -> bool {
    &&& 0 <= st.pos <= s.len()
    &&& byte_len(s) < usize::MAX
    &&& spans_within(s, st.tokens)
    &&& single_newlines(st.tokens)
    &&& never_negative(st.tokens)
    &&& no_eof(st.tokens)
    &&& st.indents.len() >= 1
    &&& st.indents[0] == 0
    &&& open_blocks(st.tokens) == st.indents.len() - 1
    &&& open_brackets(st.tokens) == st.depth
    &&& breaks_outside_brackets(s, st.tokens)
}

/// The shape of every token list the lexer hands over: it ends with Eof and has no other,
/// it closes every block it opens and no prefix closes more than it opened, it never starts
/// with a Newline nor puts one right after a Newline, Indent or Dedent, a line break inside
/// round or square brackets ends no line, and every span lies within the text.
pub open spec fn lexed_shape(s: Seq<char>, t: Seq<SpecToken>) -> bool {
    &&& t.len() >= 1
    &&& t.last().0 is Eof
    &&& no_eof(t.drop_last())
    &&& open_blocks(t) == 0
    &&& never_negative(t)
    &&& single_newlines(t)
    &&& spans_within(s, t)
    &&& breaks_outside_brackets(s, t)
}

proof fn lemma_push_token(s: Seq<char>, t: Seq<SpecToken>, tok: SpecToken)
    requires
        spans_within(s, t),
        single_newlines(t),
        no_eof(t),
        tok.1.start <= tok.1.end <= byte_len(s),
        !(tok.0 is Eof),
        tok.0 is Newline ==> !ends_line(t),
        never_negative(t),
        tok.0 is Dedent ==> open_blocks(t) >= 1,
        breaks_outside_brackets(s, t),
        (tok.0 is Newline || tok.0 is Indent || tok.0 is Dedent) && tok.1.start < byte_len(s)
            ==> open_brackets(t) == 0,
    ensures
        spans_within(s, t.push(tok)),
        single_newlines(t.push(tok)),
        never_negative(t.push(tok)),
        breaks_outside_brackets(s, t.push(tok)),
        open_brackets(t.push(tok)) == brackets_after(tok.0, open_brackets(t)),
        no_eof(t.push(tok)),
        open_blocks(t.push(tok)) == open_blocks(t) + if tok.0 is Indent {
            1int
        } else if tok.0 is Dedent {
            -1int
        } else {
            0int
        },
{
    let u = t.push(tok);
    assert(u.drop_last() =~= t);
    assert forall|i: int| 0 <= i < u.len() && (#[trigger] u[i]).0 is Newline implies i > 0 && !(u[i
        - 1].0 is Newline || u[i - 1].0 is Indent || u[i - 1].0 is Dedent) by {
        if i < t.len() {
            assert(u[i] == t[i]);
        }
    }
    assert forall|k: int| 0 <= k <= u.len() implies open_blocks(#[trigger] u.take(k)) >= 0 by {
        if k <= t.len() {
            assert(u.take(k) =~= t.take(k));
        } else {
            assert(u.take(k) =~= u);
            assert(t.take(t.len() as int) =~= t);
        }
    }
    assert forall|i: int|
        0 <= i < u.len() && ((#[trigger] u[i]).0 is Newline || u[i].0 is Indent || u[i].0 is Dedent)
            && u[i].1.start < byte_len(s) implies open_brackets(u.take(i)) == 0 by {
        if i < t.len() {
            assert(u[i] == t[i]);
            assert(u.take(i) =~= t.take(i));
        } else {
            assert(u.take(i) =~= t);
        }
    }
}

proof fn lemma_span_of(s: Seq<char>, a: int, b: int)
    requires
        0 <= a <= b <= s.len(),
        byte_len(s) < usize::MAX,
    ensures
        span_of(s, a, b).start <= span_of(s, a, b).end <= byte_len(s),
        at(s, a) == byte_offset(s, a),
        at(s, b) == byte_offset(s, b),
{
    lemma_offset_mono(s, a, b);
    lemma_offset_mono(s, b, s.len() as int);
    lemma_offset_end(s);
}

/// The lexer's depth follows the brackets it emits: an opening bracket goes one deeper, a
/// closing one one out.
proof fn lemma_symbol_depth(s: Seq<char>, p: int, d: int)
    requires
        0 <= p < s.len(),
    ensures
        symbol_kind(s, p) matches Some((kind, _)) ==> depth_after(s[p], d) == brackets_after(kind, d),
{
}

proof fn lemma_emit_ok(s: Seq<char>, st: Scan, kind: SpecTokenKind, start: int)
    requires
        scan_ok(s, Scan { depth: open_brackets(st.tokens), ..st }),
        st.depth == brackets_after(kind, open_brackets(st.tokens)),
        0 <= start <= st.pos,
        !(kind is Eof || kind is Newline || kind is Indent || kind is Dedent),
    ensures
        scan_ok(s, emit(s, st, kind, start)),
{
    lemma_span_of(s, start, st.pos);
    lemma_push_token(s, st.tokens, (kind, span_of(s, start, st.pos)));
}

proof fn lemma_newline_ok(s: Seq<char>, st: Scan, b: int)
    requires
        scan_ok(s, st),
        0 <= b <= byte_len(s),
        b < byte_len(s) ==> st.depth == 0,
    ensures
        scan_ok(s, newline(s, st, b)),
        newline(s, st, b).pos == st.pos,
        newline(s, st, b).indents == st.indents,
{
    if !ends_line(st.tokens) {
        let end = if b + 1 <= byte_len(s) {
            b + 1
        } else {
            byte_len(s) as int
        };
        lemma_push_token(
            s,
            st.tokens,
            (TokenKindOf::Newline, Span { start: b as usize, end: end as usize }),
        );
    }
}

proof fn lemma_close_to_ok(s: Seq<char>, st: Scan, width: int, span: Span)
    requires
        scan_ok(s, st),
        st.depth == 0,
        width >= 0,
    ensures
        close_to(s, st, width, span) matches Ok(r) ==> scan_ok(s, r),
    decreases st.indents.len(),
{
    if st.indents.len() > 0 && width < st.indents.last() {
        let b = at(s, st.pos);
        lemma_span_of(s, st.pos, st.pos);
        assert(st.indents.len() >= 2);
        lemma_push_token(s, st.tokens, (TokenKindOf::Dedent, Span { start: b, end: b }));
        let next = Scan {
            indents: st.indents.drop_last(),
            tokens: st.tokens.push((TokenKindOf::Dedent, Span { start: b, end: b })),
            ..st
        };
        assert(st.indents.len() >= 2);
        lemma_close_to_ok(s, next, width, span);
    }
}

proof fn lemma_line_start_ok(s: Seq<char>, st: Scan)
    requires
        scan_ok(s, st),
        st.depth == 0,
    ensures
        line_start(s, st) matches Ok(r) ==> scan_ok(s, r),
    decreases s.len() - st.pos,
{
    let r = indent_run(s, st.pos);
    let q = r.0;
    lemma_indent_run(s, st.pos);
    lemma_line_end(s, q);
    if q >= s.len() {
    } else if s[q] == '\n' {
        lemma_line_start_ok(s, Scan { pos: q + 1, ..st });
    } else if s[q] == '\r' && q + 1 < s.len() && s[q + 1] == '\n' {
        lemma_line_start_ok(s, Scan { pos: q + 2, ..st });
    } else if s[q] == '#' {
        lemma_line_start_ok(s, Scan { pos: line_end(s, q), ..st });
    } else {
        let span = span_of(s, st.pos, q);
        lemma_span_of(s, st.pos, q);
        let kind = indent_kind(r.3);
        let ic = if r.1 > 0 {
            Some(kind)
        } else {
            st.indent_char
        };
        let st2 = Scan { pos: q, indent_char: ic, ..st };
        if st2.indents.len() > 0 && r.1 > st2.indents.last() {
            lemma_push_token(s, st2.tokens, (TokenKindOf::Indent, span));
        } else {
            lemma_close_to_ok(s, st2, r.1, span);
        }
    }
}

proof fn lemma_step_ok(s: Seq<char>, st: Scan)
    requires
        scan_ok(s, st),
        st.pos < s.len(),
    ensures
        step(s, st) matches Ok(r) ==> scan_ok(s, r),
{
    let c = s[st.pos];
    lemma_step_advances(s, st);
    if c == '\n' {
        let next = Scan { pos: st.pos + 1, ..st };
        if st.depth == 0 {
            lemma_span_of(s, st.pos, st.pos);
            lemma_newline_ok(s, next, byte_offset(s, st.pos) as int);
            lemma_line_start_ok(s, newline(s, next, byte_offset(s, st.pos) as int));
        }
    } else if c == ' ' || c == '\t' || c == '\r' {
    } else if c == '#' {
    } else if c == '"' {
        match text_body(s, st.pos, st.pos + 1, seq![]) {
            Err(_) => {},
            Ok((q, value)) => {
                lemma_emit_ok(s, Scan { pos: q, ..st }, TokenKindOf::Text(value), st.pos);
            },
        }
    } else if is_digit(c) {
        let w = int_digits(s, st.pos, seq![]);
        let f = if w.0 + 1 < s.len() && s[w.0] == '.' && is_digit(s[w.0 + 1]) {
            frac_digits(s, w.0 + 1, w.1.push('.'))
        } else {
            w
        };
        lemma_emit_ok(s, Scan { pos: f.0, ..st }, TokenKindOf::Number(f.1), st.pos);
    } else if alphabetic(c) || c == '_' {
        let w = name_chars(s, st.pos + 1, seq![c]);
        lemma_emit_ok(s, Scan { pos: w.0, ..st }, word_kind(w.1), st.pos);
    } else {
        match symbol_kind(s, st.pos) {
            None => {},
            Some((kind, n)) => {
                lemma_symbol_depth(s, st.pos, st.depth);
                lemma_emit_ok(
                    s,
                    Scan { pos: st.pos + n, depth: depth_after(c, st.depth), ..st },
                    kind,
                    st.pos,
                );
            },
        }
    }
}

proof fn lemma_dedents(s: Seq<char>, t: Seq<SpecToken>, dedent: SpecToken, k: nat)
    requires
        spans_within(s, t),
        single_newlines(t),
        no_eof(t),
        dedent.0 is Dedent,
        dedent.1.start <= dedent.1.end <= byte_len(s),
        dedent.1.start == byte_len(s),
        never_negative(t),
        open_blocks(t) >= k,
        breaks_outside_brackets(s, t),
    ensures
        breaks_outside_brackets(s, t + Seq::new(k, |_i: int| dedent)),
        spans_within(s, t + Seq::new(k, |_i: int| dedent)),
        single_newlines(t + Seq::new(k, |_i: int| dedent)),
        never_negative(t + Seq::new(k, |_i: int| dedent)),
        no_eof(t + Seq::new(k, |_i: int| dedent)),
        open_blocks(t + Seq::new(k, |_i: int| dedent)) == open_blocks(t) - k,
    decreases k,
{
    if k == 0 {
        assert(t + Seq::new(0, |_i: int| dedent) =~= t);
    } else {
        let k1 = (k - 1) as nat;
        lemma_dedents(s, t, dedent, k1);
        let u = t + Seq::new(k1, |_i: int| dedent);
        lemma_push_token(s, u, dedent);
        assert(u.push(dedent) =~= t + Seq::new(k, |_i: int| dedent));
    }
}

proof fn lemma_finish_ok(s: Seq<char>, st: Scan)
    requires
        scan_ok(s, st),
    ensures
        lexed_shape(s, finish(s, st)),
{
    let end = byte_len(s) as usize;
    lemma_newline_ok(s, st, end as int);
    let lined = newline(s, st, end as int);
    let closing = (st.indents.len() - 1) as nat;
    let dedent = (TokenKindOf::Dedent, Span { start: end, end });
    lemma_dedents(s, lined.tokens, dedent, closing);
    let t = lined.tokens + Seq::new(closing, |_i: int| dedent);
    let eof = (TokenKindOf::Eof, Span { start: end, end });
    let u = t.push(eof);
    assert(finish(s, st) =~= u);
    assert(u.drop_last() =~= t);
    lemma_push_token(s, t, (TokenKindOf::Plus, Span { start: end, end }));
    assert forall|i: int| 0 <= i < u.len() && (#[trigger] u[i]).0 is Newline implies i > 0 && !(u[i
        - 1].0 is Newline || u[i - 1].0 is Indent || u[i - 1].0 is Dedent) by {
        assert(u[i] == t[i]);
    }
    assert forall|k: int| 0 <= k <= u.len() implies open_blocks(#[trigger] u.take(k)) >= 0 by {
        if k <= t.len() {
            assert(u.take(k) =~= t.take(k));
        } else {
            assert(u.take(k) =~= u);
            assert(t.take(t.len() as int) =~= t);
        }
    }
    assert forall|i: int|
        0 <= i < u.len() && ((#[trigger] u[i]).0 is Newline || u[i].0 is Indent || u[i].0 is Dedent)
            && u[i].1.start < byte_len(s) implies open_brackets(u.take(i)) == 0 by {
        if i < t.len() {
            assert(u[i] == t[i]);
            assert(u.take(i) =~= t.take(i));
        } else {
            assert(u.take(i) =~= t);
        }
    }
}

proof fn lemma_run_ok(s: Seq<char>, st: Scan)
    requires
        scan_ok(s, st),
    ensures
        run(s, st) matches Ok(t) ==> lexed_shape(s, t),
    decreases s.len() - st.pos,
{
    if st.pos >= s.len() {
        lemma_finish_ok(s, st);
    } else {
        lemma_step_advances(s, st);
        lemma_step_ok(s, st);
        match step(s, st) {
            Err(_) => {},
            Ok(next) => {
                lemma_run_ok(s, next);
            },
        }
    }
}

/// Whatever `lex` hands over ends with Eof and has no other, closes every block it opens
/// without any prefix closing more than it opened, never starts with a Newline nor puts one
/// right after a Newline, Indent or Dedent, gives no Newline, Indent or Dedent while a round or
/// square bracket is open (but at the very end), and keeps every span within the text.
pub proof fn lemma_lex_shape(s: Seq<char>)
    requires
        byte_len(s) < usize::MAX / 4,
    ensures
        spec_lex(s) matches Ok(t) ==> lexed_shape(s, t),
{
    let st = initial(s);
    assert(open_blocks(st.tokens) == 0);
    lemma_offset_ge_index(s, s.len() as int);
    lemma_offset_end(s);
    lemma_line_start_ok(s, st);
    match line_start(s, st) {
        Err(_) => {},
        Ok(next) => {
            lemma_run_ok(s, next);
        },
    }
}

/// The lexer's state over the characters of one text.
struct Lexer {
    chars: Vec<(usize, char)>,
    end: usize,
    src: Ghost<Seq<char>>,
    pos: usize,
    tokens: Vec<Token>,
    indents: Vec<usize>,
    depth: usize,
    indent_char: Option<char>,
}

/// `new` reads the same text as `old`.
spec fn same_text(old: Lexer, new: Lexer) -> bool {
    &&& new.src@ == old.src@
    &&& new.chars@ == old.chars@
    &&& new.end == old.end
}

impl Lexer {
    spec fn scan(&self) -> Scan {
        Scan {
            pos: self.pos as int,
            tokens: self.tokens@.map_values(|t: Token| t@),
            indents: self.indents@.map_values(|w: usize| w as int),
            depth: self.depth as int,
            indent_char: self.indent_char,
        }
    }

    spec fn wf(&self) -> bool {
        let s = self.src@;
        &&& indexes(self.chars@, s)
        &&& self.chars@.len() == s.len()
        &&& self.end == byte_len(s)
        &&& byte_len(s) < usize::MAX / 4
        &&& s.len() < usize::MAX / 4
        &&& self.pos <= s.len()
        &&& self.depth <= self.pos
        &&& self.indents@.len() >= 1
        &&& self.indents@[0] == 0
    }

    fn new(src: &str) -> (l: Lexer)
        requires
            byte_len(src@) < usize::MAX / 4,
        ensures
            l.wf(),
            l.src@ == src@,
            l.scan() == initial(src@),
    {
        let chars = char_indices(src);
        let pos: usize = if chars.len() > 0 && chars[0].1 == '\u{feff}' {
            1
        } else {
            0
        };
        proof {
            lemma_offset_ge_index(src@, src@.len() as int);
            lemma_offset_end(src@);
        }
        let l = Lexer {
            chars,
            end: src.len(),
            src: Ghost(src@),
            pos,
            tokens: Vec::new(),
            indents: vec![0],
            depth: 0,
            indent_char: None,
        };
        assert(l.scan().tokens =~= Seq::<SpecToken>::empty());
        assert(l.scan().indents =~= seq![0int]);
        l
    }

    /// Character `p`.
    fn char_at(&self, p: usize) -> (c: char)
        requires
            self.wf(),
            p < self.src@.len(),
        ensures
            c == self.src@[p as int],
    {
        proof {
            reveal(indexes);
        }
        self.chars[p].1
    }

    /// The byte offset of character `p`, or the text's length at its end.
    fn offset_of(&self, p: usize) -> (b: usize)
        requires
            self.wf(),
            p <= self.src@.len(),
        ensures
            b == at(self.src@, p as int),
            b == byte_offset(self.src@, p as int),
            b <= self.end,
    {
        proof {
            reveal(indexes);
            lemma_offset_mono(self.src@, p as int, self.src@.len() as int);
            lemma_offset_end(self.src@);
            if p < self.chars@.len() {
                assert(self.chars@[p as int].1 == self.src@[p as int]);
            }
        }
        if p < self.chars.len() {
            self.chars[p].0
        } else {
            self.end
        }
    }

    /// Adds a token covering characters `start..pos`.
    fn push(&mut self, kind: TokenKind, start: usize)
        requires
            old(self).wf(),
            start <= old(self).pos,
        ensures
            final(self).wf(),
            same_text(*old(self), *final(self)),
            final(self).scan() == emit(old(self).src@, old(self).scan(), kind@, start as int),
    {
        let span = Span::new(self.offset_of(start), self.offset_of(self.pos));
        let ghost before = self.tokens@;
        self.tokens.push(Token { kind, span });
        proof {
            assert(self.tokens@.map_values(|t: Token| t@) =~= before.map_values(|t: Token| t@).push(
                (kind@, span),
            ));
        }
    }

    /// Ends a logical line at byte `b`.
    fn newline(&mut self, b: usize)
        requires
            old(self).wf(),
            b <= old(self).end,
        ensures
            final(self).wf(),
            same_text(*old(self), *final(self)),
            final(self).scan() == newline(old(self).src@, old(self).scan(), b as int),
    {
        let n = self.tokens.len();
        let ends = if n == 0 {
            true
        } else {
            match self.tokens[n - 1].kind {
                TokenKindOf::Newline | TokenKindOf::Indent | TokenKindOf::Dedent => true,
                _ => false,
            }
        };
        if !ends {
            let end = if b < self.end {
                b + 1
            } else {
                self.end
            };
            let ghost before = self.tokens@;
            self.tokens.push(Token { kind: TokenKindOf::Newline, span: Span::new(b, end) });
            proof {
                assert(self.tokens@.map_values(|t: Token| t@) =~= before.map_values(
                    |t: Token| t@,
                ).push((TokenKindOf::Newline, Span { start: b, end })));
            }
        }
    }

    /// The first line break at or after `p`, or the end.
    fn line_end(&self, p: usize) -> (q: usize)
        requires
            self.wf(),
            p <= self.src@.len(),
        ensures
            q == line_end(self.src@, p as int),
    {
        let mut q = p;
        while q < self.chars.len() && self.char_at(q) != '\n'
            invariant
                self.wf(),
                p <= q <= self.src@.len(),
                line_end(self.src@, p as int) == line_end(self.src@, q as int),
            decreases self.src@.len() - q,
        {
            q += 1;
        }
        q
    }

    /// The run of spaces and tabs from `p`.
    fn indent_run(&self, p: usize) -> (r: (usize, usize, bool, bool))
        requires
            self.wf(),
            p <= self.src@.len(),
        ensures
            r.0 as int == indent_run(self.src@, p as int).0,
            r.1 as int == indent_run(self.src@, p as int).1,
            r.2 == indent_run(self.src@, p as int).2,
            r.3 == indent_run(self.src@, p as int).3,
    {
        let ghost s = self.src@;
        let mut q = p;
        let mut width: usize = 0;
        let mut spaces = false;
        let mut tabs = false;
        proof {
            lemma_offset_ge_index(s, s.len() as int);
            lemma_offset_end(s);
        }
        while q < self.chars.len() && (self.char_at(q) == ' ' || self.char_at(q) == '\t')
            invariant
                self.wf(),
                s == self.src@,
                s.len() <= byte_len(s),
                p <= q <= s.len(),
                width <= 4 * (q - p),
                indent_run(s, p as int) == (
                    indent_run(s, q as int).0,
                    width + indent_run(s, q as int).1,
                    spaces || indent_run(s, q as int).2,
                    tabs || indent_run(s, q as int).3,
                ),
            decreases s.len() - q,
        {
            if self.char_at(q) == ' ' {
                width += 1;
                spaces = true;
            } else {
                width += 4;
                tabs = true;
            }
            q += 1;
        }
        (q, width, spaces, tabs)
    }

    /// Closes blocks down to `width`, or opens one.
    fn indent_to(&mut self, width: usize, span: Span) -> (r: Result<(), Diagnostic>)
        requires
            old(self).wf(),
        ensures
            same_text(*old(self), *final(self)),
            match r {
                Ok(_) => final(self).wf() && indent_to(old(self).src@, old(self).scan(), width as int, span)
                    == Ok::<Scan, Diagnostic>(final(self).scan()),
                Err(d) => indent_to(old(self).src@, old(self).scan(), width as int, span) == Err::<
                    Scan,
                    Diagnostic,
                >(d),
            },
    {
        let ghost s = self.src@;
        let current = self.indents[self.indents.len() - 1];
        if width > current {
            let ghost before = self.scan();
            self.indents.push(width);
            self.tokens.push(Token { kind: TokenKindOf::Indent, span });
            proof {
                assert(self.scan().indents =~= before.indents.push(width as int));
                assert(self.scan().tokens =~= before.tokens.push((TokenKindOf::Indent, span)));
            }
            return Ok(());
        }
        let ghost first = self.scan();
        while width < self.indents[self.indents.len() - 1]
            invariant
                self.wf(),
                s == self.src@,
                same_text(*old(self), *self),
                first == old(self).scan(),
                close_to(s, first, width as int, span) == close_to(s, self.scan(), width as int, span),
            decreases self.indents.len(),
        {
            let ghost before = self.scan();
            self.indents.pop();
            let b = self.offset_of(self.pos);
            self.tokens.push(Token { kind: TokenKindOf::Dedent, span: Span::new(b, b) });
            proof {
                assert(self.scan().indents =~= before.indents.drop_last());
                assert(self.scan().tokens =~= before.tokens.push(
                    (TokenKindOf::Dedent, Span { start: b, end: b }),
                ));
            }
        }
        if width != self.indents[self.indents.len() - 1] {
            Err(Diagnostic::new(ErrorKind::BadDedent, span))
        } else {
            Ok(())
        }
    }

    /// At the start of a line outside brackets.
    fn line_start(&mut self) -> (r: Result<(), Diagnostic>)
        requires
            old(self).wf(),
        ensures
            same_text(*old(self), *final(self)),
            match r {
                Ok(_) => final(self).wf() && line_start(old(self).src@, old(self).scan()) == Ok::<
                    Scan,
                    Diagnostic,
                >(final(self).scan()),
                Err(d) => line_start(old(self).src@, old(self).scan()) == Err::<Scan, Diagnostic>(d),
            },
    {
        let ghost s = self.src@;
        let ghost first = self.scan();
        loop
            invariant
                self.wf(),
                s == self.src@,
                same_text(*old(self), *self),
                first == old(self).scan(),
                line_start(s, first) == line_start(s, self.scan()),
            decreases s.len() - self.pos,
        {
            let begin = self.pos;
            let ghost before = self.scan();
            let (q, width, spaces, tabs) = self.indent_run(begin);
            proof {
                lemma_indent_run(s, begin as int);
                lemma_line_end(s, q as int);
            }
            if q >= self.chars.len() {
                self.pos = q;
                assert(self.scan() == Scan { pos: q as int, ..before });
                assert(line_start(s, before) == Ok::<Scan, Diagnostic>(Scan { pos: q as int, ..before }));
                return Ok(());
            }
            let c = self.char_at(q);
            if c == '\n' {
                self.pos = q + 1;
                continue;
            }
            if c == '\r' && q + 1 < self.chars.len() && self.char_at(q + 1) == '\n' {
                self.pos = q + 2;
                continue;
            }
            if c == '#' {
                self.pos = self.line_end(q);
                continue;
            }
            let span = Span::new(self.offset_of(begin), self.offset_of(q));
            if spaces && tabs {
                return Err(Diagnostic::new(ErrorKind::MixedIndent, span));
            }
            let kind = if tabs {
                '\t'
            } else {
                ' '
            };
            if width > 0 {
                match self.indent_char {
                    None => {
                        self.indent_char = Some(kind);
                    },
                    Some(k) => {
                        if k != kind {
                            return Err(Diagnostic::new(ErrorKind::MixedIndent, span));
                        }
                    },
                }
            }
            self.pos = q;
            proof {
                lemma_offset_ge_index(s, s.len() as int);
                lemma_offset_end(s);
            }
            assert(self.scan() == Scan { pos: q as int, indent_char: self.indent_char, ..before });
            return self.indent_to(width, span);
        }
    }

    /// A text literal: the lexer stands at its opening quote.
    fn text(&mut self) -> (r: Result<(), Diagnostic>)
        requires
            old(self).wf(),
            old(self).pos < old(self).src@.len(),
        ensures
            same_text(*old(self), *final(self)),
            match r {
                Ok(_) => final(self).wf() && text(old(self).src@, old(self).scan()) == Ok::<
                    Scan,
                    Diagnostic,
                >(final(self).scan()),
                Err(d) => text(old(self).src@, old(self).scan()) == Err::<Scan, Diagnostic>(d),
            },
    {
        let ghost s = self.src@;
        let ghost first = self.scan();
        let start = self.pos;
        let n = self.chars.len();
        let mut p = start + 1;
        let mut value = String::new();
        loop
            invariant
                self.wf(),
                s == self.src@,
                first == old(self).scan(),
                *self == *old(self),
                n == s.len(),
                start == self.pos,
                start < p <= n,
                text_body(s, start as int, start + 1, seq![]) == text_body(
                    s,
                    start as int,
                    p as int,
                    value@,
                ),
            decreases n - p,
        {
            if p >= n {
                let span = Span::new(self.offset_of(start), self.offset_of(p));
                return Err(Diagnostic::new(ErrorKind::UnterminatedText, span));
            }
            let c = self.char_at(p);
            if c == '\n' {
                let span = Span::new(self.offset_of(start), self.offset_of(p));
                return Err(Diagnostic::new(ErrorKind::UnterminatedText, span));
            }
            if c == '"' {
                self.pos = p + 1;
                self.push(TokenKindOf::Text(value), start);
                return Ok(());
            }
            if c == '\\' {
                if p + 1 >= n {
                    let span = Span::new(self.offset_of(start), self.offset_of(p + 1));
                    return Err(Diagnostic::new(ErrorKind::UnterminatedText, span));
                }
                let e = self.char_at(p + 1);
                if e == '\n' {
                    let span = Span::new(self.offset_of(start), self.offset_of(p + 1));
                    return Err(Diagnostic::new(ErrorKind::UnterminatedText, span));
                }
                let v = if e == 'n' {
                    '\n'
                } else if e == 't' {
                    '\t'
                } else if e == '"' || e == '\\' {
                    e
                } else {
                    let span = Span::new(self.offset_of(p), self.offset_of(p + 2));
                    return Err(Diagnostic::new(ErrorKind::BadEscape(e), span));
                };
                push_char(&mut value, v);
                p += 2;
            } else {
                push_char(&mut value, c);
                p += 1;
            }
        }
    }

    /// The whole part of a number from `p`, after `digits`.
    fn int_digits(&self, p: usize, digits: String) -> (r: (usize, String))
        requires
            self.wf(),
            p <= self.src@.len(),
        ensures
            (r.0 as int, r.1@) == int_digits(self.src@, p as int, digits@),
            p <= r.0 <= self.src@.len(),
    {
        let ghost s = self.src@;
        let n = self.chars.len();
        let mut q = p;
        let mut d = digits;
        loop
            invariant
                self.wf(),
                s == self.src@,
                n == s.len(),
                p <= q <= n,
                int_digits(s, p as int, digits@) == int_digits(s, q as int, d@),
            decreases n - q,
        {
            if q < n && is_ascii_digit(self.char_at(q)) {
                push_char(&mut d, self.char_at(q));
                q += 1;
            } else if q + 1 < n && self.char_at(q) == '_' && is_ascii_digit(self.char_at(q + 1)) {
                q += 1;
            } else {
                return (q, d);
            }
        }
    }

    /// The digits of a fraction from `p`, after `digits`.
    fn frac_digits(&self, p: usize, digits: String) -> (r: (usize, String))
        requires
            self.wf(),
            p <= self.src@.len(),
        ensures
            (r.0 as int, r.1@) == frac_digits(self.src@, p as int, digits@),
            p <= r.0 <= self.src@.len(),
    {
        let ghost s = self.src@;
        let n = self.chars.len();
        let mut q = p;
        let mut d = digits;
        while q < n && is_ascii_digit(self.char_at(q))
            invariant
                self.wf(),
                s == self.src@,
                n == s.len(),
                p <= q <= n,
                frac_digits(s, p as int, digits@) == frac_digits(s, q as int, d@),
            decreases n - q,
        {
            push_char(&mut d, self.char_at(q));
            q += 1;
        }
        (q, d)
    }

    /// A number: the lexer stands at a digit.
    fn number(&mut self)
        requires
            old(self).wf(),
            old(self).pos < old(self).src@.len(),
        ensures
            final(self).wf(),
            same_text(*old(self), *final(self)),
            final(self).scan() == number(old(self).src@, old(self).scan()),
    {
        let start = self.pos;
        let n = self.chars.len();
        let (q, digits) = self.int_digits(start, String::new());
        let mut r = q;
        let mut d = digits;
        if q + 1 < n && self.char_at(q) == '.' && is_ascii_digit(self.char_at(q + 1)) {
            push_char(&mut d, '.');
            let (r2, d2) = self.frac_digits(q + 1, d);
            r = r2;
            d = d2;
        }
        proof {
            lemma_int_digits(self.src@, start as int, seq![]);
        }
        self.pos = r;
        self.push(TokenKindOf::Number(d), start);
    }

    /// The rest of a name from `p`, after `word`, whose last character is `last`.
    fn name_chars(&self, p: usize, word: String, last: char) -> (r: (usize, String))
        requires
            self.wf(),
            p <= self.src@.len(),
            word@.len() > 0,
            word@.last() == last,
        ensures
            (r.0 as int, r.1@) == name_chars(self.src@, p as int, word@),
            p <= r.0 <= self.src@.len(),
    {
        let ghost s = self.src@;
        let n = self.chars.len();
        let mut q = p;
        let mut w = word;
        let mut prev = last;
        loop
            invariant
                self.wf(),
                s == self.src@,
                n == s.len(),
                p <= q <= n,
                w@.len() > 0,
                w@.last() == prev,
                name_chars(s, p as int, word@) == name_chars(s, q as int, w@),
            decreases n - q,
        {
            if q >= n {
                return (q, w);
            }
            let c = self.char_at(q);
            if is_alphanumeric(c) || c == '_' {
                push_char(&mut w, c);
                prev = c;
                q += 1;
            } else if (c == '\'' || c == '’' || c == 'ʼ') && is_alphabetic(prev) && q + 1 < n
                && is_alphabetic(self.char_at(q + 1)) {
                push_char(&mut w, '\'');
                prev = '\'';
                q += 1;
            } else {
                return (q, w);
            }
        }
    }

    /// A name or keyword: the lexer stands at a letter or `_`.
    fn name(&mut self)
        requires
            old(self).wf(),
            old(self).pos < old(self).src@.len(),
        ensures
            final(self).wf(),
            same_text(*old(self), *final(self)),
            final(self).scan() == name(old(self).src@, old(self).scan()),
    {
        let start = self.pos;
        let c = self.char_at(start);
        let mut first = String::new();
        push_char(&mut first, c);
        let (q, word) = self.name_chars(start + 1, first, c);
        let kind = match keyword(word.as_str()) {
            Some(k) => TokenKindOf::Kw(k),
            None => TokenKindOf::Name(word),
        };
        self.pos = q;
        self.push(kind, start);
    }

    /// An operator or bracket.
    fn symbol(&mut self) -> (r: Result<(), Diagnostic>)
        requires
            old(self).wf(),
            old(self).pos < old(self).src@.len(),
        ensures
            same_text(*old(self), *final(self)),
            match r {
                Ok(_) => final(self).wf() && symbol(old(self).src@, old(self).scan()) == Ok::<
                    Scan,
                    Diagnostic,
                >(final(self).scan()),
                Err(d) => symbol(old(self).src@, old(self).scan()) == Err::<Scan, Diagnostic>(d),
            },
    {
        let start = self.pos;
        let n = self.chars.len();
        let c = self.char_at(start);
        let eq = start + 1 < n && self.char_at(start + 1) == '=';
        let (kind, len): (TokenKind, usize) = if c == '+' {
            (TokenKindOf::Plus, 1)
        } else if c == '-' {
            (TokenKindOf::Minus, 1)
        } else if c == '*' {
            (TokenKindOf::Star, 1)
        } else if c == '/' {
            (TokenKindOf::Slash, 1)
        } else if c == '%' {
            (TokenKindOf::Percent, 1)
        } else if c == ',' {
            (TokenKindOf::Comma, 1)
        } else if c == ':' {
            (TokenKindOf::Colon, 1)
        } else if c == '(' {
            (TokenKindOf::LParen, 1)
        } else if c == '[' {
            (TokenKindOf::LBracket, 1)
        } else if c == ')' {
            (TokenKindOf::RParen, 1)
        } else if c == ']' {
            (TokenKindOf::RBracket, 1)
        } else if c == '=' {
            if eq {
                (TokenKindOf::EqEq, 2)
            } else {
                (TokenKindOf::Assign, 1)
            }
        } else if c == '<' {
            if eq {
                (TokenKindOf::LessEq, 2)
            } else {
                (TokenKindOf::Less, 1)
            }
        } else if c == '>' {
            if eq {
                (TokenKindOf::GreaterEq, 2)
            } else {
                (TokenKindOf::Greater, 1)
            }
        } else if c == '!' && eq {
            (TokenKindOf::NotEq, 2)
        } else {
            let span = Span::new(self.offset_of(start), self.offset_of(start + 1));
            return Err(Diagnostic::new(ErrorKind::UnexpectedChar(c), span));
        };
        if c == '(' || c == '[' {
            self.depth = self.depth + 1;
        } else if c == ')' || c == ']' {
            self.depth = if self.depth > 0 {
                self.depth - 1
            } else {
                0
            };
        }
        self.pos = start + len;
        self.push(kind, start);
        Ok(())
    }

    /// One step of the main loop.
    fn step(&mut self) -> (r: Result<(), Diagnostic>)
        requires
            old(self).wf(),
            old(self).pos < old(self).src@.len(),
        ensures
            same_text(*old(self), *final(self)),
            match r {
                Ok(_) => final(self).wf() && step(old(self).src@, old(self).scan()) == Ok::<
                    Scan,
                    Diagnostic,
                >(final(self).scan()),
                Err(d) => step(old(self).src@, old(self).scan()) == Err::<Scan, Diagnostic>(d),
            },
    {
        let start = self.pos;
        let c = self.char_at(start);
        if c == '\n' {
            self.pos = start + 1;
            if self.depth == 0 {
                let b = self.offset_of(start);
                self.newline(b);
                return self.line_start();
            }
            return Ok(());
        }
        if c == ' ' || c == '\t' || c == '\r' {
            self.pos = start + 1;
            return Ok(());
        }
        if c == '#' {
            self.pos = self.line_end(start);
            proof {
                lemma_line_end(self.src@, start as int);
            }
            return Ok(());
        }
        if c == '"' {
            return self.text();
        }
        if is_ascii_digit(c) {
            self.number();
            return Ok(());
        }
        if is_alphabetic(c) || c == '_' {
            self.name();
            return Ok(());
        }
        self.symbol()
    }

    /// The main loop, then the end of the text.
    fn run(self) -> (r: Result<Vec<Token>, Diagnostic>)
        requires
            self.wf(),
        ensures
            match r {
                Ok(t) => run(self.src@, self.scan()) == Ok::<Seq<SpecToken>, Diagnostic>(
                    t@.map_values(|t: Token| t@),
                ),
                Err(d) => run(self.src@, self.scan()) == Err::<Seq<SpecToken>, Diagnostic>(d),
            },
    {
        let ghost s = self.src@;
        let ghost first = self.scan();
        let mut l = self;
        while l.pos < l.chars.len()
            invariant
                l.wf(),
                s == l.src@,
                first == self.scan(),
                s == self.src@,
                run(s, first) == run(s, l.scan()),
            decreases s.len() - l.pos,
        {
            let ghost before = l.scan();
            match l.step() {
                Err(d) => {
                    return Err(d);
                },
                Ok(()) => {},
            }
            proof {
                lemma_step_advances(s, before);
            }
        }
        let end = l.end;
        let ghost stop = l.scan();
        l.newline(end);
        let ghost lined = l.scan();
        let ghost open = l.indents@.len();
        proof {
            assert(lined.tokens + Seq::new(0, |_i: int| (TokenKindOf::Dedent, Span { start: end, end }))
                =~= lined.tokens);
        }
        while l.indents.len() > 1
            invariant
                l.wf(),
                s == l.src@,
                1 <= l.indents@.len() <= open,
                l.scan().tokens == lined.tokens + Seq::new(
                    (open - l.indents@.len()) as nat,
                    |_i: int| (TokenKindOf::Dedent, Span { start: end, end }),
                ),
            decreases l.indents.len(),
        {
            let ghost before = l.tokens@;
            l.indents.pop();
            l.tokens.push(Token { kind: TokenKindOf::Dedent, span: Span::new(end, end) });
            proof {
                assert(l.tokens@.map_values(|t: Token| t@) =~= before.map_values(|t: Token| t@).push(
                    (TokenKindOf::Dedent, Span { start: end, end }),
                ));
                assert(l.scan().tokens =~= lined.tokens + Seq::new(
                    (open - l.indents@.len()) as nat,
                    |_i: int| (TokenKindOf::Dedent, Span { start: end, end }),
                ));
            }
        }
        let ghost closed = l.scan().tokens;
        l.tokens.push(Token { kind: TokenKindOf::Eof, span: Span::new(end, end) });
        proof {
            assert(l.tokens@.map_values(|t: Token| t@) =~= closed.push(
                (TokenKindOf::Eof, Span { start: end, end }),
            ));
            assert(run(s, stop) == Ok::<Seq<SpecToken>, Diagnostic>(finish(s, stop)));
            assert(l.tokens@.map_values(|t: Token| t@) =~= finish(s, stop));
        }
        Ok(l.tokens)
    }
}

/// Whether `c` is an ASCII digit.
fn is_ascii_digit(c: char) -> (r: bool)
    ensures
        r == is_digit(c),
{
    '0' <= c && c <= '9'
}

/// The tokens of `src`, or the first error in it.
pub fn lex(src: &str) -> (r: Result<Vec<Token>, Diagnostic>)
    requires
        byte_len(src@) < usize::MAX / 4,
    ensures
        match r {
            Ok(t) => spec_lex(src@) == Ok::<Seq<SpecToken>, Diagnostic>(t@.map_values(|t: Token| t@)),
            Err(d) => spec_lex(src@) == Err::<Seq<SpecToken>, Diagnostic>(d),
        },
{
    let mut l = Lexer::new(src);
    match l.line_start() {
        Err(d) => {
            return Err(d);
        },
        Ok(()) => {},
    }
    l.run()
}

} // verus!
