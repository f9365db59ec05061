//! Source text to a flat token stream. One pass, tracks line numbers.
//!
//! The model is `lex_chars`: a recursive reading of the character sequence
//! that, at each position, takes the one step `lex_step` describes.
use vstd::prelude::*;
use crate::error::{Error, SError};
use crate::text::{
    chars_of, debug_quoted, debug_string, int_text, int_to_string, digits_value, is_alphabetic, is_alphanumeric, is_digit, is_whitespace,
    string_from_chars, unicode_alphabetic, unicode_numeric, unicode_whitespace,
};

verus! {

#[derive(Debug, Clone, PartialEq)]
pub enum Tok {
    Int(i64),
    Str(String),
    Ident(String),
    Let,
    Rec,
    Fn,
    If,
    Then,
    Else,
    True,
    False,
    Plus,
    Minus,
    Star,
    Slash,
    Percent,
    PlusPlus,
    EqEq,
    NotEq,
    Lt,
    Le,
    Gt,
    Ge,
    AmpAmp,
    PipePipe,
    Bang,
    Eq,
    Arrow,
    FatArrow,
    Colon,
    Semi,
    Comma,
    LParen,
    RParen,
    Eof,
}

#[derive(Debug, Clone, PartialEq)]
pub struct Token {
    pub tok: Tok,
    pub line: usize,
}

/// Model of a [`Tok`].
pub enum STok {
    Int(i64),
    Str(Seq<char>),
    Ident(Seq<char>),
    Let,
    Rec,
    Fn,
    If,
    Then,
    Else,
    True,
    False,
    Plus,
    Minus,
    Star,
    Slash,
    Percent,
    PlusPlus,
    EqEq,
    NotEq,
    Lt,
    Le,
    Gt,
    Ge,
    AmpAmp,
    PipePipe,
    Bang,
    Eq,
    Arrow,
    FatArrow,
    Colon,
    Semi,
    Comma,
    LParen,
    RParen,
    Eof,
}

/// Model of a [`Token`].
pub struct SToken {
    pub tok: STok,
    pub line: nat,
}

pub open spec fn tok_view(t: Tok) -> STok {
    match t {
        Tok::Int(n) => STok::Int(n),
        Tok::Str(s) => STok::Str(s@),
        Tok::Ident(s) => STok::Ident(s@),
        Tok::Let => STok::Let,
        Tok::Rec => STok::Rec,
        Tok::Fn => STok::Fn,
        Tok::If => STok::If,
        Tok::Then => STok::Then,
        Tok::Else => STok::Else,
        Tok::True => STok::True,
        Tok::False => STok::False,
        Tok::Plus => STok::Plus,
        Tok::Minus => STok::Minus,
        Tok::Star => STok::Star,
        Tok::Slash => STok::Slash,
        Tok::Percent => STok::Percent,
        Tok::PlusPlus => STok::PlusPlus,
        Tok::EqEq => STok::EqEq,
        Tok::NotEq => STok::NotEq,
        Tok::Lt => STok::Lt,
        Tok::Le => STok::Le,
        Tok::Gt => STok::Gt,
        Tok::Ge => STok::Ge,
        Tok::AmpAmp => STok::AmpAmp,
        Tok::PipePipe => STok::PipePipe,
        Tok::Bang => STok::Bang,
        Tok::Eq => STok::Eq,
        Tok::Arrow => STok::Arrow,
        Tok::FatArrow => STok::FatArrow,
        Tok::Colon => STok::Colon,
        Tok::Semi => STok::Semi,
        Tok::Comma => STok::Comma,
        Tok::LParen => STok::LParen,
        Tok::RParen => STok::RParen,
        Tok::Eof => STok::Eof,
    }
}

impl View for Tok {
    type V = STok;

    open spec fn view(&self) -> STok {
        tok_view(*self)
    }
}

impl View for Token {
    type V = SToken;

    open spec fn view(&self) -> SToken {
        SToken { tok: self.tok@, line: self.line as nat }
    }
}

pub open spec fn tokens_view(ts: Seq<Token>) -> Seq<SToken> {
    Seq::new(ts.len(), |i: int| ts[i]@)
}

/// One step of the lexer at position `i` (with `i` inside the text).
pub enum Step {
    /// Nothing is produced; lexing goes on at `next` on line `line`.
    Skip { next: nat, line: nat },
    /// `tok` is produced on line `line`; lexing goes on at `next`.
    Emit { tok: STok, next: nat, line: nat },
    /// Lexing stops with this message on this line.
    Fail { msg: Seq<char>, line: nat },
}

/// First position at or after `i` that holds a newline, or the end.
pub open spec fn comment_end(cs: Seq<char>, i: nat) -> nat
    decreases cs.len() - i,
{
    if i >= cs.len() || cs[i as int] == '\n' {
        i
    } else {
        comment_end(cs, i + 1)
    }
}

/// First position at or after `i` that does not hold a decimal digit.
pub open spec fn digits_end(cs: Seq<char>, i: nat) -> nat
    decreases cs.len() - i,
{
    if i >= cs.len() || !is_digit(cs[i as int]) {
        i
    } else {
        digits_end(cs, i + 1)
    }
}

/// Whether `c` may continue a name.
pub open spec fn is_word_char(c: char) -> bool {
    unicode_alphabetic(c) || unicode_numeric(c) || c == '_'
}

/// First position at or after `i` that cannot continue a name.
pub open spec fn word_end(cs: Seq<char>, i: nat) -> nat
    decreases cs.len() - i,
{
    if i >= cs.len() || !is_word_char(cs[i as int]) {
        i
    } else {
        word_end(cs, i + 1)
    }
}

/// The character that the escape `\c` stands for in a string literal.
pub open spec fn unescape(c: char) -> char {
    if c == 'n' {
        '\n'
    } else if c == 't' {
        '\t'
    } else {
        c
    }
}

/// The rest of a string literal from position `i`, with `acc` read so far and
/// the current line: `Ok((text, position after the closing quote, line))`, or
/// `Err(line)` when the text ends first.
pub open spec fn string_body(cs: Seq<char>, i: nat, line: nat, acc: Seq<char>) -> Result<
    (Seq<char>, nat, nat),
    nat,
>
    decreases cs.len() - i,
{
    if i >= cs.len() {
        Err(line)
    } else if cs[i as int] == '"' {
        Ok((acc, i + 1, line))
    } else if cs[i as int] == '\\' && i + 1 < cs.len() {
        let l = if cs[i + 1 as int] == '\n' { line + 1 } else { line };
        string_body(cs, i + 2, l, acc.push(unescape(cs[i + 1 as int])))
    } else {
        let l = if cs[i as int] == '\n' { line + 1 } else { line };
        string_body(cs, i + 1, l, acc.push(cs[i as int]))
    }
}

/// The token a name stands for: a keyword or an identifier.
pub open spec fn word_tok(w: Seq<char>) -> STok {
    if w == "let"@ {
        STok::Let
    } else if w == "rec"@ {
        STok::Rec
    } else if w == "fn"@ {
        STok::Fn
    } else if w == "if"@ {
        STok::If
    } else if w == "then"@ {
        STok::Then
    } else if w == "else"@ {
        STok::Else
    } else if w == "true"@ {
        STok::True
    } else if w == "false"@ {
        STok::False
    } else {
        STok::Ident(w)
    }
}

/// The two-character operator that `a` followed by `b` spells, if any.
pub open spec fn two_char_tok(a: char, b: char) -> Option<STok> {
    if a == '+' && b == '+' {
        Some(STok::PlusPlus)
    } else if a == '=' && b == '=' {
        Some(STok::EqEq)
    } else if a == '!' && b == '=' {
        Some(STok::NotEq)
    } else if a == '<' && b == '=' {
        Some(STok::Le)
    } else if a == '>' && b == '=' {
        Some(STok::Ge)
    } else if a == '&' && b == '&' {
        Some(STok::AmpAmp)
    } else if a == '|' && b == '|' {
        Some(STok::PipePipe)
    } else if a == '-' && b == '>' {
        Some(STok::Arrow)
    } else if a == '=' && b == '>' {
        Some(STok::FatArrow)
    } else {
        None
    }
}

/// The one-character operator or punctuation that `c` is, if any.
pub open spec fn one_char_tok(c: char) -> Option<STok> {
    if c == '+' {
        Some(STok::Plus)
    } else if c == '-' {
        Some(STok::Minus)
    } else if c == '*' {
        Some(STok::Star)
    } else if c == '/' {
        Some(STok::Slash)
    } else if c == '%' {
        Some(STok::Percent)
    } else if c == '<' {
        Some(STok::Lt)
    } else if c == '>' {
        Some(STok::Gt)
    } else if c == '!' {
        Some(STok::Bang)
    } else if c == '=' {
        Some(STok::Eq)
    } else if c == ':' {
        Some(STok::Colon)
    } else if c == ';' {
        Some(STok::Semi)
    } else if c == ',' {
        Some(STok::Comma)
    } else if c == '(' {
        Some(STok::LParen)
    } else if c == ')' {
        Some(STok::RParen)
    } else {
        None
    }
}

/// The step the lexer takes at position `i` on line `line`.
pub open spec fn lex_step(cs: Seq<char>, i: nat, line: nat) -> Step {
    let c = cs[i as int];
    if c == '\n' {
        Step::Skip { next: i + 1, line: line + 1 }
    } else if unicode_whitespace(c) {
        Step::Skip { next: i + 1, line }
    } else if c == '#' {
        Step::Skip { next: comment_end(cs, i + 1), line }
    } else if c == '"' {
        match string_body(cs, i + 1, line, Seq::empty()) {
            Ok((s, next, l)) => Step::Emit { tok: STok::Str(s), next, line: l },
            Err(l) => Step::Fail { msg: "unterminated string"@, line: l },
        }
    } else if is_digit(c) {
        let next = digits_end(cs, i + 1);
        let ds = cs.subrange(i as int, next as int);
        if digits_value(ds) <= i64::MAX {
            Step::Emit { tok: STok::Int(digits_value(ds) as i64), next, line }
        } else {
            Step::Fail { msg: "bad integer '"@ + ds + "'"@, line }
        }
    } else if unicode_alphabetic(c) || c == '_' {
        let next = word_end(cs, i + 1);
        Step::Emit { tok: word_tok(cs.subrange(i as int, next as int)), next, line }
    } else if i + 1 < cs.len() && two_char_tok(c, cs[i + 1 as int]) is Some {
        Step::Emit { tok: two_char_tok(c, cs[i + 1 as int])->0, next: i + 2, line }
    } else {
        match one_char_tok(c) {
            Some(t) => Step::Emit { tok: t, next: i + 1, line },
            None => Step::Fail { msg: "unexpected character '"@ + seq![c] + "'"@, line },
        }
    }
}

/// The tokens of `cs` from position `i` on, starting on line `line`; the
/// stream always ends with one `Eof` on the last line.
pub open spec fn lex_chars(cs: Seq<char>, i: nat, line: nat) -> Result<Seq<SToken>, SError>
    decreases cs.len() - i,
{
    if i >= cs.len() {
        Ok(seq![SToken { tok: STok::Eof, line }])
    } else {
        match lex_step(cs, i, line) {
            Step::Skip { next, line: l } => if i < next && next <= cs.len() {
                lex_chars(cs, next, l)
            } else {
                Err(SError::Lex { msg: Seq::empty(), line: l })
            },
            Step::Emit { tok, next, line: l } => if i < next && next <= cs.len() {
                match lex_chars(cs, next, l) {
                    Ok(rest) => Ok(seq![SToken { tok, line: l }] + rest),
                    Err(e) => Err(e),
                }
            } else {
                Err(SError::Lex { msg: Seq::empty(), line: l })
            },
            Step::Fail { msg, line: l } => Err(SError::Lex { msg, line: l }),
        }
    }
}

/// The tokens of a whole source text, starting on line 1.
pub open spec fn lex_spec(src: Seq<char>) -> Result<Seq<SToken>, SError> {
    lex_chars(src, 0, 1)
}

/// Every token is on line 1 or later, and lines never go back.
pub open spec fn lines_ordered(ts: Seq<SToken>) -> bool {
    &&& forall|j: int| 0 <= j < ts.len() ==> 1 <= #[trigger] ts[j].line
    &&& forall|j: int, k: int| 0 <= j <= k < ts.len() ==> #[trigger] ts[j].line <= #[trigger] ts[k].line
}

/// A token stream as the parser expects it: not empty and ending with `Eof`.
pub open spec fn ends_with_eof(ts: Seq<SToken>) -> bool {
    &&& ts.len() > 0
    &&& ts.last().tok is Eof
}

/// A token stream as the lexer makes it: it ends with `Eof`, and holds no
/// `Eof` before the end.
pub open spec fn well_terminated(ts: Seq<SToken>) -> bool {
    &&& ends_with_eof(ts)
    &&& forall|j: int| 0 <= j < ts.len() - 1 ==> !(#[trigger] ts[j].tok is Eof)
}


/// A token stream placed in front of what `r` produces, if it produces one.
pub open spec fn prepend(ts: Seq<SToken>, r: Result<Seq<SToken>, SError>) -> Result<Seq<SToken>, SError> {
    match r {
        Ok(rest) => Ok(ts + rest),
        Err(e) => Err(e),
    }
}

pub open spec fn lex_result_view(r: Result<Vec<Token>, Error>) -> Result<Seq<SToken>, SError> {
    match r {
        Ok(ts) => Ok(tokens_view(ts@)),
        Err(e) => Err(e@),
    }
}

/// Every token stream the lexer produces ends with exactly one `Eof`, at the end.
pub proof fn lemma_lex_well_terminated(cs: Seq<char>, i: nat, line: nat)
    ensures
        lex_chars(cs, i, line) matches Ok(ts) ==> well_terminated(ts),
    decreases cs.len() - i,
{
    if i < cs.len() {
        match lex_step(cs, i, line) {
            Step::Skip { next, line: l } => {
                if i < next && next <= cs.len() {
                    lemma_lex_well_terminated(cs, next, l);
                }
            },
            Step::Emit { tok, next, line: l } => {
                if i < next && next <= cs.len() {
                    lemma_lex_well_terminated(cs, next, l);
                    if let Ok(rest) = lex_chars(cs, next, l) {
                        let ts = seq![SToken { tok, line: l }] + rest;
                        assert(ts.last() == rest.last());
                        assert forall|j: int| 0 <= j < ts.len() - 1 implies !(#[trigger] ts[j].tok is Eof) by {
                            if j > 0 {
                                assert(ts[j] == rest[j - 1]);
                            } else {
                                assert(!(tok is Eof)) by {
                                    lemma_step_never_eof(cs, i, line);
                                }
                            }
                        }
                    }
                }
            },
            Step::Fail { .. } => {},
        }
    }
}

proof fn lemma_string_body_line(cs: Seq<char>, i: nat, line: nat, acc: Seq<char>)
    ensures
        string_body(cs, i, line, acc) matches Ok((_, _, l)) ==> line <= l,
    decreases cs.len() - i,
{
    if i < cs.len() && cs[i as int] != '"' {
        if cs[i as int] == '\\' && i + 1 < cs.len() {
            let l = if cs[i + 1 as int] == '\n' { line + 1 } else { line };
            lemma_string_body_line(cs, i + 2, l, acc.push(unescape(cs[i + 1 as int])));
        } else {
            let l = if cs[i as int] == '\n' { line + 1 } else { line };
            lemma_string_body_line(cs, i + 1, l, acc.push(cs[i as int]));
        }
    }
}

/// How many newline characters `s` holds.
pub open spec fn newlines(s: Seq<char>) -> nat
    decreases s.len(),
{
    if s.len() == 0 {
        0
    } else {
        newlines(s.drop_last()) + if s.last() == '\n' { 1nat } else { 0nat }
    }
}

/// The newlines of `cs[i..k]` are those of `cs[i..j]` and of `cs[j..k]`.
proof fn lemma_newlines_split(cs: Seq<char>, i: nat, j: nat, k: nat)
    requires
        i <= j <= k <= cs.len(),
    ensures
        newlines(cs.subrange(i as int, k as int)) == newlines(cs.subrange(i as int, j as int)) + newlines(
            cs.subrange(j as int, k as int),
        ),
    decreases k - j,
{
    if k == j {
        assert(cs.subrange(j as int, k as int).len() == 0);
    } else {
        lemma_newlines_split(cs, i, j, (k - 1) as nat);
        assert(cs.subrange(i as int, k as int).drop_last() =~= cs.subrange(i as int, k - 1));
        assert(cs.subrange(j as int, k as int).drop_last() =~= cs.subrange(j as int, k - 1));
        assert(cs.subrange(i as int, k as int).last() == cs[k - 1]);
        assert(cs.subrange(j as int, k as int).last() == cs[k - 1]);
    }
}

/// A stretch with no newline character counts none.
proof fn lemma_no_newlines(cs: Seq<char>, i: nat, j: nat)
    requires
        i <= j <= cs.len(),
        forall|m: int| i <= m < j ==> #[trigger] cs[m] != '\n',
    ensures
        newlines(cs.subrange(i as int, j as int)) == 0,
    decreases j - i,
{
    if j > i {
        lemma_no_newlines(cs, i, (j - 1) as nat);
        assert(cs.subrange(i as int, j as int).drop_last() =~= cs.subrange(i as int, j - 1));
        assert(cs.subrange(i as int, j as int).last() == cs[j - 1]);
    }
}

/// One character counts one newline if it is one.
proof fn lemma_newlines_one(cs: Seq<char>, i: nat)
    requires
        i < cs.len(),
    ensures
        newlines(cs.subrange(i as int, i + 1 as int)) == (if cs[i as int] == '\n' { 1nat } else { 0nat }),
{
    let t = cs.subrange(i as int, i + 1 as int);
    assert(t.drop_last() =~= Seq::<char>::empty());
    assert(newlines(t.drop_last()) == 0);
    assert(t.last() == cs[i as int]);
}

proof fn lemma_comment_end(cs: Seq<char>, i: nat)
    requires
        i <= cs.len(),
    ensures
        i <= comment_end(cs, i) <= cs.len(),
        forall|m: int| i <= m < comment_end(cs, i) ==> #[trigger] cs[m] != '\n',
    decreases cs.len() - i,
{
    if i < cs.len() && cs[i as int] != '\n' {
        lemma_comment_end(cs, i + 1);
    }
}

proof fn lemma_digits_end(cs: Seq<char>, i: nat)
    requires
        i <= cs.len(),
    ensures
        i <= digits_end(cs, i) <= cs.len(),
        forall|m: int| i <= m < digits_end(cs, i) ==> #[trigger] cs[m] != '\n',
    decreases cs.len() - i,
{
    if i < cs.len() && is_digit(cs[i as int]) {
        lemma_digits_end(cs, i + 1);
    }
}

proof fn lemma_word_end(cs: Seq<char>, i: nat)
    requires
        i <= cs.len(),
    ensures
        i <= word_end(cs, i) <= cs.len(),
        forall|m: int| i <= m < word_end(cs, i) ==> #[trigger] cs[m] != '\n',
    decreases cs.len() - i,
{
    if i < cs.len() && is_word_char(cs[i as int]) {
        lemma_word_end(cs, i + 1);
    }
}

/// The line after a string body has moved once for each newline read,
/// written out or escaped.
proof fn lemma_string_body_newlines(cs: Seq<char>, i: nat, line: nat, acc: Seq<char>)
    requires
        i <= cs.len(),
    ensures
        string_body(cs, i, line, acc) matches Ok((_, j, l)) ==> i < j <= cs.len() && l == line + newlines(
            cs.subrange(i as int, j as int),
        ),
    decreases cs.len() - i,
{
    if i < cs.len() {
        if cs[i as int] == '"' {
            lemma_newlines_one(cs, i);
        } else if cs[i as int] == '\\' && i + 1 < cs.len() {
            let l = if cs[i + 1 as int] == '\n' { line + 1 } else { line };
            lemma_string_body_newlines(cs, i + 2, l, acc.push(unescape(cs[i + 1 as int])));
            if let Ok((_, j, _)) = string_body(cs, i + 2, l, acc.push(unescape(cs[i + 1 as int]))) {
                lemma_newlines_one(cs, i);
                lemma_newlines_one(cs, i + 1);
                lemma_newlines_split(cs, i, i + 1, i + 2);
                lemma_newlines_split(cs, i, i + 2, j);
            }
        } else {
            let l = if cs[i as int] == '\n' { line + 1 } else { line };
            lemma_string_body_newlines(cs, i + 1, l, acc.push(cs[i as int]));
            if let Ok((_, j, _)) = string_body(cs, i + 1, l, acc.push(cs[i as int])) {
                lemma_newlines_one(cs, i);
                lemma_newlines_split(cs, i, i + 1, j);
            }
        }
    }
}

/// Each step moves the line once for each newline character it reads.
proof fn lemma_step_newlines(cs: Seq<char>, i: nat, line: nat)
    requires
        i < cs.len(),
    ensures
        lex_step(cs, i, line) matches Step::Skip { next, line: l } ==> (i < next <= cs.len() ==> l == line
            + newlines(cs.subrange(i as int, next as int))),
        lex_step(cs, i, line) matches Step::Emit { next, line: l, .. } ==> (i < next <= cs.len() ==> l == line
            + newlines(cs.subrange(i as int, next as int))),
{
    let c = cs[i as int];
    lemma_newlines_one(cs, i);
    if c == '\n' {
    } else if unicode_whitespace(c) {
    } else if c == '#' {
        lemma_comment_end(cs, i + 1);
        let e = comment_end(cs, i + 1);
        lemma_no_newlines(cs, i + 1, e);
        lemma_newlines_split(cs, i, i + 1, e);
    } else if c == '"' {
        lemma_string_body_newlines(cs, i + 1, line, Seq::empty());
        if let Ok((_, j, _)) = string_body(cs, i + 1, line, Seq::empty()) {
            lemma_newlines_split(cs, i, i + 1, j);
        }
    } else if is_digit(c) {
        lemma_digits_end(cs, i + 1);
        let e = digits_end(cs, i + 1);
        lemma_no_newlines(cs, i + 1, e);
        lemma_newlines_split(cs, i, i + 1, e);
    } else if unicode_alphabetic(c) || c == '_' {
        lemma_word_end(cs, i + 1);
        let e = word_end(cs, i + 1);
        lemma_no_newlines(cs, i + 1, e);
        lemma_newlines_split(cs, i, i + 1, e);
    } else if i + 1 < cs.len() && two_char_tok(c, cs[i + 1 as int]) is Some {
        lemma_newlines_one(cs, i + 1);
        lemma_newlines_split(cs, i, i + 1, i + 2);
    }
}

/// Lexing from position `i` ends with `Eof` on the starting line plus the
/// number of newline characters from `i` on.
proof fn lemma_lex_eof_line(cs: Seq<char>, i: nat, line: nat)
    requires
        i <= cs.len(),
    ensures
        lex_chars(cs, i, line) matches Ok(ts) ==> ts.len() > 0 && ts.last().line == line + newlines(
            cs.subrange(i as int, cs.len() as int),
        ),
    decreases cs.len() - i,
{
    if i >= cs.len() {
        assert(cs.subrange(i as int, cs.len() as int).len() == 0);
    } else {
        lemma_step_newlines(cs, i, line);
        match lex_step(cs, i, line) {
            Step::Skip { next, line: l } => {
                if i < next && next <= cs.len() {
                    lemma_lex_eof_line(cs, next, l);
                    lemma_newlines_split(cs, i, next, cs.len());
                }
            },
            Step::Emit { tok, next, line: l } => {
                if i < next && next <= cs.len() {
                    lemma_lex_eof_line(cs, next, l);
                    lemma_newlines_split(cs, i, next, cs.len());
                    if let Ok(rest) = lex_chars(cs, next, l) {
                        let ts = seq![SToken { tok, line: l }] + rest;
                        assert(ts.last() == rest.last());
                    }
                }
            },
            Step::Fail { .. } => {},
        }
    }
}

/// Every newline of the source, in strings and comments too, moves the line:
/// the final `Eof` stands on line one plus the number of newlines.
pub proof fn law_lex_counts_every_newline(src: Seq<char>)
    ensures
        lex_spec(src) matches Ok(ts) ==> ts.len() > 0 && ts.last().line == 1 + newlines(src),
{
    lemma_lex_eof_line(src, 0, 1);
    assert(src.subrange(0, src.len() as int) =~= src);
}

/// Token lines never go back: every token is on the starting line or later,
/// and each token's line is at most the next one's.
pub proof fn lemma_lex_lines(cs: Seq<char>, i: nat, line: nat)
    ensures
        lex_chars(cs, i, line) matches Ok(ts) ==> {
            &&& forall|j: int| 0 <= j < ts.len() ==> line <= #[trigger] ts[j].line
            &&& forall|j: int, k: int| 0 <= j <= k < ts.len() ==> #[trigger] ts[j].line <= #[trigger] ts[k].line
        },
    decreases cs.len() - i,
{
    if i < cs.len() {
        if cs[i as int] == '"' {
            lemma_string_body_line(cs, i + 1, line, Seq::empty());
        }
        match lex_step(cs, i, line) {
            Step::Skip { next, line: l } => {
                if i < next && next <= cs.len() {
                    lemma_lex_lines(cs, next, l);
                }
            },
            Step::Emit { tok, next, line: l } => {
                if i < next && next <= cs.len() {
                    lemma_lex_lines(cs, next, l);
                    if let Ok(rest) = lex_chars(cs, next, l) {
                        let ts = seq![SToken { tok, line: l }] + rest;
                        assert forall|j: int| 0 <= j < ts.len() implies line <= #[trigger] ts[j].line by {
                            if j > 0 {
                                assert(ts[j] == rest[j - 1]);
                            }
                        }
                        assert forall|j: int, k: int| 0 <= j <= k < ts.len() implies #[trigger] ts[j].line <= #[trigger] ts[k].line by {
                            if j > 0 {
                                assert(ts[j] == rest[j - 1]);
                                assert(ts[k] == rest[k - 1]);
                            } else if k > 0 {
                                assert(ts[k] == rest[k - 1]);
                            }
                        }
                    }
                }
            },
            Step::Fail { .. } => {},
        }
    }
}

proof fn lemma_step_never_eof(cs: Seq<char>, i: nat, line: nat)
    requires
        i < cs.len(),
    ensures
        lex_step(cs, i, line) matches Step::Emit { tok, .. } ==> !(tok is Eof),
{
    let c = cs[i as int];
    if !(c == '\n') && !unicode_whitespace(c) && !(c == '#') && !(c == '"') && !is_digit(c) && (unicode_alphabetic(c) || c == '_') {
        let w = cs.subrange(i as int, word_end(cs, i + 1) as int);
        assert(!(word_tok(w) is Eof));
    }
}

proof fn lemma_ends_bounds(cs: Seq<char>, k: nat)
    requires
        k <= cs.len(),
    ensures
        k <= comment_end(cs, k) <= cs.len(),
        k <= digits_end(cs, k) <= cs.len(),
        k <= word_end(cs, k) <= cs.len(),
    decreases cs.len() - k,
{
    if k < cs.len() {
        lemma_ends_bounds(cs, k + 1);
    }
}

proof fn lemma_prepend_assoc(a: Seq<SToken>, b: Seq<SToken>, r: Result<Seq<SToken>, SError>)
    ensures
        prepend(a, prepend(b, r)) == prepend(a + b, r),
{
    match r {
        Ok(rest) => {
            assert(a + (b + rest) =~= (a + b) + rest);
        },
        Err(_) => {},
    }
}

/// Whether the characters of `cs` spell `w`.
fn spells(cs: &Vec<char>, w: &str) -> (b: bool)
    ensures
        b == (cs@ == w@),
{
    let n = w.unicode_len();
    if cs.len() != n {
        return false;
    }
    let mut k: usize = 0;
    while k < n
        invariant
            n == w@.len(),
            cs@.len() == n,
            k <= n,
            forall|j: int| 0 <= j < k ==> cs@[j] == w@[j],
        decreases n - k,
    {
        if cs[k] != w.get_char(k) {
            return false;
        }
        k = k + 1;
    }
    assert(cs@ =~= w@);
    true
}

fn word_token(w: &Vec<char>) -> (t: Tok)
    ensures
        t@ == word_tok(w@),
{
    if spells(w, "let") {
        Tok::Let
    } else if spells(w, "rec") {
        Tok::Rec
    } else if spells(w, "fn") {
        Tok::Fn
    } else if spells(w, "if") {
        Tok::If
    } else if spells(w, "then") {
        Tok::Then
    } else if spells(w, "else") {
        Tok::Else
    } else if spells(w, "true") {
        Tok::True
    } else if spells(w, "false") {
        Tok::False
    } else {
        Tok::Ident(string_from_chars(w))
    }
}

fn two_char_token(a: char, b: char) -> (t: Option<Tok>)
    ensures
        match t {
            Some(t) => two_char_tok(a, b) == Some(t@),
            None => two_char_tok(a, b) is None,
        },
{
    if a == '+' && b == '+' {
        Some(Tok::PlusPlus)
    } else if a == '=' && b == '=' {
        Some(Tok::EqEq)
    } else if a == '!' && b == '=' {
        Some(Tok::NotEq)
    } else if a == '<' && b == '=' {
        Some(Tok::Le)
    } else if a == '>' && b == '=' {
        Some(Tok::Ge)
    } else if a == '&' && b == '&' {
        Some(Tok::AmpAmp)
    } else if a == '|' && b == '|' {
        Some(Tok::PipePipe)
    } else if a == '-' && b == '>' {
        Some(Tok::Arrow)
    } else if a == '=' && b == '>' {
        Some(Tok::FatArrow)
    } else {
        None
    }
}

fn one_char_token(c: char) -> (t: Option<Tok>)
    ensures
        match t {
            Some(t) => one_char_tok(c) == Some(t@),
            None => one_char_tok(c) is None,
        },
{
    if c == '+' {
        Some(Tok::Plus)
    } else if c == '-' {
        Some(Tok::Minus)
    } else if c == '*' {
        Some(Tok::Star)
    } else if c == '/' {
        Some(Tok::Slash)
    } else if c == '%' {
        Some(Tok::Percent)
    } else if c == '<' {
        Some(Tok::Lt)
    } else if c == '>' {
        Some(Tok::Gt)
    } else if c == '!' {
        Some(Tok::Bang)
    } else if c == '=' {
        Some(Tok::Eq)
    } else if c == ':' {
        Some(Tok::Colon)
    } else if c == ';' {
        Some(Tok::Semi)
    } else if c == ',' {
        Some(Tok::Comma)
    } else if c == '(' {
        Some(Tok::LParen)
    } else if c == ')' {
        Some(Tok::RParen)
    } else {
        None
    }
}

fn skip_comment(cs: &Vec<char>, i: usize) -> (j: usize)
    requires
        i <= cs.len(),
    ensures
        j == comment_end(cs@, i as nat),
        i <= j <= cs.len(),
{
    let mut j = i;
    while j < cs.len() && cs[j] != '\n'
        invariant
            i <= j <= cs.len(),
            comment_end(cs@, i as nat) == comment_end(cs@, j as nat),
        decreases cs.len() - j,
    {
        j = j + 1;
    }
    j
}

/// The digits starting at `i`: where they end, and the text they form.
fn scan_digits(cs: &Vec<char>, i: usize) -> (r: (usize, Vec<char>))
    requires
        i <= cs.len(),
    ensures
        r.0 == digits_end(cs@, i as nat),
        i <= r.0 <= cs.len(),
        r.1@ == cs@.subrange(i as int, r.0 as int),
        forall|k: int| 0 <= k < r.1@.len() ==> is_digit(#[trigger] r.1@[k]),
{
    let mut j = i;
    let mut ds: Vec<char> = Vec::new();
    while j < cs.len() && '0' <= cs[j] && cs[j] <= '9'
        invariant
            i <= j <= cs.len(),
            digits_end(cs@, i as nat) == digits_end(cs@, j as nat),
            ds@ == cs@.subrange(i as int, j as int),
            forall|k: int| 0 <= k < ds@.len() ==> is_digit(#[trigger] ds@[k]),
        decreases cs.len() - j,
    {
        ds.push(cs[j]);
        j = j + 1;
        assert(ds@ =~= cs@.subrange(i as int, j as int));
    }
    (j, ds)
}

/// The number a run of decimal digits denotes, if it fits in an `i64`.
fn digits_number(ds: &Vec<char>) -> (r: Option<i64>)
    requires
        forall|k: int| 0 <= k < ds@.len() ==> is_digit(#[trigger] ds@[k]),
    ensures
        r == (if digits_value(ds@) <= i64::MAX { Some(digits_value(ds@) as i64) } else { None }),
{
    let mut acc: u128 = 0;
    let mut big = false;
    let mut k: usize = 0;
    while k < ds.len()
        invariant
            k <= ds.len(),
            forall|m: int| 0 <= m < ds@.len() ==> is_digit(#[trigger] ds@[m]),
            !big ==> acc == digits_value(ds@.take(k as int)) && acc <= i64::MAX,
            big ==> digits_value(ds@.take(k as int)) > i64::MAX,
        decreases ds.len() - k,
    {
        let c = ds[k];
        let d: u128 = (c as u32 - 48) as u128;
        proof {
            assert(ds@.take(k + 1).drop_last() =~= ds@.take(k as int));
            assert(ds@.take(k + 1).last() == c);
        }
        if !big {
            acc = acc * 10 + d;
            if acc > 9223372036854775807u128 {
                big = true;
            }
        }
        k = k + 1;
    }
    assert(ds@.take(ds.len() as int) =~= ds@);
    if big {
        None
    } else {
        Some(acc as i64)
    }
}

/// The name starting at `i`: where it ends, and its text.
fn scan_word(cs: &Vec<char>, i: usize) -> (r: (usize, Vec<char>))
    requires
        i <= cs.len(),
    ensures
        r.0 == word_end(cs@, i as nat),
        i <= r.0 <= cs.len(),
        r.1@ == cs@.subrange(i as int, r.0 as int),
{
    let mut j = i;
    let mut w: Vec<char> = Vec::new();
    while j < cs.len() && (is_alphanumeric(cs[j]) || cs[j] == '_')
        invariant
            i <= j <= cs.len(),
            word_end(cs@, i as nat) == word_end(cs@, j as nat),
            w@ == cs@.subrange(i as int, j as int),
        decreases cs.len() - j,
    {
        w.push(cs[j]);
        j = j + 1;
        assert(w@ =~= cs@.subrange(i as int, j as int));
    }
    (j, w)
}

/// The rest of a string literal from `i` (just after the opening quote).
fn scan_string(cs: &Vec<char>, i: usize, line: usize) -> (r: Result<(Vec<char>, usize, usize), usize>)
    requires
        i <= cs.len(),
        line + cs.len() - i < usize::MAX,
    ensures
        match r {
            Ok((s, j, l)) => string_body(cs@, i as nat, line as nat, Seq::empty()) == Ok::<
                (Seq<char>, nat, nat),
                nat,
            >((s@, j as nat, l as nat)) && i < j <= cs.len() && line <= l <= line + (j - i),
            Err(l) => string_body(cs@, i as nat, line as nat, Seq::empty()) == Err::<
                (Seq<char>, nat, nat),
                nat,
            >(l as nat),
        },
{
    let mut j = i;
    let mut l = line;
    let mut s: Vec<char> = Vec::new();
    loop
        invariant
            i <= j <= cs.len(),
            line <= l <= line + (j - i),
            line + cs.len() - i < usize::MAX,
            string_body(cs@, i as nat, line as nat, Seq::empty()) == string_body(
                cs@,
                j as nat,
                l as nat,
                s@,
            ),
        decreases cs.len() - j,
    {
        if j >= cs.len() {
            return Err(l);
        }
        let ch = cs[j];
        if ch == '"' {
            return Ok((s, j + 1, l));
        }
        if ch == '\\' && j + 1 < cs.len() {
            let e = cs[j + 1];
            let u = if e == 'n' {
                '\n'
            } else if e == 't' {
                '\t'
            } else {
                e
            };
            if e == '\n' {
                l = l + 1;
            }
            s.push(u);
            j = j + 2;
        } else {
            if ch == '\n' {
                l = l + 1;
            }
            s.push(ch);
            j = j + 1;
        }
    }
}

/// An executed lexer step; its model is a [`Step`].
enum LexMove {
    Skip { next: usize, line: usize },
    Emit { tok: Tok, next: usize, line: usize },
    Fail { msg: String, line: usize },
}

spec fn move_view(m: LexMove) -> Step {
    match m {
        LexMove::Skip { next, line } => Step::Skip { next: next as nat, line: line as nat },
        LexMove::Emit { tok, next, line } => Step::Emit { tok: tok@, next: next as nat, line: line as nat },
        LexMove::Fail { msg, line } => Step::Fail { msg: msg@, line: line as nat },
    }
}

/// Takes the lexer step at position `i`.
fn lex_one(cs: &Vec<char>, i: usize, line: usize) -> (m: LexMove)
    requires
        i < cs.len(),
        1 <= line <= i + 1,
        cs.len() + 2 < usize::MAX,
    ensures
        move_view(m) == lex_step(cs@, i as nat, line as nat),
        m matches LexMove::Skip { next, line: l } ==> i < next <= cs.len() && 1 <= l <= next + 1,
        m matches LexMove::Emit { next, line: l, .. } ==> i < next <= cs.len() && 1 <= l <= next + 1,
{
    let c = cs[i];
    if c == '\n' {
        LexMove::Skip { next: i + 1, line: line + 1 }
    } else if is_whitespace(c) {
        LexMove::Skip { next: i + 1, line }
    } else if c == '#' {
        let j = skip_comment(cs, i + 1);
        assert(i < j <= cs.len() && 1 <= line <= j + 1);
        LexMove::Skip { next: j, line }
    } else if c == '"' {
        match scan_string(cs, i + 1, line) {
            Ok((s, j, l)) => LexMove::Emit { tok: Tok::Str(string_from_chars(&s)), next: j, line: l },
            Err(l) => LexMove::Fail { msg: String::from_str("unterminated string"), line: l },
        }
    } else if '0' <= c && c <= '9' {
        let (j, ds) = scan_digits(cs, i);
        proof {
            assert(digits_end(cs@, i as nat) == digits_end(cs@, (i + 1) as nat));
            lemma_ends_bounds(cs@, (i + 1) as nat);
        }
        match digits_number(&ds) {
            Some(v) => LexMove::Emit { tok: Tok::Int(v), next: j, line },
            None => {
                let mut msg = String::from_str("bad integer '");
                let dtext = string_from_chars(&ds);
                msg.append(dtext.as_str());
                msg.append("'");
                LexMove::Fail { msg, line }
            },
        }
    } else if is_alphabetic(c) || c == '_' {
        let (j, w) = scan_word(cs, i);
        proof {
            assert(word_end(cs@, i as nat) == word_end(cs@, (i + 1) as nat));
            lemma_ends_bounds(cs@, (i + 1) as nat);
        }
        LexMove::Emit { tok: word_token(&w), next: j, line }
    } else {
        let two = if i + 1 < cs.len() {
            two_char_token(c, cs[i + 1])
        } else {
            None
        };
        match two {
            Some(tk) => LexMove::Emit { tok: tk, next: i + 2, line },
            None => match one_char_token(c) {
                Some(tk) => LexMove::Emit { tok: tk, next: i + 1, line },
                None => {
                    let mut msg = String::from_str("unexpected character '");
                    let mut cv: Vec<char> = Vec::new();
                    cv.push(c);
                    let ctext = string_from_chars(&cv);
                    msg.append(ctext.as_str());
                    msg.append("'");
                    LexMove::Fail { msg, line }
                },
            },
        }
    }
}

/// Turns source text into tokens. The stream ends with one `Eof` on the last
/// line; a lexing error names its line.
pub fn lex(src: &str) -> (r: Result<Vec<Token>, Error>)
    requires
        src@.len() + 2 < usize::MAX,
    ensures
        lex_result_view(r) == lex_spec(src@),
        r matches Ok(ts) ==> well_terminated(tokens_view(ts@)),
        r matches Ok(ts) ==> lines_ordered(tokens_view(ts@)),
{
    proof {
        lemma_lex_well_terminated(src@, 0, 1);
        lemma_lex_lines(src@, 0, 1);
    }
    let cs = chars_of(src);
    let mut i: usize = 0;
    let mut line: usize = 1;
    let mut out: Vec<Token> = Vec::new();
    while i < cs.len()
        invariant
            cs@ == src@,
            cs.len() + 2 < usize::MAX,
            i <= cs.len(),
            1 <= line <= i + 1,
            lex_spec(src@) == prepend(tokens_view(out@), lex_chars(cs@, i as nat, line as nat)),
        decreases cs.len() - i,
    {
        let ghost i0 = i;
        let ghost l0 = line;
        let ghost out0 = out@;
        match lex_one(&cs, i, line) {
            LexMove::Skip { next, line: l } => {
                i = next;
                line = l;
                assert(lex_chars(cs@, i0 as nat, l0 as nat) == lex_chars(cs@, i as nat, line as nat));
            },
            LexMove::Emit { tok, next, line: l } => {
                let t = Token { tok, line: l };
                let ghost tv = t@;
                out.push(t);
                i = next;
                line = l;
                proof {
                    assert(lex_chars(cs@, i0 as nat, l0 as nat) == prepend(seq![tv], lex_chars(cs@, i as nat, line as nat)));
                    assert(tokens_view(out@) =~= tokens_view(out0) + seq![tv]);
                    lemma_prepend_assoc(tokens_view(out0), seq![tv], lex_chars(cs@, i as nat, line as nat));
                }
            },
            LexMove::Fail { msg, line: l } => {
                return Err(Error::Lex { msg, line: l });
            },
        }
    }
    let t = Token { tok: Tok::Eof, line };
    proof {
        assert(tokens_view(out@.push(t)) =~= tokens_view(out@) + seq![t@]);
    }
    out.push(t);
    Ok(out)
}

/// The text the derived `Debug` writes for a token kind, e.g. `Semi`,
/// `Int(42)` or `Ident("x")`.
pub open spec fn tok_debug(t: STok) -> Seq<char> {
    match t {
        STok::Int(n) => "Int("@ + int_text(n as int) + ")"@,
        STok::Str(s) => "Str("@ + debug_quoted(s) + ")"@,
        STok::Ident(s) => "Ident("@ + debug_quoted(s) + ")"@,
        STok::Let => "Let"@,
        STok::Rec => "Rec"@,
        STok::Fn => "Fn"@,
        STok::If => "If"@,
        STok::Then => "Then"@,
        STok::Else => "Else"@,
        STok::True => "True"@,
        STok::False => "False"@,
        STok::Plus => "Plus"@,
        STok::Minus => "Minus"@,
        STok::Star => "Star"@,
        STok::Slash => "Slash"@,
        STok::Percent => "Percent"@,
        STok::PlusPlus => "PlusPlus"@,
        STok::EqEq => "EqEq"@,
        STok::NotEq => "NotEq"@,
        STok::Lt => "Lt"@,
        STok::Le => "Le"@,
        STok::Gt => "Gt"@,
        STok::Ge => "Ge"@,
        STok::AmpAmp => "AmpAmp"@,
        STok::PipePipe => "PipePipe"@,
        STok::Bang => "Bang"@,
        STok::Eq => "Eq"@,
        STok::Arrow => "Arrow"@,
        STok::FatArrow => "FatArrow"@,
        STok::Colon => "Colon"@,
        STok::Semi => "Semi"@,
        STok::Comma => "Comma"@,
        STok::LParen => "LParen"@,
        STok::RParen => "RParen"@,
        STok::Eof => "Eof"@,
    }
}

impl Tok {
    /// The text the derived `Debug` writes for this token kind.
    pub fn debug_text(&self) -> (s: String)
        ensures
            s@ == tok_debug(self@),
    {
        match self {
            Tok::Int(n) => {
                let mut s = String::from_str("Int(");
                let t = int_to_string(*n);
                s.append(t.as_str());
                s.append(")");
                s
            },
            Tok::Str(x) => {
                let mut s = String::from_str("Str(");
                let t = debug_string(x.as_str());
                s.append(t.as_str());
                s.append(")");
                s
            },
            Tok::Ident(x) => {
                let mut s = String::from_str("Ident(");
                let t = debug_string(x.as_str());
                s.append(t.as_str());
                s.append(")");
                s
            },
            Tok::Let => String::from_str("Let"),
            Tok::Rec => String::from_str("Rec"),
            Tok::Fn => String::from_str("Fn"),
            Tok::If => String::from_str("If"),
            Tok::Then => String::from_str("Then"),
            Tok::Else => String::from_str("Else"),
            Tok::True => String::from_str("True"),
            Tok::False => String::from_str("False"),
            Tok::Plus => String::from_str("Plus"),
            Tok::Minus => String::from_str("Minus"),
            Tok::Star => String::from_str("Star"),
            Tok::Slash => String::from_str("Slash"),
            Tok::Percent => String::from_str("Percent"),
            Tok::PlusPlus => String::from_str("PlusPlus"),
            Tok::EqEq => String::from_str("EqEq"),
            Tok::NotEq => String::from_str("NotEq"),
            Tok::Lt => String::from_str("Lt"),
            Tok::Le => String::from_str("Le"),
            Tok::Gt => String::from_str("Gt"),
            Tok::Ge => String::from_str("Ge"),
            Tok::AmpAmp => String::from_str("AmpAmp"),
            Tok::PipePipe => String::from_str("PipePipe"),
            Tok::Bang => String::from_str("Bang"),
            Tok::Eq => String::from_str("Eq"),
            Tok::Arrow => String::from_str("Arrow"),
            Tok::FatArrow => String::from_str("FatArrow"),
            Tok::Colon => String::from_str("Colon"),
            Tok::Semi => String::from_str("Semi"),
            Tok::Comma => String::from_str("Comma"),
            Tok::LParen => String::from_str("LParen"),
            Tok::RParen => String::from_str("RParen"),
            Tok::Eof => String::from_str("Eof"),
        }
    }
}

/// Whether two tokens are the same token.
pub fn tok_eq(a: &Tok, b: &Tok) -> (r: bool)
    ensures
        r == (a@ == b@),
{
    match (a, b) {
        (Tok::Int(x), Tok::Int(y)) => *x == *y,
        (Tok::Str(x), Tok::Str(y)) => *x == *y,
        (Tok::Ident(x), Tok::Ident(y)) => *x == *y,
        (Tok::Let, Tok::Let) => true,
        (Tok::Rec, Tok::Rec) => true,
        (Tok::Fn, Tok::Fn) => true,
        (Tok::If, Tok::If) => true,
        (Tok::Then, Tok::Then) => true,
        (Tok::Else, Tok::Else) => true,
        (Tok::True, Tok::True) => true,
        (Tok::False, Tok::False) => true,
        (Tok::Plus, Tok::Plus) => true,
        (Tok::Minus, Tok::Minus) => true,
        (Tok::Star, Tok::Star) => true,
        (Tok::Slash, Tok::Slash) => true,
        (Tok::Percent, Tok::Percent) => true,
        (Tok::PlusPlus, Tok::PlusPlus) => true,
        (Tok::EqEq, Tok::EqEq) => true,
        (Tok::NotEq, Tok::NotEq) => true,
        (Tok::Lt, Tok::Lt) => true,
        (Tok::Le, Tok::Le) => true,
        (Tok::Gt, Tok::Gt) => true,
        (Tok::Ge, Tok::Ge) => true,
        (Tok::AmpAmp, Tok::AmpAmp) => true,
        (Tok::PipePipe, Tok::PipePipe) => true,
        (Tok::Bang, Tok::Bang) => true,
        (Tok::Eq, Tok::Eq) => true,
        (Tok::Arrow, Tok::Arrow) => true,
        (Tok::FatArrow, Tok::FatArrow) => true,
        (Tok::Colon, Tok::Colon) => true,
        (Tok::Semi, Tok::Semi) => true,
        (Tok::Comma, Tok::Comma) => true,
        (Tok::LParen, Tok::LParen) => true,
        (Tok::RParen, Tok::RParen) => true,
        (Tok::Eof, Tok::Eof) => true,
        _ => false,
    }
}

impl Tok {
    /// A copy of this token.
    pub fn clone_tok(&self) -> (t: Tok)
        ensures
            t@ == self@,
    {
        match self {
            Tok::Int(n) => Tok::Int(*n),
            Tok::Str(s) => Tok::Str(s.clone()),
            Tok::Ident(s) => Tok::Ident(s.clone()),
            Tok::Let => Tok::Let,
            Tok::Rec => Tok::Rec,
            Tok::Fn => Tok::Fn,
            Tok::If => Tok::If,
            Tok::Then => Tok::Then,
            Tok::Else => Tok::Else,
            Tok::True => Tok::True,
            Tok::False => Tok::False,
            Tok::Plus => Tok::Plus,
            Tok::Minus => Tok::Minus,
            Tok::Star => Tok::Star,
            Tok::Slash => Tok::Slash,
            Tok::Percent => Tok::Percent,
            Tok::PlusPlus => Tok::PlusPlus,
            Tok::EqEq => Tok::EqEq,
            Tok::NotEq => Tok::NotEq,
            Tok::Lt => Tok::Lt,
            Tok::Le => Tok::Le,
            Tok::Gt => Tok::Gt,
            Tok::Ge => Tok::Ge,
            Tok::AmpAmp => Tok::AmpAmp,
            Tok::PipePipe => Tok::PipePipe,
            Tok::Bang => Tok::Bang,
            Tok::Eq => Tok::Eq,
            Tok::Arrow => Tok::Arrow,
            Tok::FatArrow => Tok::FatArrow,
            Tok::Colon => Tok::Colon,
            Tok::Semi => Tok::Semi,
            Tok::Comma => Tok::Comma,
            Tok::LParen => Tok::LParen,
            Tok::RParen => Tok::RParen,
            Tok::Eof => Tok::Eof,
        }
    }
}

} // verus!
