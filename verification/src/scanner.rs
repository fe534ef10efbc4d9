//! The lexer of the s-expression surface syntax.
//!
//! Tokens: `(`, `)`, `[`, `]`, `.`, identifiers, non-negative integers and
//! end-of-file. Whitespace is space, tab, carriage return and line feed;
//! `;` opens a comment running to the end of the line. [`spec_scan`] is the
//! model of one scanning step.

use vstd::prelude::*;
use vstd::string::StrSliceExecFns;

use crate::cst::{Dot, Identifier, Integer, LBracket, LParen, RBracket, RParen, Span, Token, TokenV};

verus! {

broadcast use vstd::seq::group_seq_axioms, vstd::std_specs::vec::group_vec_axioms;

/// A lexical fault.
#[derive(Clone, Debug, PartialEq, Eq)]
pub enum ScanError {
    /// A character that cannot begin any token.
    UnexpectedChar { ch: char, offset: usize },
    /// An integer literal past the signed 64-bit range.
    IntegerOverflow { span: Span },
}

/// Whitespace characters of the surface syntax.
pub open spec fn is_whitespace_char(c: char) -> bool {
    c == ' ' || c == '\t' || c == '\r' || c == '\n'
}

/// ASCII digits.
pub open spec fn is_digit_char(c: char) -> bool {
    '0' <= c && c <= '9'
}

/// Characters that may begin an identifier: ASCII letters, the underscore and
/// the symbol characters.
pub open spec fn is_ident_start(c: char) -> bool {
    ('a' <= c && c <= 'z') || ('A' <= c && c <= 'Z') || c == '_' || c == '+' || c == '-' || c
        == '*' || c == '/' || c == '^' || c == '&' || c == '|' || c == '%' || c == '$' || c == '?'
        || c == '!' || c == '<' || c == '>' || c == '=' || c == '~'
}

/// Characters that may continue an identifier: its start characters and the
/// digits.
pub open spec fn is_ident_continue(c: char) -> bool {
    is_ident_start(c) || is_digit_char(c)
}

/// The position of the next token: skips whitespace, and comments from `;` to
/// the end of the line.
pub open spec fn spec_skip(chars: Seq<char>, pos: int, in_comment: bool) -> int
    decreases chars.len() - pos,
{
    if pos < 0 || pos >= chars.len() {
        if pos < 0 {
            0
        } else {
            chars.len() as int
        }
    } else if in_comment {
        if chars[pos] == '\n' {
            spec_skip(chars, pos + 1, false)
        } else {
            spec_skip(chars, pos + 1, true)
        }
    } else if is_whitespace_char(chars[pos]) {
        spec_skip(chars, pos + 1, false)
    } else if chars[pos] == ';' {
        spec_skip(chars, pos + 1, true)
    } else {
        pos
    }
}

/// The end of a run of identifier-continuation characters from `pos`.
pub open spec fn spec_ident_end(chars: Seq<char>, pos: int) -> int
    decreases chars.len() - pos,
{
    if pos < 0 || pos >= chars.len() {
        if pos < 0 {
            0
        } else {
            chars.len() as int
        }
    } else if is_ident_continue(chars[pos]) {
        spec_ident_end(chars, pos + 1)
    } else {
        pos
    }
}

/// The end of a run of digits from `pos`.
pub open spec fn spec_digit_end(chars: Seq<char>, pos: int) -> int
    decreases chars.len() - pos,
{
    if pos < 0 || pos >= chars.len() {
        if pos < 0 {
            0
        } else {
            chars.len() as int
        }
    } else if is_digit_char(chars[pos]) {
        spec_digit_end(chars, pos + 1)
    } else {
        pos
    }
}

/// The numeric value of one digit character.
pub open spec fn digit_value(c: char) -> int {
    c as int - '0' as int
}

/// The value of the digit run `chars[start..end]`, most significant first.
pub open spec fn spec_int_value(chars: Seq<char>, start: int, end: int) -> int
    decreases end - start,
{
    if start >= end {
        0
    } else {
        spec_int_value(chars, start, end - 1) * 10 + digit_value(chars[end - 1])
    }
}

/// The model of one scanning step from `pos`: the token and the position
/// after it, a lexical fault otherwise. The position never moves past the end
/// of the text.
pub open spec fn spec_scan(chars: Seq<char>, pos: int) -> Result<(TokenV, int), ScanError> {
    let p = spec_skip(chars, pos, false);
    if p >= chars.len() {
        Ok((TokenV::EndOfFile, chars.len() as int))
    } else {
        let c = chars[p];
        let one = Span { start: p as usize, end: (p + 1) as usize };
        if c == '(' {
            Ok((TokenV::LParen { span: one }, p + 1))
        } else if c == ')' {
            Ok((TokenV::RParen { span: one }, p + 1))
        } else if c == '[' {
            Ok((TokenV::LBracket { span: one }, p + 1))
        } else if c == ']' {
            Ok((TokenV::RBracket { span: one }, p + 1))
        } else if c == '.' {
            Ok((TokenV::Dot { span: one }, p + 1))
        } else if is_digit_char(c) {
            let e = spec_digit_end(chars, p);
            let v = spec_int_value(chars, p, e);
            let span = Span { start: p as usize, end: e as usize };
            if v > i64::MAX {
                Err(ScanError::IntegerOverflow { span })
            } else {
                Ok((TokenV::Integer { value: v as i64, span }, e))
            }
        } else if is_ident_start(c) {
            let e = spec_ident_end(chars, p + 1);
            let span = Span { start: p as usize, end: e as usize };
            Ok((TokenV::Identifier { text: chars.subrange(p, e), span }, e))
        } else {
            Err(ScanError::UnexpectedChar { ch: c, offset: p as usize })
        }
    }
}

/// Skipping never moves backwards and stays within the text.
pub proof fn lemma_skip_bounds(chars: Seq<char>, pos: int, in_comment: bool)
    requires
        0 <= pos <= chars.len(),
    ensures
        pos <= spec_skip(chars, pos, in_comment) <= chars.len(),
    decreases chars.len() - pos,
{
    if pos < chars.len() {
        lemma_skip_bounds(chars, pos + 1, in_comment);
        lemma_skip_bounds(chars, pos + 1, false);
        lemma_skip_bounds(chars, pos + 1, true);
    }
}

/// An identifier run never moves backwards and stays within the text.
pub proof fn lemma_ident_end_bounds(chars: Seq<char>, pos: int)
    requires
        0 <= pos <= chars.len(),
    ensures
        pos <= spec_ident_end(chars, pos) <= chars.len(),
    decreases chars.len() - pos,
{
    if pos < chars.len() {
        lemma_ident_end_bounds(chars, pos + 1);
    }
}

/// A digit run never moves backwards and stays within the text.
pub proof fn lemma_digit_end_bounds(chars: Seq<char>, pos: int)
    requires
        0 <= pos <= chars.len(),
    ensures
        pos <= spec_digit_end(chars, pos) <= chars.len(),
    decreases chars.len() - pos,
{
    if pos < chars.len() {
        lemma_digit_end_bounds(chars, pos + 1);
    }
}

/// A successful scan makes progress while any token remains, and never moves
/// past the end of the text.
pub proof fn lemma_scan_progress(chars: Seq<char>, pos: int)
    requires
        0 <= pos <= chars.len(),
        spec_scan(chars, pos) is Ok,
    ensures
        pos <= spec_scan(chars, pos)->Ok_0.1 <= chars.len(),
        !(spec_scan(chars, pos)->Ok_0.0 is EndOfFile) ==> spec_scan(chars, pos)->Ok_0.1 > pos,
{
    lemma_skip_bounds(chars, pos, false);
    let p = spec_skip(chars, pos, false);
    if p < chars.len() {
        lemma_ident_end_bounds(chars, p + 1);
        lemma_digit_end_bounds(chars, p + 1);
        if is_digit_char(chars[p]) {
            assert(spec_digit_end(chars, p) == spec_digit_end(chars, p + 1));
        }
    }
}


/// Decides [`is_whitespace_char`].
pub fn is_whitespace(ch: char) -> (r: bool)
    ensures
        r == is_whitespace_char(ch),
{
    ch == '\n' || ch == '\r' || ch == '\t' || ch == ' '
}

/// Decides [`is_digit_char`].
pub fn is_digit(ch: char) -> (r: bool)
    ensures
        r == is_digit_char(ch),
{
    ch >= '0' && ch <= '9'
}

/// Decides [`is_ident_start`].
pub fn is_ident_start_char(ch: char) -> (r: bool)
    ensures
        r == is_ident_start(ch),
{
    (ch >= 'a' && ch <= 'z') || (ch >= 'A' && ch <= 'Z') || ch == '_' || ch == '+' || ch == '-'
        || ch == '*' || ch == '/' || ch == '^' || ch == '&' || ch == '|' || ch == '%' || ch == '$'
        || ch == '?' || ch == '!' || ch == '<' || ch == '>' || ch == '=' || ch == '~'
}

/// Decides [`is_ident_continue`].
pub fn is_ident_continue_char(ch: char) -> (r: bool)
    ensures
        r == is_ident_continue(ch),
{
    is_ident_start_char(ch) || is_digit(ch)
}

/// Whether the whitespace-and-comment skip continues on this character.
fn skip_continues(in_comment: bool, ch: char) -> (r: bool)
    ensures
        r == (in_comment || is_whitespace_char(ch) || ch == ';'),
{
    in_comment || is_whitespace(ch) || ch == ';'
}

/// The scanner: the text as characters and the cursor offset.
pub struct Scanner {
    chars: Vec<char>,
    /// The current character offset.
    pub offset: usize,
}

impl Scanner {
    /// The scanned text.
    pub closed spec fn text(&self) -> Seq<char> {
        self.chars@
    }

    /// The cursor offset.
    pub closed spec fn cursor(&self) -> int {
        self.offset as int
    }

    /// The cursor stays within the text.
    pub open spec fn wf(&self) -> bool {
        0 <= self.cursor() <= self.text().len()
    }

    /// A scanner over the given characters, at the start.
    pub fn new(chars: Vec<char>) -> (r: Scanner)
        ensures
            r.text() == chars@,
            r.cursor() == 0,
            r.wf(),
    {
        Scanner { chars, offset: 0 }
    }

    /// A scanner over the characters of a string slice, at the start.
    pub fn from_str(s: &str) -> (r: Scanner)
        ensures
            r.text() == s@,
            r.cursor() == 0,
            r.wf(),
    {
        let n = s.unicode_len();
        let mut chars: Vec<char> = Vec::new();
        let mut i: usize = 0;
        while i < n
            invariant
                i <= n,
                n == s@.len(),
                chars@ =~= s@.take(i as int),
            decreases n - i,
        {
            let c = s.get_char(i);
            chars.push(c);
            proof {
                assert(chars@ =~= s@.take(i + 1int));
            }
            i = i + 1;
        }
        proof {
            assert(chars@ =~= s@);
        }
        Scanner::new(chars)
    }

    /// The cursor offset, as a value.
    pub fn position(&self) -> (r: usize)
        ensures
            r as int == self.cursor(),
    {
        self.offset
    }

    /// Moves the cursor to a saved position within the text.
    pub fn set_position(&mut self, p: usize)
        requires
            p as int <= old(self).text().len(),
        ensures
            final(self).text() == old(self).text(),
            final(self).cursor() == p as int,
            final(self).wf(),
    {
        self.offset = p;
    }

    /// Scans one token, per [`spec_scan`], advancing the cursor past it.
    pub fn scan(&mut self) -> (r: Result<Token, ScanError>)
        requires
            old(self).wf(),
        ensures
            final(self).text() == old(self).text(),
            final(self).wf(),
            match spec_scan(old(self).text(), old(self).cursor()) {
                Ok(tp) => r is Ok && r->Ok_0@ == tp.0 && final(self).cursor() == tp.1,
                Err(e) => r is Err && r->Err_0 == e,
            },
    {
        let ghost text = self.text();
        let ghost pos0 = self.offset as int;
        // skip whitespace and comments
        let mut in_comment = false;
        while self.offset < self.chars.len() && skip_continues(in_comment, self.chars[self.offset])
            invariant
                self.chars@ == text,
                self.offset <= text.len(),
                spec_skip(text, pos0, false) == spec_skip(text, self.offset as int, in_comment),
            decreases text.len() - self.offset,
        {
            let c = self.chars[self.offset];
            if in_comment {
                if c == '\n' {
                    in_comment = false;
                }
            } else if c == ';' {
                in_comment = true;
            }
            self.offset = self.offset + 1;
        }
        let p = self.offset;
        proof {
            assert(spec_skip(text, self.offset as int, in_comment) == self.offset as int);
        }
        if p == self.chars.len() {
            return Ok(Token::EndOfFile);
        }
        let c = self.chars[p];
        let one = Span { start: p, end: p + 1 };
        if c == '(' {
            self.offset = p + 1;
            Ok(Token::LParen(LParen { span: one }))
        } else if c == ')' {
            self.offset = p + 1;
            Ok(Token::RParen(RParen { span: one }))
        } else if c == '[' {
            self.offset = p + 1;
            Ok(Token::LBracket(LBracket { span: one }))
        } else if c == ']' {
            self.offset = p + 1;
            Ok(Token::RBracket(RBracket { span: one }))
        } else if c == '.' {
            self.offset = p + 1;
            Ok(Token::Dot(Dot { span: one }))
        } else if c >= '0' && c <= '9' {
            let mut e = p;
            let mut value: i64 = 0;
            let mut overflow = false;
            while e < self.chars.len() && is_digit(self.chars[e])
                invariant
                    p <= e <= text.len(),
                    self.chars@ == text,
                    self.offset == p,
                    spec_digit_end(text, p as int) == spec_digit_end(text, e as int),
                    forall|t: int| p <= t < e ==> is_digit_char(text[t]),
                    !overflow ==> value as int == spec_int_value(text, p as int, e as int),
                    overflow ==> spec_int_value(text, p as int, e as int) > i64::MAX,
                    value >= 0,
                decreases text.len() - e,
            {
                let d = self.chars[e];
                let dv = (d as u32 - '0' as u32) as i64;
                proof {
                    assert(is_digit_char(text[e as int]));
                    assert(dv == digit_value(text[e as int]));
                    assert(0 <= dv <= 9);
                    lemma_int_value_grows(text, p as int, e as int);
                }
                if overflow {
                    proof {
                        lemma_int_value_monotone(text, p as int, e as int);
                    }
                } else if value > (i64::MAX - dv) / 10 {
                    overflow = true;
                    proof {
                        assert(value as int * 10 + dv as int > i64::MAX as int)
                            by (nonlinear_arith)
                            requires
                                value as int > (i64::MAX as int - dv as int) / 10,
                                0 <= dv as int <= 9,
                                value as int >= 0,
                        ;
                    }
                } else {
                    proof {
                        assert(value as int * 10 + dv as int <= i64::MAX as int)
                            by (nonlinear_arith)
                            requires
                                value as int <= (i64::MAX as int - dv as int) / 10,
                                0 <= dv as int <= 9,
                                value as int >= 0,
                        ;
                    }
                    value = value * 10 + dv;
                }
                e = e + 1;
            }
            proof {
                assert(spec_digit_end(text, e as int) == e as int);
            }
            let span = Span { start: p, end: e };
            self.offset = e;
            if overflow {
                Err(ScanError::IntegerOverflow { span })
            } else {
                Ok(Token::Integer(Integer { value, span }))
            }
        } else if (c >= 'a' && c <= 'z') || (c >= 'A' && c <= 'Z') || c == '_' || c == '+' || c
            == '-' || c == '*' || c == '/' || c == '^' || c == '&' || c == '|' || c == '%' || c
            == '$' || c == '?' || c == '!' || c == '<' || c == '>' || c == '=' || c == '~' {
            let mut e = p + 1;
            let mut text_buf = String::new();
            crate::cst::push_char(&mut text_buf, c);
            proof {
                assert(text_buf@ =~= text.subrange(p as int, p + 1int));
            }
            while e < self.chars.len() && is_ident_continue_char(self.chars[e])
                invariant
                    p < e <= text.len(),
                    self.chars@ == text,
                    self.offset == p,
                    spec_ident_end(text, p + 1int) == spec_ident_end(text, e as int),
                    text_buf@ =~= text.subrange(p as int, e as int),
                decreases text.len() - e,
            {
                let d = self.chars[e];
                crate::cst::push_char(&mut text_buf, d);
                proof {
                    assert(text_buf@ =~= text.subrange(p as int, e + 1int));
                }
                e = e + 1;
            }
            proof {
                assert(spec_ident_end(text, e as int) == e as int);
            }
            let span = Span { start: p, end: e };
            self.offset = e;
            Ok(Token::Identifier(Identifier { text: text_buf, span }))
        } else {
            Err(ScanError::UnexpectedChar { ch: c, offset: p })
        }
    }
}

/// Appending a digit keeps the running value in step with the model.
proof fn lemma_int_value_grows(chars: Seq<char>, start: int, e: int)
    requires
        0 <= start <= e < chars.len(),
    ensures
        spec_int_value(chars, start, e + 1) == spec_int_value(chars, start, e) * 10 + digit_value(
            chars[e],
        ),
{
}

/// Digit-run values never shrink as the run extends.
proof fn lemma_int_value_monotone(chars: Seq<char>, start: int, e: int)
    requires
        0 <= start <= e < chars.len(),
        forall|t: int| start <= t <= e ==> is_digit_char(#[trigger] chars[t]),
    ensures
        spec_int_value(chars, start, e + 1) >= spec_int_value(chars, start, e),
{
    lemma_int_value_nonneg(chars, start, e);
    assert(digit_value(chars[e]) >= 0);
    let v = spec_int_value(chars, start, e);
    assert(v * 10 >= v) by (nonlinear_arith)
        requires
            v >= 0,
    ;
}

/// The value of a run of digits is non-negative.
proof fn lemma_int_value_nonneg(chars: Seq<char>, start: int, e: int)
    requires
        0 <= start <= e <= chars.len(),
        forall|t: int| start <= t < e ==> is_digit_char(#[trigger] chars[t]),
    ensures
        spec_int_value(chars, start, e) >= 0,
    decreases e - start,
{
    if start < e {
        lemma_int_value_nonneg(chars, start, e - 1);
        let v = spec_int_value(chars, start, e - 1);
        assert(digit_value(chars[e - 1]) >= 0);
        assert(v * 10 >= 0) by (nonlinear_arith)
            requires
                v >= 0,
        ;
    }
}

} // verus!
