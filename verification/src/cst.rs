//! The concrete syntax tree of the s-expression surface language: tokens,
//! expressions, files, and the shape-checked accessors the loaders use.

use vstd::prelude::*;

verus! {

/// A half-open range of character offsets in the scanned text.
#[derive(Clone, Copy, Debug, PartialEq, Eq, Structural)]
pub struct Span {
    pub start: usize,
    pub end: usize,
}

/// Anything that knows its place in the scanned text.
pub trait Spanned {
    /// The character range this node covers.
    fn span(&self) -> Span;

    /// The offset where this node starts.
    fn start_offset(&self) -> usize {
        self.span().start
    }

    /// The offset just past this node.
    fn end_offset(&self) -> usize {
        self.span().end
    }
}

/// The token `.` of a dotted pair.
#[derive(Clone, Debug, PartialEq, Eq, Structural)]
pub struct Dot {
    pub span: Span,
}

/// The token `(`.
#[derive(Clone, Debug, PartialEq, Eq, Structural)]
pub struct LParen {
    pub span: Span,
}

/// The token `[`.
#[derive(Clone, Debug, PartialEq, Eq, Structural)]
pub struct LBracket {
    pub span: Span,
}

/// The token `)`.
#[derive(Clone, Debug, PartialEq, Eq, Structural)]
pub struct RParen {
    pub span: Span,
}

/// The token `]`.
#[derive(Clone, Debug, PartialEq, Eq, Structural)]
pub struct RBracket {
    pub span: Span,
}

/// An identifier token.
#[derive(Clone, Debug, PartialEq, Eq)]
pub struct Identifier {
    pub text: String,
    pub span: Span,
}

/// An integer token; the surface syntax only produces non-negative values.
#[derive(Clone, Copy, Debug, PartialEq, Eq, Structural)]
pub struct Integer {
    pub value: i64,
    pub span: Span,
}

impl LParen {
    /// Builds the token from its span.
    pub fn new(span: Span) -> (r: Self)
        ensures
            r.span == span,
    {
        LParen { span }
    }
}

impl LBracket {
    /// Builds the token from its span.
    pub fn new(span: Span) -> (r: Self)
        ensures
            r.span == span,
    {
        LBracket { span }
    }
}

impl RParen {
    /// Builds the token from its span.
    pub fn new(span: Span) -> (r: Self)
        ensures
            r.span == span,
    {
        RParen { span }
    }
}

impl RBracket {
    /// Builds the token from its span.
    pub fn new(span: Span) -> (r: Self)
        ensures
            r.span == span,
    {
        RBracket { span }
    }
}

impl Identifier {
    /// Builds the token from its text and span.
    pub fn new(text: String, span: Span) -> (r: Self)
        ensures
            r.text@ == text@,
            r.span == span,
    {
        Identifier { text, span }
    }
}

impl Spanned for Dot {
    fn span(&self) -> Span {
        self.span
    }
}

impl Spanned for LParen {
    fn span(&self) -> Span {
        self.span
    }
}

impl Spanned for LBracket {
    fn span(&self) -> Span {
        self.span
    }
}

impl Spanned for RParen {
    fn span(&self) -> Span {
        self.span
    }
}

impl Spanned for RBracket {
    fn span(&self) -> Span {
        self.span
    }
}

impl Spanned for Identifier {
    fn span(&self) -> Span {
        self.span
    }
}

impl Spanned for Integer {
    fn span(&self) -> Span {
        self.span
    }
}

/// A lexical token.
#[derive(Clone, Debug, PartialEq, Eq)]
pub enum Token {
    Dot(Dot),
    Integer(Integer),
    Identifier(Identifier),
    LParen(LParen),
    LBracket(LBracket),
    RParen(RParen),
    RBracket(RBracket),
    EndOfFile,
}

/// The model of a token.
pub enum TokenV {
    Dot { span: Span },
    Integer { value: i64, span: Span },
    Identifier { text: Seq<char>, span: Span },
    LParen { span: Span },
    LBracket { span: Span },
    RParen { span: Span },
    RBracket { span: Span },
    EndOfFile,
}

impl View for Token {
    type V = TokenV;

    open spec fn view(&self) -> TokenV {
        match self {
            Token::Dot(t) => TokenV::Dot { span: t.span },
            Token::Integer(t) => TokenV::Integer { value: t.value, span: t.span },
            Token::Identifier(t) => TokenV::Identifier { text: t.text@, span: t.span },
            Token::LParen(t) => TokenV::LParen { span: t.span },
            Token::LBracket(t) => TokenV::LBracket { span: t.span },
            Token::RParen(t) => TokenV::RParen { span: t.span },
            Token::RBracket(t) => TokenV::RBracket { span: t.span },
            Token::EndOfFile => TokenV::EndOfFile,
        }
    }
}

impl Token {
    /// The span of any token but the end-of-file marker, which has none.
    pub fn span(&self) -> (r: Span)
        requires
            !(self@ is EndOfFile),
        ensures
            r == self@.token_span(),
    {
        match self {
            Token::Dot(inner) => inner.span,
            Token::Integer(inner) => inner.span,
            Token::Identifier(inner) => inner.span,
            Token::LParen(inner) => inner.span,
            Token::RParen(inner) => inner.span,
            Token::LBracket(inner) => inner.span,
            Token::RBracket(inner) => inner.span,
            Token::EndOfFile => unreached(),
        }
    }
}

impl TokenV {
    /// The span of a token model; the end-of-file marker has none.
    pub open spec fn token_span(self) -> Span {
        match self {
            TokenV::Dot { span } => span,
            TokenV::Integer { span, .. } => span,
            TokenV::Identifier { span, .. } => span,
            TokenV::LParen { span } => span,
            TokenV::LBracket { span } => span,
            TokenV::RParen { span } => span,
            TokenV::RBracket { span } => span,
            TokenV::EndOfFile => Span { start: 0, end: 0 },
        }
    }
}

/// The dotted tail of a list.
#[derive(Debug, PartialEq, Eq)]
pub struct Tail {
    pub dot: Dot,
    pub expr: SExp,
}

/// A parenthesised list with an optional dotted tail.
#[derive(Debug, PartialEq, Eq)]
pub struct List {
    pub open_delim: Token,
    pub elements: Vec<SExp>,
    pub tail: Option<Box<Tail>>,
    pub close_delim: Token,
}

/// An s-expression.
#[derive(Debug, PartialEq, Eq)]
pub enum SExp {
    List(List),
    Identifier(Identifier),
    Integer(Integer),
}

/// The model of an s-expression.
#[verifier::ext_equal]
pub enum SExpV {
    List {
        open: Span,
        elements: Seq<SExpV>,
        tail: Option<(Span, Box<SExpV>)>,
        close: Span,
    },
    Identifier {
        text: Seq<char>,
        span: Span,
    },
    Integer {
        value: i64,
        span: Span,
    },
}

/// The model of an s-expression tree.
pub open spec fn sexp_view(e: SExp) -> SExpV
    decreases e,
    via sexp_view_decreases
{
    match e {
        SExp::List(l) => SExpV::List {
            open: l.open_delim@.token_span(),
            elements: sexp_views(l.elements@),
            tail: match l.tail {
                Some(t) => Some((t.dot.span, Box::new(sexp_view(t.expr)))),
                None => None,
            },
            close: l.close_delim@.token_span(),
        },
        SExp::Identifier(i) => SExpV::Identifier { text: i.text@, span: i.span },
        SExp::Integer(i) => SExpV::Integer { value: i.value, span: i.span },
    }
}

#[via_fn]
proof fn sexp_view_decreases(e: SExp) {
    match e {
        SExp::List(l) => {
            assert(decreases_to!(e => l.elements));
            assert(decreases_to!(l.elements => l.elements@));
            match l.tail {
                Some(t) => {
                    assert(decreases_to!(e => t.expr));
                },
                None => {},
            }
        },
        _ => {},
    }
}

/// The models of the elements of a vector of s-expressions.
pub open spec fn sexp_views(v: Seq<SExp>) -> Seq<SExpV>
    decreases v,
{
    Seq::new(
        v.len(),
        |i: int|
            if 0 <= i < v.len() {
                sexp_view(v[i])
            } else {
                SExpV::Integer { value: 0, span: Span { start: 0, end: 0 } }
            },
    )
}

impl View for SExp {
    type V = SExpV;

    open spec fn view(&self) -> SExpV {
        sexp_view(*self)
    }
}

/// The s-expression shape an accessor expected and did not find.
#[derive(Copy, Clone, Debug, Eq, PartialEq, Ord, PartialOrd, Hash, Structural)]
pub enum Expected {
    List,
    Identifier,
    Integer,
}

/// A shape error while reading a parsed s-expression.
#[derive(Debug, PartialEq, Eq)]
pub enum ParseError {
    /// The s-expression was of the wrong kind.
    Type(Expected),
    /// An element offset was out of range.
    Index(usize),
    /// A specific keyword was expected; holds the found and the expected text.
    Keyword(String, String),
}

impl List {
    /// The element at `count`, or an index error past the end.
    pub fn get(&self, count: usize) -> (r: Result<&SExp, ParseError>)
        ensures
            count < self.elements@.len() ==> r is Ok && *r->Ok_0 == self.elements@[count as int]
                && r->Ok_0@ == sexp_views(self.elements@)[count as int],
            count >= self.elements@.len() ==> r is Err && r->Err_0 == ParseError::Index(count),
    {
        if count < self.elements.len() {
            Ok(&self.elements[count])
        } else {
            Err(ParseError::Index(count))
        }
    }
}

impl SExp {
    /// The expression as a list, or a type error.
    pub fn as_list(&self) -> (r: Result<&List, ParseError>)
        ensures
            self@ is List ==> r is Ok && r->Ok_0.open_delim@.token_span() == self@->List_open
                && sexp_views(r->Ok_0.elements@) == self@->List_elements,
            !(self@ is List) ==> r is Err && r->Err_0 == ParseError::Type(Expected::List),
    {
        match self {
            SExp::List(inner) => Ok(inner),
            _ => Err(ParseError::Type(Expected::List)),
        }
    }

    /// The expression as an identifier, or a type error.
    pub fn as_identifier(&self) -> (r: Result<&Identifier, ParseError>)
        ensures
            self@ is Identifier ==> r is Ok && r->Ok_0.text@ == self@->Identifier_text
                && r->Ok_0.span == self@->Identifier_span,
            !(self@ is Identifier) ==> r is Err && r->Err_0 == ParseError::Type(
                Expected::Integer,
            ),
    {
        match self {
            SExp::Identifier(inner) => Ok(inner),
            _ => Err(ParseError::Type(Expected::Integer)),
        }
    }

    /// The expression as an integer, or a type error.
    pub fn as_integer(&self) -> (r: Result<&Integer, ParseError>)
        ensures
            self@ is Integer ==> r is Ok && r->Ok_0.value == self@->Integer_value
                && r->Ok_0.span == self@->Integer_span,
            !(self@ is Integer) ==> r is Err && r->Err_0 == ParseError::Type(Expected::Integer),
    {
        match self {
            SExp::Integer(inner) => Ok(inner),
            _ => Err(ParseError::Type(Expected::Integer)),
        }
    }

    /// The expression as the given keyword identifier, or an error naming the
    /// found text.
    pub fn as_keyword(&self, kw: &str) -> (r: Result<&Identifier, ParseError>)
        ensures
            self@ is Identifier && self@->Identifier_text == kw@ ==> r is Ok && r->Ok_0.text@
                == kw@,
            !(self@ is Identifier) ==> r is Err && r->Err_0 == ParseError::Type(
                Expected::Integer,
            ),
            self@ is Identifier && self@->Identifier_text != kw@ ==> r is Err
                && r->Err_0 is Keyword,
    {
        let name = self.as_identifier()?;
        if !str_eq(name.text.as_str(), kw) {
            return Err(ParseError::Keyword(name.text.clone(), make_owned("defthm")));
        }
        Ok(name)
    }
}

/// Decides equality of two string slices against their character sequences.
pub fn str_eq(a: &str, b: &str) -> (r: bool)
    ensures
        r == (a@ == b@),
{
    let oa = a.to_owned();
    let ob = b.to_owned();
    oa.eq(&ob)
}

/// Relies on `String::push`: appends one character to the string.
#[verifier::external_body]
pub(crate) fn push_char(s: &mut String, c: char)
    ensures
        final(s)@ == old(s)@.push(c),
{
    s.push(c);
}

/// An owned copy of a string slice.
fn make_owned(s: &str) -> (r: String)
    ensures
        r@ == s@,
{
    s.to_owned()
}

/// A whole parsed file: its top-level elements and the offset of its end.
#[derive(Debug)]
pub struct SFile {
    pub elements: Vec<SExp>,
    pub end_offset: usize,
}

} // verus!
