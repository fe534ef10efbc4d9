//! The s-expression parser: recursive descent over the scanner's tokens.
//!
//! A bare identifier or integer is an atom; `(` opens a list whose elements
//! run to the matching `)`, with at most one dotted tail. [`spec_parse_sexp`]
//! and [`spec_parse_file`] are the models.

use vstd::prelude::*;

use crate::cst::{LParen, List, RParen, SExp, SExpV, SFile, Span, Tail, Token, TokenV};
use crate::scanner::{spec_scan, lemma_scan_progress, ScanError, Scanner};

verus! {

broadcast use vstd::seq::group_seq_axioms, vstd::std_specs::vec::group_vec_axioms;

/// A parse fault: a lexical fault, a token where no grammar rule allows one,
/// or an input that ends inside a form.
#[derive(Clone, Debug, PartialEq, Eq)]
pub enum Error {
    Scan(ScanError),
    UnexpectedToken { offset: usize },
    UnexpectedEnd,
}

/// The model of the dotted-tail field.
pub open spec fn tail_view(t: Option<Box<Tail>>) -> Option<(Span, Box<SExpV>)> {
    match t {
        Some(b) => Some((b.dot.span, Box::new(crate::cst::sexp_view(b.expr)))),
        None => None,
    }
}

/// The model of parsing one s-expression from `pos`: the tree and the
/// position after it.
pub open spec fn spec_parse_sexp(chars: Seq<char>, pos: int) -> Result<(SExpV, int), Error>
    decreases chars.len() - pos, 0int,
{
    match spec_scan(chars, pos) {
        Err(e) => Err(Error::Scan(e)),
        Ok((tok, p1)) => match tok {
            TokenV::Identifier { text, span } => Ok((SExpV::Identifier { text, span }, p1)),
            TokenV::Integer { value, span } => Ok((SExpV::Integer { value, span }, p1)),
            TokenV::LParen { span } => {
                if pos < p1 <= chars.len() {
                    spec_parse_list(chars, p1, span, Seq::empty(), None)
                } else {
                    Err(Error::UnexpectedEnd)
                }
            },
            TokenV::EndOfFile => Err(Error::UnexpectedEnd),
            _ => Err(Error::UnexpectedToken { offset: tok.token_span().start }),
        },
    }
}

/// The model of parsing the rest of a list: elements and at most one dotted
/// tail, up to the closing parenthesis.
pub open spec fn spec_parse_list(
    chars: Seq<char>,
    pos: int,
    open: Span,
    acc: Seq<SExpV>,
    tail: Option<(Span, Box<SExpV>)>,
) -> Result<(SExpV, int), Error>
    decreases chars.len() - pos, 1int,
{
    match spec_scan(chars, pos) {
        Err(e) => Err(Error::Scan(e)),
        Ok((tok, p1)) => match tok {
            TokenV::RParen { span } => Ok(
                (SExpV::List { open, elements: acc, tail, close: span }, p1),
            ),
            TokenV::Dot { span } => {
                if tail is Some {
                    Err(Error::UnexpectedToken { offset: span.start })
                } else if pos < p1 <= chars.len() {
                    match spec_parse_sexp(chars, p1) {
                        Err(e) => Err(e),
                        Ok((t, p2)) => {
                            if p1 < p2 <= chars.len() {
                                spec_parse_list(chars, p2, open, acc, Some((span, Box::new(t))))
                            } else {
                                Err(Error::UnexpectedEnd)
                            }
                        },
                    }
                } else {
                    Err(Error::UnexpectedEnd)
                }
            },
            TokenV::EndOfFile => Err(Error::UnexpectedEnd),
            TokenV::LBracket { span } => Err(Error::UnexpectedToken { offset: span.start }),
            TokenV::RBracket { span } => Err(Error::UnexpectedToken { offset: span.start }),
            _ => {
                match spec_parse_sexp(chars, pos) {
                    Err(e) => Err(e),
                    Ok((el, p2)) => {
                        if pos < p2 <= chars.len() {
                            spec_parse_list(chars, p2, open, acc.push(el), tail)
                        } else {
                            Err(Error::UnexpectedEnd)
                        }
                    },
                }
            },
        },
    }
}

/// The model of parsing a whole file: top-level elements until end-of-file;
/// the end offset is the cursor before the trailing trivia.
pub open spec fn spec_parse_file(chars: Seq<char>, pos: int, acc: Seq<SExpV>) -> Result<
    (Seq<SExpV>, int),
    Error,
>
    decreases chars.len() - pos, 2int,
{
    match spec_scan(chars, pos) {
        Err(e) => Err(Error::Scan(e)),
        Ok((tok, p1)) => {
            if tok is EndOfFile {
                Ok((acc, pos))
            } else {
                match spec_parse_sexp(chars, pos) {
                    Err(e) => Err(e),
                    Ok((el, p2)) => {
                        if pos < p2 <= chars.len() {
                            spec_parse_file(chars, p2, acc.push(el))
                        } else {
                            Err(Error::UnexpectedEnd)
                        }
                    },
                }
            }
        },
    }
}

/// The parser over a scanner.
pub struct Parser {
    scanner: Scanner,
}

impl Parser {
    /// The scanned text.
    pub closed spec fn text(&self) -> Seq<char> {
        self.scanner.text()
    }

    /// The cursor offset.
    pub closed spec fn cursor(&self) -> int {
        self.scanner.cursor()
    }

    /// The cursor stays within the text.
    pub open spec fn wf(&self) -> bool {
        0 <= self.cursor() <= self.text().len()
    }

    /// A parser over the given scanner.
    pub fn new(scanner: Scanner) -> (r: Parser)
        ensures
            r.text() == scanner.text(),
            r.cursor() == scanner.cursor(),
            scanner.wf() ==> r.wf(),
    {
        Parser { scanner }
    }

    /// Reads the next token, consuming it, per [`spec_scan`].
    fn get_token(&mut self) -> (r: Result<Token, ScanError>)
        requires
            old(self).wf(),
        ensures
            final(self).wf(),
            final(self).text() == old(self).text(),
            match spec_scan(old(self).text(), old(self).cursor()) {
                Ok(tp) => r is Ok && r->Ok_0@ == tp.0 && final(self).cursor() == tp.1,
                Err(e) => r is Err && r->Err_0 == e,
            },
    {
        self.scanner.scan()
    }

    /// Reads the next token without consuming it.
    fn peek_token(&mut self) -> (r: Result<Token, ScanError>)
        requires
            old(self).wf(),
        ensures
            final(self).wf(),
            final(self).text() == old(self).text(),
            final(self).cursor() == old(self).cursor(),
            match spec_scan(old(self).text(), old(self).cursor()) {
                Ok(tp) => r is Ok && r->Ok_0@ == tp.0,
                Err(e) => r is Err && r->Err_0 == e,
            },
    {
        let save = self.scanner.position();
        let r = self.scanner.scan();
        self.scanner.set_position(save);
        r
    }

    /// Parses one s-expression, per [`spec_parse_sexp`]; on success the
    /// cursor stands just past it.
    pub fn parse_sexp(&mut self) -> (r: Result<SExp, Error>)
        requires
            old(self).wf(),
        ensures
            final(self).wf(),
            final(self).text() == old(self).text(),
            match spec_parse_sexp(old(self).text(), old(self).cursor()) {
                Ok(tp) => r is Ok && r->Ok_0@ == tp.0 && final(self).cursor() == tp.1
                    && old(self).cursor() < tp.1 <= old(self).text().len(),
                Err(e) => r is Err && r->Err_0 == e,
            },
        decreases self.text().len() - self.cursor(), 0int,
    {
        let ghost text = self.text();
        let ghost pos = self.cursor();
        proof {
            if spec_scan(text, pos) is Ok {
                lemma_scan_progress(text, pos);
            }
        }
        let tok = match self.get_token() {
            Ok(t) => t,
            Err(e) => {
                return Err(Error::Scan(e));
            },
        };
        match tok {
            Token::Identifier(name) => Ok(SExp::Identifier(name)),
            Token::Integer(int_tok) => Ok(SExp::Integer(int_tok)),
            Token::LParen(open) => self.parse_list_rest(open),
            Token::EndOfFile => Err(Error::UnexpectedEnd),
            other => {
                let sp = other.span();
                Err(Error::UnexpectedToken { offset: sp.start })
            },
        }
    }

    /// Parses the remainder of a list after its opening parenthesis, per
    /// [`spec_parse_list`].
    fn parse_list_rest(&mut self, open: LParen) -> (r: Result<SExp, Error>)
        requires
            old(self).wf(),
        ensures
            final(self).wf(),
            final(self).text() == old(self).text(),
            match spec_parse_list(
                old(self).text(),
                old(self).cursor(),
                open.span,
                Seq::empty(),
                None,
            ) {
                Ok(tp) => r is Ok && r->Ok_0@ == tp.0 && final(self).cursor() == tp.1
                    && old(self).cursor() <= tp.1 <= old(self).text().len(),
                Err(e) => r is Err && r->Err_0 == e,
            },
        decreases self.text().len() - self.cursor(), 1int,
    {
        let ghost text = self.text();
        let ghost pos0 = self.cursor();
        let mut elements: Vec<SExp> = Vec::new();
        let mut tail: Option<Box<Tail>> = None;
        proof {
            assert(crate::cst::sexp_views(elements@) =~= Seq::<SExpV>::empty());
        }
        loop
            invariant
                self.wf(),
                self.text() == text,
                pos0 <= self.cursor() <= text.len(),
                spec_parse_list(text, self.cursor(), open.span, crate::cst::sexp_views(elements@),
                    tail_view(tail)) == spec_parse_list(text, pos0, open.span, Seq::empty(), None),
            decreases text.len() - self.cursor(),
        {
            let ghost pos = self.cursor();
            proof {
                if spec_scan(text, pos) is Ok {
                    lemma_scan_progress(text, pos);
                }
            }
            let tok = match self.peek_token() {
                Ok(t) => t,
                Err(e) => {
                    return Err(Error::Scan(e));
                },
            };
            match tok {
                Token::RParen(rp) => {
                    let consumed = self.get_token();
                    proof {
                        assert(consumed is Ok);
                    }
                    let out = SExp::List(
                        List {
                            open_delim: Token::LParen(open),
                            elements,
                            tail,
                            close_delim: Token::RParen(rp),
                        },
                    );
                    proof {
                        assert(out@ is List);
                    }
                    return Ok(out);
                },
                Token::Dot(d) => {
                    if tail.is_some() {
                        return Err(Error::UnexpectedToken { offset: d.span.start });
                    }
                    let consumed = self.get_token();
                    proof {
                        assert(consumed is Ok);
                        if spec_parse_sexp(text, self.cursor()) is Ok {
                        }
                    }
                    let t = match self.parse_sexp() {
                        Ok(t) => t,
                        Err(e) => {
                            return Err(e);
                        },
                    };
                    tail = Some(Box::new(Tail { dot: d, expr: t }));
                },
                Token::EndOfFile => {
                    return Err(Error::UnexpectedEnd);
                },
                Token::LBracket(b) => {
                    return Err(Error::UnexpectedToken { offset: b.span.start });
                },
                Token::RBracket(b) => {
                    return Err(Error::UnexpectedToken { offset: b.span.start });
                },
                _ => {
                    let ghost pre_elements = crate::cst::sexp_views(elements@);
                    let el = match self.parse_sexp() {
                        Ok(t) => t,
                        Err(e) => {
                            return Err(e);
                        },
                    };
                    let ghost elv = el@;
                    elements.push(el);
                    proof {
                        assert(crate::cst::sexp_views(elements@) =~= pre_elements.push(elv));
                    }
                },
            }
        }
    }

    /// Parses every top-level element to the end of the input, per
    /// [`spec_parse_file`].
    pub fn parse_file(&mut self) -> (r: Result<SFile, Error>)
        requires
            old(self).wf(),
        ensures
            final(self).wf(),
            final(self).text() == old(self).text(),
            match spec_parse_file(old(self).text(), old(self).cursor(), Seq::empty()) {
                Ok(tp) => r is Ok && crate::cst::sexp_views(r->Ok_0.elements@) == tp.0
                    && r->Ok_0.end_offset as int == tp.1,
                Err(e) => r is Err && r->Err_0 == e,
            },
    {
        let ghost text = self.text();
        let ghost pos0 = self.cursor();
        let mut elements: Vec<SExp> = Vec::new();
        proof {
            assert(crate::cst::sexp_views(elements@) =~= Seq::<SExpV>::empty());
        }
        loop
            invariant
                self.wf(),
                self.text() == text,
                0 <= self.cursor() <= text.len(),
                spec_parse_file(text, self.cursor(), crate::cst::sexp_views(elements@))
                    == spec_parse_file(text, pos0, Seq::empty()),
            decreases text.len() - self.cursor(),
        {
            let ghost pos = self.cursor();
            proof {
                if spec_scan(text, pos) is Ok {
                    lemma_scan_progress(text, pos);
                }
            }
            let tok = match self.peek_token() {
                Ok(t) => t,
                Err(e) => {
                    return Err(Error::Scan(e));
                },
            };
            if matches!(tok, Token::EndOfFile) {
                let end_offset = self.scanner.position();
                return Ok(SFile { elements, end_offset });
            }
            let el = match self.parse_sexp() {
                Ok(t) => t,
                Err(e) => {
                    return Err(e);
                },
            };
            let ghost pre_elements = crate::cst::sexp_views(elements@);
            let ghost elv = el@;
            elements.push(el);
            proof {
                assert(crate::cst::sexp_views(elements@) =~= pre_elements.push(elv));
            }
        }
    }
}

} // verus!
