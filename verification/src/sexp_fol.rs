//! Conversions between the s-expression surface syntax and the expression
//! algebra: loading expressions and theorems through the registry's interner,
//! and printing expressions back to s-expressions.

use vstd::prelude::*;

use crate::ast::{Expr, ExprV, Name, PredBody, PropOpExpr, RefExpr, Theorem};
use crate::cst::{Identifier, ParseError, SExp, SExpV, Span, Expected};
use crate::interner::{spec_intern, strings_distinct, lemma_intern_present};
use crate::registry::{AstMeta, OpDescV};

verus! {

broadcast use vstd::seq::group_seq_axioms, vstd::std_specs::vec::group_vec_axioms;

/// The surface keyword of the universal quantifier.
pub const FORALL_NAME: &'static str = "forall";

/// The surface keyword of the existential quantifier.
pub const EXISTS_NAME: &'static str = "exists";

/// A fault while reading an expression or theorem from an s-expression.
#[derive(Debug, PartialEq, Eq)]
pub enum Error {
    /// The head of a list is not a registered operator symbol.
    UnexpectedPropOpKeyword,
    /// A list too short to be any expression form.
    InvalidSExp,
    /// A form the loader does not support: an integer in expression position.
    Unimplemented,
    /// No room is left in the name interner.
    InternerFull,
    /// A shape fault from the s-expression accessors.
    Convert(ParseError),
}

/// The model of loading an expression: the tree and the interner store
/// afterwards, or the fault. Identifiers become references; a list whose head
/// is `forall` or `exists` becomes a quantified body; any other list head
/// must be a registered operator symbol, applied to as many following
/// elements as its arity asks.
pub open spec fn spec_expr_from_sexp(
    s: SExpV,
    strs: Seq<Seq<char>>,
    syms: Map<Name, OpDescV>,
) -> Result<(ExprV, Seq<Seq<char>>), Error>
    decreases s, 2int, 0int,
    via spec_expr_from_sexp_decreases
{
    match s {
        SExpV::Integer { .. } => Err(Error::Unimplemented),
        SExpV::Identifier { text, .. } => {
            if strs.len() >= u32::MAX as nat {
                Err(Error::InternerFull)
            } else {
                Ok(
                    (
                        ExprV::Ref { name: spec_intern(strs, text).0 as Name },
                        spec_intern(strs, text).1,
                    ),
                )
            }
        },
        SExpV::List { elements, .. } => {
            if elements.len() <= 1 {
                Err(Error::InvalidSExp)
            } else {
                match elements[0] {
                    SExpV::Identifier { text: kw, .. } => {
                        if kw == FORALL_NAME@ {
                            match spec_pred_from_sexp(elements, strs, syms) {
                                Ok(((name, body), strs2)) => Ok(
                                    (ExprV::Forall { name, body: Box::new(body) }, strs2),
                                ),
                                Err(e) => Err(e),
                            }
                        } else if kw == EXISTS_NAME@ {
                            match spec_pred_from_sexp(elements, strs, syms) {
                                Ok(((name, body), strs2)) => Ok(
                                    (ExprV::Exists { name, body: Box::new(body) }, strs2),
                                ),
                                Err(e) => Err(e),
                            }
                        } else {
                            if strs.len() >= u32::MAX as nat {
                                Err(Error::InternerFull)
                            } else {
                                let n = spec_intern(strs, kw).0 as Name;
                                let strs1 = spec_intern(strs, kw).1;
                                if !syms.contains_key(n) {
                                    Err(Error::UnexpectedPropOpKeyword)
                                } else {
                                    let desc = syms[n];
                                    match spec_args_from_sexp(
                                        elements,
                                        0,
                                        desc.arity as int,
                                        strs1,
                                        syms,
                                    ) {
                                        Ok((args, strs2)) => Ok(
                                            (ExprV::Op { op: desc.id, args }, strs2),
                                        ),
                                        Err(e) => Err(e),
                                    }
                                }
                            }
                        }
                    },
                    _ => Err(Error::Convert(ParseError::Type(Expected::Integer))),
                }
            }
        },
    }
}

#[via_fn]
proof fn spec_expr_from_sexp_decreases(s: SExpV, strs: Seq<Seq<char>>, syms: Map<Name, OpDescV>) {
    match s {
        SExpV::List { elements, .. } => {
            assert(decreases_to!(s => elements));
        },
        _ => {},
    }
}

/// The model of loading a quantifier body `(forall NAME BODY)`: the body is
/// read first, then the bound name is interned, as the loader does it.
pub open spec fn spec_pred_from_sexp(
    elements: Seq<SExpV>,
    strs: Seq<Seq<char>>,
    syms: Map<Name, OpDescV>,
) -> Result<((Name, ExprV), Seq<Seq<char>>), Error>
    decreases elements, 1int, 0int,
{
    if elements.len() < 2 || !(elements[1] is Identifier) {
        if elements.len() < 2 {
            Err(Error::Convert(ParseError::Index(1)))
        } else {
            Err(Error::Convert(ParseError::Type(Expected::Integer)))
        }
    } else if elements.len() < 3 {
        Err(Error::Convert(ParseError::Index(2)))
    } else {
        let bound = elements[1]->Identifier_text;
        match spec_expr_from_sexp(elements[2], strs, syms) {
            Err(e) => Err(e),
            Ok((body, strs1)) => {
                if strs1.len() >= u32::MAX as nat {
                    Err(Error::InternerFull)
                } else {
                    Ok(((spec_intern(strs1, bound).0 as Name, body), spec_intern(strs1, bound).1))
                }
            },
        }
    }
}

/// The model of loading the `count` operator arguments that follow the head,
/// from argument position `i` on, threading the interner store left to right.
pub open spec fn spec_args_from_sexp(
    elements: Seq<SExpV>,
    i: int,
    count: int,
    strs: Seq<Seq<char>>,
    syms: Map<Name, OpDescV>,
) -> Result<(Seq<ExprV>, Seq<Seq<char>>), Error>
    decreases elements, 1int, count - i,
{
    if i < 0 || i >= count {
        Ok((Seq::empty(), strs))
    } else if i + 1 >= elements.len() {
        Err(Error::Convert(ParseError::Index((i + 1) as usize)))
    } else {
        match spec_expr_from_sexp(elements[i + 1], strs, syms) {
            Err(e) => Err(e),
            Ok((arg, strs1)) => {
                match spec_args_from_sexp(elements, i + 1, count, strs1, syms) {
                    Err(e) => Err(e),
                    Ok((rest, strs2)) => Ok((seq![arg] + rest, strs2)),
                }
            },
        }
    }
}

impl RefExpr {
    /// Loads a reference from a bare identifier.
    pub fn from_sexp(sexp: &SExp, meta: &mut AstMeta) -> (r: Result<RefExpr, Error>)
        ensures
            final(meta).ids() == old(meta).ids(),
            final(meta).syms() == old(meta).syms(),
            sexp@ is Identifier && old(meta).can_intern() ==> r is Ok && r->Ok_0.name as int
                == spec_intern(old(meta).strs(), sexp@->Identifier_text).0 && final(meta).strs()
                == spec_intern(old(meta).strs(), sexp@->Identifier_text).1,
            !(sexp@ is Identifier) ==> r is Err && r->Err_0 == Error::Convert(
                ParseError::Type(Expected::Integer),
            ) && final(meta).strs() == old(meta).strs(),
            sexp@ is Identifier && !old(meta).can_intern() ==> r is Err && r->Err_0
                == Error::InternerFull && final(meta).strs() == old(meta).strs(),
    {
        let ident = match sexp.as_identifier() {
            Ok(i) => i,
            Err(e) => {
                return Err(Error::Convert(e));
            },
        };
        match meta.try_get_or_intern(ident.text.as_str()) {
            Some(name) => Ok(RefExpr { name }),
            None => Err(Error::InternerFull),
        }
    }
}

impl Expr {
    /// Loads an expression, per [`spec_expr_from_sexp`], interning the names
    /// it meets.
    pub fn from_sexp(sexp: &SExp, meta: &mut AstMeta) -> (r: Result<Expr, Error>)
        ensures
            final(meta).ids() == old(meta).ids(),
            final(meta).syms() == old(meta).syms(),
            match spec_expr_from_sexp(sexp@, old(meta).strs(), old(meta).syms()) {
                Ok(p) => r is Ok && r->Ok_0@ == p.0 && final(meta).strs() == p.1,
                Err(e) => r is Err && r->Err_0 == e,
            },
        decreases *sexp, 2int, 0int,
    {
        match sexp {
            SExp::Integer(..) => Err(Error::Unimplemented),
            SExp::Identifier(ident) => {
                match meta.try_get_or_intern(ident.text.as_str()) {
                    Some(name) => Ok(Expr::Ref(RefExpr { name })),
                    None => Err(Error::InternerFull),
                }
            },
            SExp::List(l) => {
                let ghost elementsv = crate::cst::sexp_views(l.elements@);
                if l.elements.len() <= 1 {
                    return Err(Error::InvalidSExp);
                }
                let head = &l.elements[0];
                proof {
                    assert(elementsv[0] == crate::cst::sexp_view(l.elements@[0]));
                }
                proof {
                    assert(decreases_to!(*sexp => l.elements));
                    assert(decreases_to!(l.elements => l.elements@));
                }
                match head {
                    SExp::Identifier(kw) => {
                        if crate::cst::str_eq(kw.text.as_str(), FORALL_NAME) {
                            match pred_body_from_list(l, meta) {
                                Ok(pred) => Ok(Expr::Forall(pred)),
                                Err(e) => Err(e),
                            }
                        } else if crate::cst::str_eq(kw.text.as_str(), EXISTS_NAME) {
                            match pred_body_from_list(l, meta) {
                                Ok(pred) => Ok(Expr::Exists(pred)),
                                Err(e) => Err(e),
                            }
                        } else {
                            match PropOpExpr::from_sexp_inner(l, kw, meta) {
                                Ok(op) => Ok(Expr::PropOp(op)),
                                Err(e) => Err(e),
                            }
                        }
                    },
                    _ => Err(Error::Convert(ParseError::Type(Expected::Integer))),
                }
            },
        }
    }
}

/// Loads a quantifier's bound name and body from `(KEYWORD NAME BODY)`, per
/// [`spec_pred_from_sexp`].
fn pred_body_from_list(l: &crate::cst::List, meta: &mut AstMeta) -> (r: Result<PredBody, Error>)
    requires
        crate::cst::sexp_views(l.elements@).len() > 1,
    ensures
        final(meta).ids() == old(meta).ids(),
        final(meta).syms() == old(meta).syms(),
        match spec_pred_from_sexp(
            crate::cst::sexp_views(l.elements@),
            old(meta).strs(),
            old(meta).syms(),
        ) {
            Ok(p) => r is Ok && r->Ok_0.name == p.0.0 && r->Ok_0.expr@ == p.0.1 && final(meta).strs() == p.1,
            Err(e) => r is Err && r->Err_0 == e,
        },
    decreases l.elements@, 1int, 0int,
{
    let ghost elementsv = crate::cst::sexp_views(l.elements@);
    let name_ident = match l.get(1) {
        Ok(s) => match s.as_identifier() {
            Ok(i) => i,
            Err(e) => {
                return Err(Error::Convert(e));
            },
        },
        Err(e) => {
            return Err(Error::Convert(e));
        },
    };
    let bound_text = name_ident.text.clone();
    let body_sexp = match l.get(2) {
        Ok(s) => s,
        Err(e) => {
            return Err(Error::Convert(e));
        },
    };
    proof {
        assert(elementsv[1] == crate::cst::sexp_view(l.elements@[1]));
        assert(elementsv[2] == crate::cst::sexp_view(l.elements@[2]));
        crate::measure::lemma_sexp_seq_decrease(l.elements@, 2);
    }
    let body = match Expr::from_sexp(body_sexp, meta) {
        Ok(b) => b,
        Err(e) => {
            return Err(e);
        },
    };
    match meta.try_get_or_intern(bound_text.as_str()) {
        Some(name) => Ok(PredBody { name, expr: Box::new(body) }),
        None => Err(Error::InternerFull),
    }
}

impl PropOpExpr {
    /// Loads an operator application whose head identifier is `kw`, per the
    /// operator branch of [`spec_expr_from_sexp`].
    fn from_sexp_inner(l: &crate::cst::List, kw: &Identifier, meta: &mut AstMeta) -> (r: Result<
        PropOpExpr,
        Error,
    >)
        requires
            crate::cst::sexp_views(l.elements@).len() > 1,
            crate::cst::sexp_views(l.elements@)[0] == (SExpV::Identifier {
                text: kw.text@,
                span: kw.span,
            }),
        ensures
            final(meta).ids() == old(meta).ids(),
            final(meta).syms() == old(meta).syms(),
            ({
                let strs = old(meta).strs();
                let syms = old(meta).syms();
                if strs.len() >= u32::MAX as nat {
                    r is Err && r->Err_0 == Error::InternerFull
                } else {
                    let n = spec_intern(strs, kw.text@).0 as Name;
                    let strs1 = spec_intern(strs, kw.text@).1;
                    if !syms.contains_key(n) {
                        r is Err && r->Err_0 == Error::UnexpectedPropOpKeyword
                    } else {
                        match spec_args_from_sexp(
                            crate::cst::sexp_views(l.elements@),
                            0,
                            syms[n].arity as int,
                            strs1,
                            syms,
                        ) {
                            Ok(p) => r is Ok && r->Ok_0.op_id == syms[n].id
                                && crate::ast::views_of(r->Ok_0.args@) == p.0 && final(meta).strs() == p.1,
                            Err(e) => r is Err && r->Err_0 == e,
                        }
                    }
                }
            }),
        decreases l.elements@, 1int, 1int,
    {
        let ghost elementsv = crate::cst::sexp_views(l.elements@);
        let name = match meta.try_get_or_intern(kw.text.as_str()) {
            Some(n) => n,
            None => {
                return Err(Error::InternerFull);
            },
        };
        let arity: u16;
        let op_id: u32;
        match meta.get_op_desc_with_symbol(name) {
            Some(desc) => {
                arity = desc.arity;
                op_id = desc.id;
            },
            None => {
                return Err(Error::UnexpectedPropOpKeyword);
            },
        }
        let ghost strs1 = meta.strs();
        let ghost syms = meta.syms();
        let mut args: Vec<Expr> = Vec::new();
        let mut i: u16 = 0;
        while i < arity
            invariant
                i <= arity,
                elementsv == crate::cst::sexp_views(l.elements@),
                meta.ids() == old(meta).ids(),
                meta.syms() == old(meta).syms(),
                syms == meta.syms(),
                match spec_args_from_sexp(elementsv, i as int, arity as int, meta.strs(), syms) {
                    Ok(p) => spec_args_from_sexp(elementsv, 0, arity as int, strs1, syms) is Ok
                        && crate::ast::views_of(args@) + p.0 == spec_args_from_sexp(
                        elementsv,
                        0,
                        arity as int,
                        strs1,
                        syms,
                    )->Ok_0.0 && p.1 == spec_args_from_sexp(
                        elementsv,
                        0,
                        arity as int,
                        strs1,
                        syms,
                    )->Ok_0.1,
                    Err(e) => spec_args_from_sexp(elementsv, 0, arity as int, strs1, syms)
                        == Err::<(Seq<ExprV>, Seq<Seq<char>>), Error>(e),
                },
            decreases arity - i,
        {
            let idx = (i as usize) + 1;
            let arg_sexp = match l.get(idx) {
                Ok(s) => s,
                Err(e) => {
                    return Err(Error::Convert(e));
                },
            };
            proof {
                assert(elementsv[idx as int] == crate::cst::sexp_view(l.elements@[idx as int]));
                crate::measure::lemma_sexp_seq_decrease(l.elements@, idx as int);
            }
            let arg = match Expr::from_sexp(arg_sexp, meta) {
                Ok(a) => a,
                Err(e) => {
                    return Err(e);
                },
            };
            let ghost pre = crate::ast::views_of(args@);
            args.push(arg);
            proof {
                assert(crate::ast::views_of(args@) =~= pre.push(arg@));
                assert(crate::ast::views_of(args@) + spec_args_from_sexp(
                    elementsv,
                    i + 1int,
                    arity as int,
                    meta.strs(),
                    syms,
                )->Ok_0.0 =~= pre + (seq![arg@] + spec_args_from_sexp(
                    elementsv,
                    i + 1int,
                    arity as int,
                    meta.strs(),
                    syms,
                )->Ok_0.0));
            }
            i = i + 1;
        }
        let out = PropOpExpr { op_id, args };
        proof {
            assert(spec_args_from_sexp(elementsv, arity as int, arity as int, meta.strs(), syms)
                == Ok::<(Seq<ExprV>, Seq<Seq<char>>), Error>((Seq::<ExprV>::empty(), meta.strs())));
            assert(crate::ast::views_of(args@) + Seq::<ExprV>::empty() =~= crate::ast::views_of(
                args@,
            ));
        }
        Ok(out)
    }
}

/// The model of loading a theorem `(defthm NAME BODY)`: the body is read
/// first, then the theorem's name is interned.
pub open spec fn spec_theorem_from_sexp(
    s: SExpV,
    strs: Seq<Seq<char>>,
    syms: Map<Name, OpDescV>,
) -> Result<((Name, ExprV), Seq<Seq<char>>), Error> {
    if !(s is List) {
        Err(Error::Convert(ParseError::Type(Expected::List)))
    } else {
        let elements = s->List_elements;
        if elements.len() < 1 {
            Err(Error::Convert(ParseError::Index(0)))
        } else if !(elements[0] is Identifier) {
            Err(Error::Convert(ParseError::Type(Expected::Integer)))
        } else if elements[0]->Identifier_text != "defthm"@ {
            Err(Error::Convert(ParseError::Keyword(arbitrary(), arbitrary())))
        } else if elements.len() < 2 {
            Err(Error::Convert(ParseError::Index(1)))
        } else if !(elements[1] is Identifier) {
            Err(Error::Convert(ParseError::Type(Expected::Integer)))
        } else if elements.len() < 3 {
            Err(Error::Convert(ParseError::Index(2)))
        } else {
            match spec_expr_from_sexp(elements[2], strs, syms) {
                Err(e) => Err(e),
                Ok((body, strs1)) => {
                    if strs1.len() >= u32::MAX as nat {
                        Err(Error::InternerFull)
                    } else {
                        let nm = elements[1]->Identifier_text;
                        Ok(((spec_intern(strs1, nm).0 as Name, body), spec_intern(strs1, nm).1))
                    }
                },
            }
        }
    }
}

impl Theorem {
    /// Loads a theorem, per [`spec_theorem_from_sexp`]. The keyword fault
    /// carries the found and expected texts.
    pub fn from_sexp(sexp: &SExp, meta: &mut AstMeta) -> (r: Result<Theorem, Error>)
        ensures
            final(meta).ids() == old(meta).ids(),
            final(meta).syms() == old(meta).syms(),
            match spec_theorem_from_sexp(sexp@, old(meta).strs(), old(meta).syms()) {
                Ok(p) => r is Ok && r->Ok_0.name == p.0.0 && r->Ok_0.body@ == p.0.1 && final(meta).strs() == p.1,
                Err(e) => r is Err && (r->Err_0 == e || (e is Convert && e->Convert_0 is Keyword
                    && r->Err_0 is Convert && r->Err_0->Convert_0 is Keyword)),
            },
    {
        let l = match sexp.as_list() {
            Ok(l) => l,
            Err(e) => {
                return Err(Error::Convert(e));
            },
        };
        let ghost elementsv = crate::cst::sexp_views(l.elements@);
        let kw_sexp = match l.get(0) {
            Ok(s) => s,
            Err(e) => {
                return Err(Error::Convert(e));
            },
        };
        proof {
            assert(elementsv[0] == crate::cst::sexp_view(l.elements@[0]));
        }
        match kw_sexp.as_keyword("defthm") {
            Ok(_) => {},
            Err(e) => {
                return Err(Error::Convert(e));
            },
        }
        let name_ident = match l.get(1) {
            Ok(s) => match s.as_identifier() {
                Ok(i) => i,
                Err(e) => {
                    return Err(Error::Convert(e));
                },
            },
            Err(e) => {
                return Err(Error::Convert(e));
            },
        };
        proof {
            assert(elementsv[1] == crate::cst::sexp_view(l.elements@[1]));
        }
        let name_text = name_ident.text.clone();
        let body_sexp = match l.get(2) {
            Ok(s) => s,
            Err(e) => {
                return Err(Error::Convert(e));
            },
        };
        proof {
            assert(elementsv[2] == crate::cst::sexp_view(l.elements@[2]));
        }
        let body = match Expr::from_sexp(body_sexp, meta) {
            Ok(b) => b,
            Err(e) => {
                return Err(e);
            },
        };
        match meta.try_get_or_intern(name_text.as_str()) {
            Some(name) => Ok(Theorem { name, body }),
            None => Err(Error::InternerFull),
        }
    }
}

/// Whether an expression can be printed against the given interner store and
/// id-keyed descriptor map: every reference resolves and every operator is
/// registered.
pub open spec fn spec_expr_printable(
    e: ExprV,
    strs: Seq<Seq<char>>,
    ids: Map<crate::ast::OpId, OpDescV>,
) -> bool
    decreases e, 1int, 0int,
    via spec_expr_printable_decreases
{
    match e {
        ExprV::Ref { name } => (name as int) < strs.len(),
        ExprV::Op { op, args } => ids.contains_key(op) && spec_args_printable(args, 0, strs, ids),
        ExprV::Forall { name, body } => (name as int) < strs.len() && spec_expr_printable(
            *body,
            strs,
            ids,
        ),
        ExprV::Exists { name, body } => (name as int) < strs.len() && spec_expr_printable(
            *body,
            strs,
            ids,
        ),
    }
}

#[via_fn]
proof fn spec_expr_printable_decreases(
    e: ExprV,
    strs: Seq<Seq<char>>,
    ids: Map<crate::ast::OpId, OpDescV>,
) {
    match e {
        ExprV::Op { op, args } => {
            assert(decreases_to!(e => args));
        },
        _ => {},
    }
}

/// Whether the arguments from position `i` on are all printable.
pub open spec fn spec_args_printable(
    args: Seq<ExprV>,
    i: int,
    strs: Seq<Seq<char>>,
    ids: Map<crate::ast::OpId, OpDescV>,
) -> bool
    decreases args, 0int, args.len() - i,
{
    if i < 0 || i >= args.len() {
        true
    } else {
        spec_expr_printable(args[i], strs, ids) && spec_args_printable(args, i + 1, strs, ids)
    }
}

/// A synthesised span for printed nodes, which carry no source position.
pub open spec fn printed_span() -> Span {
    Span { start: 0, end: 0 }
}

/// A printed identifier node.
pub open spec fn printed_ident(text: Seq<char>) -> SExpV {
    SExpV::Identifier { text, span: printed_span() }
}

/// The model of printing an expression: a reference prints as its resolved
/// name; an application as a list headed by the operator's symbol; a
/// quantifier as a three-element list headed by its keyword.
pub open spec fn spec_expr_to_sexp(
    e: ExprV,
    strs: Seq<Seq<char>>,
    ids: Map<crate::ast::OpId, OpDescV>,
) -> SExpV
    decreases e, 1int, 0int,
    via spec_expr_to_sexp_decreases
{
    match e {
        ExprV::Ref { name } => printed_ident(strs[name as int]),
        ExprV::Op { op, args } => SExpV::List {
            open: printed_span(),
            elements: seq![printed_ident(ids[op].symbol)] + spec_args_to_sexp(args, 0, strs, ids),
            tail: None,
            close: printed_span(),
        },
        ExprV::Forall { name, body } => SExpV::List {
            open: printed_span(),
            elements: seq![
                printed_ident(FORALL_NAME@),
                printed_ident(strs[name as int]),
                spec_expr_to_sexp(*body, strs, ids),
            ],
            tail: None,
            close: printed_span(),
        },
        ExprV::Exists { name, body } => SExpV::List {
            open: printed_span(),
            elements: seq![
                printed_ident(EXISTS_NAME@),
                printed_ident(strs[name as int]),
                spec_expr_to_sexp(*body, strs, ids),
            ],
            tail: None,
            close: printed_span(),
        },
    }
}

#[via_fn]
proof fn spec_expr_to_sexp_decreases(
    e: ExprV,
    strs: Seq<Seq<char>>,
    ids: Map<crate::ast::OpId, OpDescV>,
) {
    match e {
        ExprV::Op { op, args } => {
            assert(decreases_to!(e => args));
        },
        _ => {},
    }
}

/// The printed arguments from position `i` on.
pub open spec fn spec_args_to_sexp(
    args: Seq<ExprV>,
    i: int,
    strs: Seq<Seq<char>>,
    ids: Map<crate::ast::OpId, OpDescV>,
) -> Seq<SExpV>
    decreases args, 0int, args.len() - i,
{
    if i < 0 || i >= args.len() {
        Seq::empty()
    } else {
        seq![spec_expr_to_sexp(args[i], strs, ids)] + spec_args_to_sexp(args, i + 1, strs, ids)
    }
}

/// Builds a printed identifier node.
fn make_ident(text: String) -> (r: SExp)
    ensures
        r@ == printed_ident(text@),
{
    SExp::Identifier(Identifier { text, span: Span { start: 0, end: 0 } })
}

/// An owned copy of a string slice.
fn owned_str(s: &str) -> (r: String)
    ensures
        r@ == s@,
{
    s.to_owned()
}

impl Expr {
    /// Prints an expression back to an s-expression, per
    /// [`spec_expr_to_sexp`]. Every name must resolve and every operator must
    /// be registered.
    pub fn to_sexp(&self, meta: &AstMeta) -> (r: SExp)
        requires
            spec_expr_printable(self@, meta.strs(), meta.ids()),
            meta.strs().len() <= u32::MAX as nat,
        ensures
            r@ == spec_expr_to_sexp(self@, meta.strs(), meta.ids()),
        decreases *self,
    {
        match self {
            Expr::Ref(x) => {
                let text = match meta.resolve_name(x.name) {
                    Some(t) => t,
                    None => {
                        proof {
                            assert(false);
                        }
                        unreached()
                    },
                };
                make_ident(text)
            },
            Expr::PropOp(p) => {
                let ghost argsv = crate::ast::views_of(p.args@);
                let desc = match meta.get_op_desc_with_id(p.op_id) {
                    Some(d) => d,
                    None => {
                        proof {
                            assert(false);
                        }
                        unreached()
                    },
                };
                let mut elements: Vec<SExp> = Vec::new();
                elements.push(make_ident(desc.symbol.clone()));
                let mut i: usize = 0;
                proof {
                    assert(crate::cst::sexp_views(elements@) =~= seq![
                        printed_ident(meta.ids()[p.op_id].symbol),
                    ]);
                }
                while i < p.args.len()
                    invariant
                        i <= p.args.len(),
                        argsv == crate::ast::views_of(p.args@),
                        spec_expr_printable(self@, meta.strs(), meta.ids()),
                        meta.strs().len() <= u32::MAX as nat,
                        self@ is Op,
                        self@->Op_args == argsv,
                        crate::cst::sexp_views(elements@) + spec_args_to_sexp(argsv, i as int,
                            meta.strs(), meta.ids()) =~= seq![
                            printed_ident(meta.ids()[p.op_id].symbol),
                        ] + spec_args_to_sexp(argsv, 0, meta.strs(), meta.ids()),
                    decreases p.args.len() - i,
                {
                    proof {
                        crate::measure::lemma_args_decrease(*self, i as int);
                        lemma_args_printable(argsv, i as int, meta.strs(), meta.ids());
                        assert(argsv[i as int] == crate::ast::view_of(p.args@[i as int]));
                    }
                    let child = p.args[i].to_sexp(meta);
                    let ghost pre = crate::cst::sexp_views(elements@);
                    elements.push(child);
                    proof {
                        assert(crate::cst::sexp_views(elements@) =~= pre.push(
                            spec_expr_to_sexp(argsv[i as int], meta.strs(), meta.ids()),
                        ));
                    }
                    i = i + 1;
                }
                let out = SExp::List(
                    crate::cst::List {
                        open_delim: crate::cst::Token::LParen(
                            crate::cst::LParen { span: Span { start: 0, end: 0 } },
                        ),
                        elements,
                        tail: None,
                        close_delim: crate::cst::Token::RParen(
                            crate::cst::RParen { span: Span { start: 0, end: 0 } },
                        ),
                    },
                );
                proof {
                    assert(out@ is List);
                    assert(spec_args_to_sexp(argsv, p.args@.len() as int, meta.strs(), meta.ids())
                        =~= Seq::<SExpV>::empty());
                    assert(out@ =~= spec_expr_to_sexp(self@, meta.strs(), meta.ids()));
                }
                out
            },
            Expr::Forall(q) => {
                let text = match meta.resolve_name(q.name) {
                    Some(t) => t,
                    None => {
                        proof {
                            assert(false);
                        }
                        unreached()
                    },
                };
                let body = q.expr.to_sexp(meta);
                let ghost bodyv = body@;
                let mut elements: Vec<SExp> = Vec::new();
                elements.push(make_ident(owned_str(FORALL_NAME)));
                elements.push(make_ident(text));
                elements.push(body);
                proof {
                    assert(crate::cst::sexp_views(elements@).len() == 3);
                    assert(crate::cst::sexp_views(elements@)[0] == printed_ident(FORALL_NAME@));
                    assert(crate::cst::sexp_views(elements@)[1] == printed_ident(
                        meta.strs()[q.name as int],
                    ));
                    assert(crate::cst::sexp_views(elements@)[2] == bodyv);
                }
                let out = SExp::List(
                    crate::cst::List {
                        open_delim: crate::cst::Token::LParen(
                            crate::cst::LParen { span: Span { start: 0, end: 0 } },
                        ),
                        elements,
                        tail: None,
                        close_delim: crate::cst::Token::RParen(
                            crate::cst::RParen { span: Span { start: 0, end: 0 } },
                        ),
                    },
                );
                proof {
                    assert(out@ is List);
                    assert(out@->List_elements =~= spec_expr_to_sexp(
                        self@,
                        meta.strs(),
                        meta.ids(),
                    )->List_elements);
                    assert(out@ =~= spec_expr_to_sexp(self@, meta.strs(), meta.ids()));
                }
                out
            },
            Expr::Exists(q) => {
                let text = match meta.resolve_name(q.name) {
                    Some(t) => t,
                    None => {
                        proof {
                            assert(false);
                        }
                        unreached()
                    },
                };
                let body = q.expr.to_sexp(meta);
                let ghost bodyv = body@;
                let mut elements: Vec<SExp> = Vec::new();
                elements.push(make_ident(owned_str(EXISTS_NAME)));
                elements.push(make_ident(text));
                elements.push(body);
                proof {
                    assert(crate::cst::sexp_views(elements@).len() == 3);
                    assert(crate::cst::sexp_views(elements@)[0] == printed_ident(EXISTS_NAME@));
                    assert(crate::cst::sexp_views(elements@)[1] == printed_ident(
                        meta.strs()[q.name as int],
                    ));
                    assert(crate::cst::sexp_views(elements@)[2] == bodyv);
                }
                let out = SExp::List(
                    crate::cst::List {
                        open_delim: crate::cst::Token::LParen(
                            crate::cst::LParen { span: Span { start: 0, end: 0 } },
                        ),
                        elements,
                        tail: None,
                        close_delim: crate::cst::Token::RParen(
                            crate::cst::RParen { span: Span { start: 0, end: 0 } },
                        ),
                    },
                );
                proof {
                    assert(out@ is List);
                    assert(out@->List_elements =~= spec_expr_to_sexp(
                        self@,
                        meta.strs(),
                        meta.ids(),
                    )->List_elements);
                    assert(out@ =~= spec_expr_to_sexp(self@, meta.strs(), meta.ids()));
                }
                out
            },
        }
    }
}

/// Each argument of a printable application is printable.
proof fn lemma_args_printable(
    args: Seq<ExprV>,
    i: int,
    strs: Seq<Seq<char>>,
    ids: Map<crate::ast::OpId, OpDescV>,
)
    requires
        0 <= i < args.len(),
        spec_args_printable(args, 0, strs, ids),
    ensures
        spec_expr_printable(args[i], strs, ids),
    decreases i,
{
    lemma_args_printable_from(args, 0, i, strs, ids);
}

/// Printability of a suffix reaches each of its members.
proof fn lemma_args_printable_from(
    args: Seq<ExprV>,
    j: int,
    i: int,
    strs: Seq<Seq<char>>,
    ids: Map<crate::ast::OpId, OpDescV>,
)
    requires
        0 <= j <= i < args.len(),
        spec_args_printable(args, j, strs, ids),
    ensures
        spec_expr_printable(args[i], strs, ids),
    decreases i - j,
{
    if j < i {
        lemma_args_printable_from(args, j + 1, i, strs, ids);
    }
}

/// Well-formedness of an expression against a registry: every reference's
/// name is an issued handle, and every application's operator is registered
/// with exactly the argument count it carries.
pub open spec fn wf_expr(
    e: ExprV,
    strs: Seq<Seq<char>>,
    ids: Map<crate::ast::OpId, OpDescV>,
) -> bool
    decreases e, 1int, 0int,
    via wf_expr_decreases
{
    match e {
        ExprV::Ref { name } => (name as int) < strs.len(),
        ExprV::Op { op, args } => ids.contains_key(op) && args.len() == ids[op].arity as int
            && wf_args(args, 0, strs, ids),
        ExprV::Forall { name, body } => (name as int) < strs.len() && wf_expr(*body, strs, ids),
        ExprV::Exists { name, body } => (name as int) < strs.len() && wf_expr(*body, strs, ids),
    }
}

#[via_fn]
proof fn wf_expr_decreases(e: ExprV, strs: Seq<Seq<char>>, ids: Map<crate::ast::OpId, OpDescV>) {
    match e {
        ExprV::Op { op, args } => {
            assert(decreases_to!(e => args));
        },
        _ => {},
    }
}

/// Well-formedness of the arguments from position `i` on.
pub open spec fn wf_args(
    args: Seq<ExprV>,
    i: int,
    strs: Seq<Seq<char>>,
    ids: Map<crate::ast::OpId, OpDescV>,
) -> bool
    decreases args, 0int, args.len() - i,
{
    if i < 0 || i >= args.len() {
        true
    } else {
        wf_expr(args[i], strs, ids) && wf_args(args, i + 1, strs, ids)
    }
}

/// The agreement between the two registry maps and the interner store that
/// loading a printed expression needs: every registered descriptor's symbol
/// is an interned string whose handle maps back to the same descriptor under
/// its own id, is no quantifier keyword, and takes at least one argument.
pub open spec fn registry_consistent(
    strs: Seq<Seq<char>>,
    ids: Map<crate::ast::OpId, OpDescV>,
    syms: Map<Name, OpDescV>,
) -> bool {
    forall|op: crate::ast::OpId|
        #[trigger] ids.contains_key(op) ==> {
            let s = ids[op].symbol;
            let k = crate::interner::string_index(strs, s, 0);
            &&& k < strs.len()
            &&& syms.contains_key(k as Name)
            &&& syms[k as Name] == ids[op]
            &&& ids[op].id == op
            &&& s != FORALL_NAME@
            &&& s != EXISTS_NAME@
            &&& ids[op].arity >= 1
        }
}

/// Print-load round trip at the conversion level: loading the printed form of
/// a well-formed expression, against the same registry and interner store,
/// returns the expression itself and leaves the store unchanged.
pub proof fn lemma_print_load_round_trip(
    e: ExprV,
    strs: Seq<Seq<char>>,
    ids: Map<crate::ast::OpId, OpDescV>,
    syms: Map<Name, OpDescV>,
)
    requires
        strings_distinct(strs),
        strs.len() < u32::MAX as nat,
        registry_consistent(strs, ids, syms),
        wf_expr(e, strs, ids),
    ensures
        spec_expr_from_sexp(spec_expr_to_sexp(e, strs, ids), strs, syms) == Ok::<
            (ExprV, Seq<Seq<char>>),
            Error,
        >((e, strs)),
    decreases e, 1int, 0int,
{
    proof_distinct_keywords();
    let printed = spec_expr_to_sexp(e, strs, ids);
    match e {
        ExprV::Ref { name } => {
            lemma_intern_present(strs, name as int);
        },
        ExprV::Op { op, args } => {
            assert(decreases_to!(e => args));
            let s = ids[op].symbol;
            let k = crate::interner::string_index(strs, s, 0);
            crate::interner::lemma_string_index_found_public(strs, s, 0);
            assert(strs[k] == s);
            lemma_intern_present(strs, k);
            let elements = printed->List_elements;
            assert(elements.len() == 1 + args.len()) by {
                lemma_args_to_sexp_len(args, 0, strs, ids);
            }
            assert(elements[0] == printed_ident(s));
            assert(s != FORALL_NAME@ && s != EXISTS_NAME@);
            assert(spec_intern(strs, s) == (k, strs));
            let n = k as Name;
            assert(syms.contains_key(n) && syms[n] == ids[op]);
            assert forall|j: int| 0 <= j < args.len() implies elements[j + 1]
                == spec_expr_to_sexp(#[trigger] args[j], strs, ids) by {
                lemma_args_to_sexp_index(args, 0, j, strs, ids);
            }
            lemma_args_load_round_trip(e, args, elements, 0, strs, ids, syms);
            assert(spec_args_from_sexp(elements, 0, ids[op].arity as int, strs, syms) == Ok::<
                (Seq<ExprV>, Seq<Seq<char>>),
                Error,
            >((args.skip(0), strs)));
            assert(args.skip(0) =~= args);
            assert(spec_expr_from_sexp(printed, strs, syms) == Ok::<
                (ExprV, Seq<Seq<char>>),
                Error,
            >((ExprV::Op { op: syms[n].id, args }, strs)));
        },
        ExprV::Forall { name, body } => {
            let elements = printed->List_elements;
            assert(elements.len() == 3);
            assert(elements[0] == printed_ident(FORALL_NAME@));
            assert(elements[1] == printed_ident(strs[name as int]));
            assert(elements[2] == spec_expr_to_sexp(*body, strs, ids));
            lemma_print_load_round_trip(*body, strs, ids, syms);
            lemma_intern_present(strs, name as int);
            assert(spec_pred_from_sexp(elements, strs, syms) == Ok::<
                ((Name, ExprV), Seq<Seq<char>>),
                Error,
            >(((name, *body), strs)));
        },
        ExprV::Exists { name, body } => {
            let elements = printed->List_elements;
            assert(elements.len() == 3);
            assert(elements[0] == printed_ident(EXISTS_NAME@));
            assert(elements[1] == printed_ident(strs[name as int]));
            assert(elements[2] == spec_expr_to_sexp(*body, strs, ids));
            lemma_print_load_round_trip(*body, strs, ids, syms);
            lemma_intern_present(strs, name as int);
            assert(spec_pred_from_sexp(elements, strs, syms) == Ok::<
                ((Name, ExprV), Seq<Seq<char>>),
                Error,
            >(((name, *body), strs)));
        },
    }
}


/// The two quantifier keywords are distinct strings.
proof fn proof_distinct_keywords()
    ensures
        FORALL_NAME@ != EXISTS_NAME@,
{
    reveal_strlit("forall");
    reveal_strlit("exists");
    assert(FORALL_NAME@[0] == 'f');
    assert(EXISTS_NAME@[0] == 'e');
}

/// The printed argument list is as long as the argument list.
proof fn lemma_args_to_sexp_len(
    args: Seq<ExprV>,
    i: int,
    strs: Seq<Seq<char>>,
    ids: Map<crate::ast::OpId, OpDescV>,
)
    requires
        0 <= i <= args.len(),
    ensures
        spec_args_to_sexp(args, i, strs, ids).len() == args.len() - i,
    decreases args.len() - i,
{
    if i < args.len() {
        lemma_args_to_sexp_len(args, i + 1, strs, ids);
    }
}

/// The printed argument at each position is the printing of that argument.
proof fn lemma_args_to_sexp_index(
    args: Seq<ExprV>,
    i: int,
    j: int,
    strs: Seq<Seq<char>>,
    ids: Map<crate::ast::OpId, OpDescV>,
)
    requires
        0 <= i <= j < args.len(),
    ensures
        spec_args_to_sexp(args, i, strs, ids).len() == args.len() - i,
        spec_args_to_sexp(args, i, strs, ids)[j - i] == spec_expr_to_sexp(args[j], strs, ids),
    decreases j - i,
{
    lemma_args_to_sexp_len(args, i, strs, ids);
    if i < j {
        lemma_args_to_sexp_index(args, i + 1, j, strs, ids);
    }
}

/// Loading the printed arguments back, from position `i` on, returns the
/// remaining arguments and leaves the store unchanged.
proof fn lemma_args_load_round_trip(
    e: ExprV,
    args: Seq<ExprV>,
    elements: Seq<SExpV>,
    i: int,
    strs: Seq<Seq<char>>,
    ids: Map<crate::ast::OpId, OpDescV>,
    syms: Map<Name, OpDescV>,
)
    requires
        strings_distinct(strs),
        strs.len() < u32::MAX as nat,
        registry_consistent(strs, ids, syms),
        e is Op,
        e->Op_args == args,
        wf_expr(e, strs, ids),
        0 <= i <= args.len(),
        elements.len() == 1 + args.len(),
        forall|j: int|
            0 <= j < args.len() ==> elements[j + 1] == spec_expr_to_sexp(
                #[trigger] args[j],
                strs,
                ids,
            ),
    ensures
        spec_args_from_sexp(elements, i, args.len() as int, strs, syms) == Ok::<
            (Seq<ExprV>, Seq<Seq<char>>),
            Error,
        >((args.skip(i), strs)),
    decreases args, 0int, args.len() - i,
{
    if i >= args.len() {
        assert(args.skip(i) =~= Seq::<ExprV>::empty());
    } else {
        assert(decreases_to!(args => args[i]));
        assert(wf_expr(args[i], strs, ids)) by {
            lemma_wf_args_member(args, 0, i, strs, ids);
        }
        assert(elements[i + 1] == spec_expr_to_sexp(args[i], strs, ids));
        lemma_print_load_round_trip(args[i], strs, ids, syms);
        lemma_args_load_round_trip(e, args, elements, i + 1, strs, ids, syms);
        assert(seq![args[i]] + args.skip(i + 1) =~= args.skip(i));
    }
}

/// Each member of a well-formed argument suffix is well-formed.
proof fn lemma_wf_args_member(
    args: Seq<ExprV>,
    j: int,
    i: int,
    strs: Seq<Seq<char>>,
    ids: Map<crate::ast::OpId, OpDescV>,
)
    requires
        0 <= j <= i < args.len(),
        wf_args(args, j, strs, ids),
    ensures
        wf_expr(args[i], strs, ids),
    decreases i - j,
{
    if j < i {
        lemma_wf_args_member(args, j + 1, i, strs, ids);
    }
}

} // verus!
