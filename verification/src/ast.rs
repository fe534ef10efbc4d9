//! The expression algebra: propositional operator applications over interned
//! names, plus universal and existential binders.
//!
//! Expressions are immutable value trees. Their mathematical model is
//! [`ExprV`], a spec-level tree whose argument lists are sequences; every
//! executable operation on [`Expr`] is specified against that model.

use vstd::prelude::*;

verus! {

broadcast use vstd::seq::group_seq_axioms, vstd::std_specs::vec::group_vec_axioms;

/// A compact handle for an interned identifier string.
pub type Name = u32;

/// A dense identifier for a registered propositional operator.
pub type OpId = u32;

/// A propositional variable or a quantified-bound symbol.
#[derive(Clone, Debug, PartialEq, Eq)]
pub struct RefExpr {
    pub name: Name,
}

/// Application of a registered operator to argument expressions.
#[derive(Debug, PartialEq, Eq)]
pub struct PropOpExpr {
    pub op_id: OpId,
    pub args: Vec<Expr>,
}

/// The bound name and body of a quantified expression.
#[derive(Debug, PartialEq, Eq)]
pub struct PredBody {
    pub name: Name,
    pub expr: Box<Expr>,
}

/// An expression of the algebra.
#[derive(Debug, PartialEq, Eq)]
pub enum Expr {
    Ref(RefExpr),
    PropOp(PropOpExpr),
    Forall(PredBody),
    Exists(PredBody),
}

/// A named conjecture; the body is expected to be an `equiv` or an `and` of
/// such goals.
#[derive(Debug, PartialEq, Eq)]
pub struct Theorem {
    pub name: Name,
    pub body: Expr,
}

/// The mathematical model of an expression.
#[verifier::ext_equal]
pub enum ExprV {
    Ref { name: Name },
    Op { op: OpId, args: Seq<ExprV> },
    Forall { name: Name, body: Box<ExprV> },
    Exists { name: Name, body: Box<ExprV> },
}

/// The model of an expression tree.
pub open spec fn view_of(e: Expr) -> ExprV
    decreases e,
    via view_of_decreases
{
    match e {
        Expr::Ref(r) => ExprV::Ref { name: r.name },
        Expr::PropOp(p) => ExprV::Op { op: p.op_id, args: views_of(p.args@) },
        Expr::Forall(q) => ExprV::Forall { name: q.name, body: Box::new(view_of(*q.expr)) },
        Expr::Exists(q) => ExprV::Exists { name: q.name, body: Box::new(view_of(*q.expr)) },
    }
}

#[via_fn]
proof fn view_of_decreases(e: Expr) {
    match e {
        Expr::PropOp(p) => {
            assert(decreases_to!(e => p.args));
            assert(decreases_to!(p.args => p.args@));
        },
        _ => {},
    }
}

/// The models of the elements of a vector of expressions.
pub open spec fn views_of(v: Seq<Expr>) -> Seq<ExprV>
    decreases v,
{
    Seq::new(
        v.len(),
        |i: int|
            if 0 <= i < v.len() {
                view_of(v[i])
            } else {
                ExprV::Ref { name: 0 }
            },
    )
}

impl View for Expr {
    type V = ExprV;

    open spec fn view(&self) -> ExprV {
        view_of(*self)
    }
}

impl ExprV {
    /// The postorder node count of an expression.
    pub open spec fn size(self) -> nat
        decreases self,
    {
        match self {
            ExprV::Ref { .. } => 1,
            ExprV::Op { args, .. } => 1 + size_of_seq(args),
            ExprV::Forall { body, .. } => 1 + body.size(),
            ExprV::Exists { body, .. } => 1 + body.size(),
        }
    }
}

/// The sum of the sizes of a sequence of expressions.
pub open spec fn size_of_seq(s: Seq<ExprV>) -> nat
    decreases s,
{
    if s.len() == 0 {
        0
    } else {
        size_of_seq(s.drop_last()) + s.last().size()
    }
}

/// An expression counts its own node, so its size is never zero.
pub proof fn lemma_size_pos(e: ExprV)
    ensures
        e.size() >= 1,
{
}

/// The smaller of two natural numbers.
pub open spec fn nat_min(a: nat, b: nat) -> nat {
    if a <= b {
        a
    } else {
        b
    }
}

impl Expr {
    /// Builds a reference expression from a name.
    pub fn name(name: Name) -> (r: Expr)
        ensures
            r@ == (ExprV::Ref { name }),
    {
        Expr::Ref(RefExpr { name })
    }

    /// The node count of the expression, saturating at `u32::MAX`.
    pub fn len(&self) -> (r: u32)
        ensures
            r as nat == nat_min(self@.size(), u32::MAX as nat),
        decreases *self,
    {
        match self {
            Expr::Ref(..) => 1,
            Expr::PropOp(p) => {
                let ghost vs = views_of(p.args@);
                let mut acc: u32 = 1;
                let mut i: usize = 0;
                proof {
                    assert(vs.take(0int) =~= Seq::<ExprV>::empty());
                }
                while i < p.args.len()
                    invariant
                        i <= p.args.len(),
                        acc as nat == nat_min(1 + size_of_seq(vs.take(i as int)), u32::MAX as nat),
                    decreases p.args.len() - i,
                {
                    proof {
                        crate::measure::lemma_args_decrease(*self, i as int);
                    }
                    let l = p.args[i].len();
                    proof {
                        assert(vs.take(i + 1int).drop_last() =~= vs.take(i as int));
                        assert(vs.take(i + 1int).last() == view_of(p.args@[i as int]));
                    }
                    acc = acc.saturating_add(l);
                    i = i + 1;
                }
                proof {
                    assert(vs.take(p.args@.len() as int) =~= vs);
                }
                acc
            },
            Expr::Forall(q) => {
                let l = q.expr.len();
                l.saturating_add(1)
            },
            Expr::Exists(q) => {
                let l = q.expr.len();
                l.saturating_add(1)
            },
        }
    }
}

/// Structural equality of two expressions, decided against their models.
pub fn expr_eq(a: &Expr, b: &Expr) -> (r: bool)
    ensures
        r == (a@ == b@),
    decreases *a,
{
    match (a, b) {
        (Expr::Ref(x), Expr::Ref(y)) => x.name == y.name,
        (Expr::PropOp(x), Expr::PropOp(y)) => {
            if x.op_id != y.op_id || x.args.len() != y.args.len() {
                proof {
                    if x.op_id == y.op_id {
                        assert(views_of(x.args@).len() != views_of(y.args@).len());
                    }
                }
                false
            } else {
                let mut i: usize = 0;
                let mut same = true;
                while i < x.args.len()
                    invariant
                        i <= x.args.len(),
                        same == (forall|j: int|
                            0 <= j < i ==> view_of(x.args@[j]) == view_of(y.args@[j])),
                    decreases x.args.len() - i,
                {
                    proof {
                        crate::measure::lemma_args_decrease(*a, i as int);
                    }
                    if !expr_eq(&x.args[i], &y.args[i]) {
                        same = false;
                    }
                    i = i + 1;
                }
                proof {
                    if same {
                        assert(views_of(x.args@) =~= views_of(y.args@));
                        assert(a@ =~= b@);
                    } else {
                        let j = choose|j: int|
                            0 <= j < x.args@.len() && view_of(x.args@[j]) != view_of(y.args@[j]);
                        assert(views_of(x.args@)[j] != views_of(y.args@)[j]);
                    }
                }
                same
            }
        },
        (Expr::Forall(x), Expr::Forall(y)) => {
            let r = x.name == y.name && expr_eq(&x.expr, &y.expr);
            proof {
                if r {
                    assert(a@ =~= b@);
                }
            }
            r
        },
        (Expr::Exists(x), Expr::Exists(y)) => {
            let r = x.name == y.name && expr_eq(&x.expr, &y.expr);
            proof {
                if r {
                    assert(a@ =~= b@);
                }
            }
            r
        },
        _ => false,
    }
}

/// The result of comparing two expressions in the total order.
#[derive(Clone, Copy, Debug, PartialEq, Eq, Structural)]
pub enum Comparison {
    Less,
    Equal,
    Greater,
}

/// Comparison of two integer handles.
pub open spec fn cmp_u32(x: u32, y: u32) -> Comparison {
    if x < y {
        Comparison::Less
    } else if x > y {
        Comparison::Greater
    } else {
        Comparison::Equal
    }
}

/// The deterministic total order on expression models: variant rank first,
/// then head fields, then argument count, then arguments left to right. It
/// only breaks cost ties in the search frontier; any total order would do.
pub open spec fn spec_cmp(a: ExprV, b: ExprV) -> Comparison
    decreases a, 1int,
{
    match (a, b) {
        (ExprV::Ref { name: x }, ExprV::Ref { name: y }) => cmp_u32(x, y),
        (ExprV::Ref { .. }, _) => Comparison::Less,
        (ExprV::Op { .. }, ExprV::Ref { .. }) => Comparison::Greater,
        (ExprV::Op { op: xo, args: xa }, ExprV::Op { op: yo, args: ya }) => {
            if cmp_u32(xo, yo) != Comparison::Equal {
                cmp_u32(xo, yo)
            } else if xa.len() < ya.len() {
                Comparison::Less
            } else if xa.len() > ya.len() {
                Comparison::Greater
            } else {
                spec_cmp_seq(xa, ya, 0)
            }
        },
        (ExprV::Op { .. }, _) => Comparison::Less,
        (ExprV::Forall { name: x, body: xb }, ExprV::Forall { name: y, body: yb }) => {
            if cmp_u32(x, y) != Comparison::Equal {
                cmp_u32(x, y)
            } else {
                spec_cmp(*xb, *yb)
            }
        },
        (ExprV::Forall { .. }, ExprV::Ref { .. }) => Comparison::Greater,
        (ExprV::Forall { .. }, ExprV::Op { .. }) => Comparison::Greater,
        (ExprV::Forall { .. }, _) => Comparison::Less,
        (ExprV::Exists { name: x, body: xb }, ExprV::Exists { name: y, body: yb }) => {
            if cmp_u32(x, y) != Comparison::Equal {
                cmp_u32(x, y)
            } else {
                spec_cmp(*xb, *yb)
            }
        },
        (ExprV::Exists { .. }, _) => Comparison::Greater,
    }
}

/// Lexicographic comparison of two equally long argument sequences from
/// position `i` on.
pub open spec fn spec_cmp_seq(xs: Seq<ExprV>, ys: Seq<ExprV>, i: int) -> Comparison
    decreases xs, 0int, xs.len() - i,
{
    if i < 0 || i >= xs.len() || xs.len() != ys.len() {
        Comparison::Equal
    } else if spec_cmp(xs[i], ys[i]) != Comparison::Equal {
        spec_cmp(xs[i], ys[i])
    } else {
        spec_cmp_seq(xs, ys, i + 1)
    }
}

/// Decides the total order [`spec_cmp`] on two expressions.
pub fn expr_cmp(a: &Expr, b: &Expr) -> (r: Comparison)
    ensures
        r == spec_cmp(a@, b@),
    decreases *a,
{
    match (a, b) {
        (Expr::Ref(x), Expr::Ref(y)) => cmp_u32_exec(x.name, y.name),
        (Expr::Ref(..), _) => Comparison::Less,
        (Expr::PropOp(..), Expr::Ref(..)) => Comparison::Greater,
        (Expr::PropOp(x), Expr::PropOp(y)) => {
            let head = cmp_u32_exec(x.op_id, y.op_id);
            proof {
                assert(views_of(x.args@).len() == x.args@.len());
                assert(views_of(y.args@).len() == y.args@.len());
            }
            if !matches!(head, Comparison::Equal) {
                head
            } else if x.args.len() < y.args.len() {
                Comparison::Less
            } else if x.args.len() > y.args.len() {
                Comparison::Greater
            } else {
                let ghost xa = views_of(x.args@);
                let ghost ya = views_of(y.args@);
                let mut i: usize = 0;
                let mut r = Comparison::Equal;
                while i < x.args.len()
                    invariant
                        i <= x.args.len(),
                        r == Comparison::Equal ==> spec_cmp_seq(xa, ya, 0) == spec_cmp_seq(
                            xa,
                            ya,
                            i as int,
                        ),
                        r != Comparison::Equal ==> r == spec_cmp_seq(xa, ya, 0),
                    decreases x.args.len() - i,
                {
                    if matches!(r, Comparison::Equal) {
                        proof {
                            crate::measure::lemma_args_decrease(*a, i as int);
                        }
                        let c = expr_cmp(&x.args[i], &y.args[i]);
                        if !matches!(c, Comparison::Equal) {
                            r = c;
                        }
                    }
                    i = i + 1;
                }
                r
            }
        },
        (Expr::PropOp(..), _) => Comparison::Less,
        (Expr::Forall(x), Expr::Forall(y)) => {
            let head = cmp_u32_exec(x.name, y.name);
            if !matches!(head, Comparison::Equal) {
                head
            } else {
                expr_cmp(&x.expr, &y.expr)
            }
        },
        (Expr::Forall(..), Expr::Exists(..)) => Comparison::Less,
        (Expr::Forall(..), _) => Comparison::Greater,
        (Expr::Exists(x), Expr::Exists(y)) => {
            let head = cmp_u32_exec(x.name, y.name);
            if !matches!(head, Comparison::Equal) {
                head
            } else {
                expr_cmp(&x.expr, &y.expr)
            }
        },
        (Expr::Exists(..), _) => Comparison::Greater,
    }
}

/// Decides [`cmp_u32`].
pub fn cmp_u32_exec(x: u32, y: u32) -> (r: Comparison)
    ensures
        r == cmp_u32(x, y),
{
    if x < y {
        Comparison::Less
    } else if x > y {
        Comparison::Greater
    } else {
        Comparison::Equal
    }
}

/// Deep copy of an expression; the model is preserved.
pub fn clone_expr(e: &Expr) -> (r: Expr)
    ensures
        r@ == e@,
    decreases *e,
{
    match e {
        Expr::Ref(x) => Expr::Ref(RefExpr { name: x.name }),
        Expr::PropOp(p) => {
            let mut args: Vec<Expr> = Vec::new();
            let mut i: usize = 0;
            while i < p.args.len()
                invariant
                    i <= p.args.len(),
                    views_of(args@) =~= views_of(p.args@).take(i as int),
                decreases p.args.len() - i,
            {
                proof {
                    crate::measure::lemma_args_decrease(*e, i as int);
                }
                let c = clone_expr(&p.args[i]);
                args.push(c);
                proof {
                    assert(views_of(args@) =~= views_of(p.args@).take(i + 1int));
                }
                i = i + 1;
            }
            proof {
                assert(views_of(p.args@).take(p.args@.len() as int) =~= views_of(p.args@));
                assert(views_of(args@) =~= views_of(p.args@));
            }
            let out = Expr::PropOp(PropOpExpr { op_id: p.op_id, args });
            proof {
                assert(out@ =~= e@);
            }
            out
        },
        Expr::Forall(q) => {
            let b = clone_expr(&q.expr);
            Expr::Forall(PredBody { name: q.name, expr: Box::new(b) })
        },
        Expr::Exists(q) => {
            let b = clone_expr(&q.expr);
            Expr::Exists(PredBody { name: q.name, expr: Box::new(b) })
        },
    }
}

impl PredBody {
    /// Builds a quantifier body.
    pub fn new(name: Name, expr: Expr) -> (r: Self)
        ensures
            r.name == name,
            r.expr@ == expr@,
    {
        PredBody { name, expr: Box::new(expr) }
    }
}

} // verus!
