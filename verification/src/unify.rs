//! The one-sided unifier and substitutor.
//!
//! Unification matches a rule pattern against a subject expression: every
//! reference in the pattern is a variable, while references in the subject are
//! opaque terms. A successful match yields a substitution from names to
//! expressions; applying it to the pattern reproduces the subject (proved in
//! [`lemma_unify_soundness`]). Quantified expressions are never unified.

use std::collections::HashMap;
use vstd::prelude::*;

use crate::ast::{clone_expr, expr_eq, view_of, views_of, Expr, ExprV, Name, PropOpExpr};

verus! {

broadcast use vstd::seq::group_seq_axioms, vstd::std_specs::vec::group_vec_axioms,
    vstd::std_specs::hash::group_hash_axioms;

/// A substitution: a finite mapping from variable names to expressions.
pub type Subst = HashMap<Name, Expr>;

/// The model of a substitution.
pub open spec fn subst_v(m: Map<Name, Expr>) -> Map<Name, ExprV> {
    m.map_values(|e: Expr| view_of(e))
}

/// One-sided unification of a pattern against a subject, threading a partial
/// substitution: an unbound pattern variable binds to the subject; a bound one
/// must map to a structurally equal term; operator applications unify argument
/// by argument; quantifiers never unify.
pub open spec fn spec_unify(p: ExprV, x: ExprV, s: Map<Name, ExprV>) -> Option<Map<Name, ExprV>>
    decreases p, 1int,
    via spec_unify_decreases
{
    match p {
        ExprV::Ref { name } => {
            if !s.contains_key(name) {
                Some(s.insert(name, x))
            } else if s[name] == x {
                Some(s)
            } else {
                None
            }
        },
        ExprV::Op { op, args } => match x {
            ExprV::Op { op: xop, args: xargs } => {
                if op == xop && args.len() == xargs.len() {
                    spec_unify_args(args, xargs, s, 0)
                } else {
                    None
                }
            },
            _ => None,
        },
        _ => None,
    }
}

#[via_fn]
proof fn spec_unify_decreases(p: ExprV, x: ExprV, s: Map<Name, ExprV>) {
    match p {
        ExprV::Op { op, args } => {
            assert(decreases_to!(p => args));
        },
        _ => {},
    }
}

/// Unifies the argument lists pairwise from position `i` on, threading the
/// substitution left to right.
pub open spec fn spec_unify_args(
    ps: Seq<ExprV>,
    xs: Seq<ExprV>,
    s: Map<Name, ExprV>,
    i: int,
) -> Option<Map<Name, ExprV>>
    decreases ps, 0int, ps.len() - i,
{
    if i < 0 || i >= ps.len() || ps.len() != xs.len() {
        Some(s)
    } else {
        match spec_unify(ps[i], xs[i], s) {
            Some(s1) => spec_unify_args(ps, xs, s1, i + 1),
            None => None,
        }
    }
}

/// Substitution: each reference bound in the substitution is replaced by its
/// binding; operator arguments are rewritten pointwise; quantified
/// expressions are left unchanged, as the rewriter never works under binders.
pub open spec fn spec_apply(s: Map<Name, ExprV>, e: ExprV) -> ExprV
    decreases e,
    via spec_apply_decreases
{
    match e {
        ExprV::Ref { name } => {
            if s.contains_key(name) {
                s[name]
            } else {
                e
            }
        },
        ExprV::Op { op, args } => ExprV::Op {
            op,
            args: Seq::new(
                args.len(),
                |i: int|
                    if 0 <= i < args.len() {
                        spec_apply(s, args[i])
                    } else {
                        ExprV::Ref { name: 0 }
                    },
            ),
        },
        _ => e,
    }
}

#[via_fn]
proof fn spec_apply_decreases(s: Map<Name, ExprV>, e: ExprV) {
    match e {
        ExprV::Op { op, args } => {
            assert(decreases_to!(e => args));
        },
        _ => {},
    }
}

/// The pattern variables of an expression: every name a substitution could
/// replace. Quantified expressions contribute none, since substitution does
/// not descend into them.
pub open spec fn pattern_vars(e: ExprV) -> Set<Name>
    decreases e, 1int,
    via pattern_vars_decreases
{
    match e {
        ExprV::Ref { name } => Set::empty().insert(name),
        ExprV::Op { op, args } => pattern_vars_args(args, 0),
        _ => Set::empty(),
    }
}

#[via_fn]
proof fn pattern_vars_decreases(e: ExprV) {
    match e {
        ExprV::Op { op, args } => {
            assert(decreases_to!(e => args));
        },
        _ => {},
    }
}

/// The union of the pattern variables of the arguments from position `i` on.
pub open spec fn pattern_vars_args(args: Seq<ExprV>, i: int) -> Set<Name>
    decreases args, 0int, args.len() - i,
{
    if i < 0 || i >= args.len() {
        Set::empty()
    } else {
        pattern_vars(args[i]).union(pattern_vars_args(args, i + 1))
    }
}

/// Substitution identity: the empty substitution leaves every expression
/// unchanged.
pub proof fn lemma_apply_empty(e: ExprV)
    ensures
        spec_apply(Map::<Name, ExprV>::empty(), e) == e,
    decreases e,
{
    match e {
        ExprV::Op { op, args } => {
            assert(decreases_to!(e => args));
            assert forall|i: int| 0 <= i < args.len() implies spec_apply(
                Map::<Name, ExprV>::empty(),
                args[i],
            ) == args[i] by {
                lemma_apply_empty(args[i]);
            }
            assert(spec_apply(Map::<Name, ExprV>::empty(), e)->Op_args =~= args);
            assert(spec_apply(Map::<Name, ExprV>::empty(), e) =~= e);
        },
        _ => {},
    }
}

/// Substitution only reads the bindings of an expression's pattern variables:
/// extending a substitution with other names cannot change the result.
pub proof fn lemma_apply_stable(s1: Map<Name, ExprV>, s2: Map<Name, ExprV>, e: ExprV)
    requires
        s1.submap_of(s2),
        pattern_vars(e).subset_of(s1.dom()),
    ensures
        spec_apply(s2, e) == spec_apply(s1, e),
    decreases e,
{
    match e {
        ExprV::Ref { name } => {
            assert(pattern_vars(e).contains(name));
        },
        ExprV::Op { op, args } => {
            assert(decreases_to!(e => args));
            assert forall|i: int| 0 <= i < args.len() implies spec_apply(s2, args[i]) == spec_apply(
                s1,
                args[i],
            ) by {
                lemma_pattern_vars_arg(args, i);
                lemma_apply_stable(s1, s2, args[i]);
            }
            assert(spec_apply(s2, e)->Op_args =~= spec_apply(s1, e)->Op_args);
            assert(spec_apply(s2, e) =~= spec_apply(s1, e));
        },
        _ => {},
    }
}

/// Each argument's pattern variables are among those of the whole list.
proof fn lemma_pattern_vars_arg(args: Seq<ExprV>, i: int)
    requires
        0 <= i < args.len(),
    ensures
        pattern_vars(args[i]).subset_of(pattern_vars_args(args, 0)),
    decreases i,
{
    lemma_pattern_vars_args_suffix(args, 0, i);
}

/// The variables of the suffix from `j` contain those of `args[i]` for `i >= j`.
proof fn lemma_pattern_vars_args_suffix(args: Seq<ExprV>, j: int, i: int)
    requires
        0 <= j <= i < args.len(),
    ensures
        pattern_vars(args[i]).subset_of(pattern_vars_args(args, j)),
    decreases i - j,
{
    if j < i {
        lemma_pattern_vars_args_suffix(args, j + 1, i);
    }
}

/// Unifier soundness, generalised over the threaded substitution: a
/// successful unification extends the given substitution, binds every pattern
/// variable, and maps the pattern onto the subject.
pub proof fn lemma_unify_sound(p: ExprV, x: ExprV, s: Map<Name, ExprV>, m: Map<Name, ExprV>)
    requires
        spec_unify(p, x, s) == Some(m),
    ensures
        s.submap_of(m),
        pattern_vars(p).subset_of(m.dom()),
        spec_apply(m, p) == x,
    decreases p, 1int,
{
    match p {
        ExprV::Ref { name } => {},
        ExprV::Op { op, args } => {
            assert(decreases_to!(p => args));
            let xargs = x->Op_args;
            lemma_unify_args_sound(args, xargs, s, m, 0);
            assert forall|j: int| 0 <= j < args.len() implies #[trigger] pattern_vars(
                args[j],
            ).subset_of(m.dom()) by {
                assert(spec_apply(m, args[j]) == xargs[j]);
            }
            assert forall|j: int| 0 <= j < args.len() implies #[trigger] spec_apply(m, args[j])
                == xargs[j] by {
                assert(spec_apply(m, args[j]) == xargs[j]);
            }
            assert(pattern_vars(p).subset_of(m.dom())) by {
                lemma_pattern_vars_args_bound(args, 0, m.dom());
            }
            assert(spec_apply(m, p)->Op_args =~= xargs) by {
                assert(spec_apply(m, p)->Op_args.len() == args.len());
                assert forall|j: int| 0 <= j < args.len() implies spec_apply(m, p)->Op_args[j]
                    == xargs[j] by {
                    assert(spec_apply(m, p)->Op_args[j] == spec_apply(m, args[j]));
                }
            }
            assert(spec_apply(m, p) =~= x);
        },
        _ => {},
    }
}

/// If every argument's variables from position `i` on lie in `d`, so do the
/// variables of the suffix.
proof fn lemma_pattern_vars_args_bound(args: Seq<ExprV>, i: int, d: Set<Name>)
    requires
        0 <= i <= args.len(),
        forall|j: int| i <= j < args.len() ==> #[trigger] pattern_vars(args[j]).subset_of(d),
    ensures
        pattern_vars_args(args, i).subset_of(d),
    decreases args.len() - i,
{
    if i < args.len() {
        assert(pattern_vars(args[i]).subset_of(d));
        lemma_pattern_vars_args_bound(args, i + 1, d);
        assert forall|k: Name| pattern_vars_args(args, i).contains(k) implies d.contains(k) by {
            if pattern_vars(args[i]).contains(k) {
            } else {
                assert(pattern_vars_args(args, i + 1).contains(k));
            }
        }
    }
}

/// Argument-list soundness from position `i` on: every later pattern is
/// fully bound and maps onto its subject.
pub open spec fn unified_suffix(ps: Seq<ExprV>, xs: Seq<ExprV>, m: Map<Name, ExprV>, i: int) -> bool {
    forall|j: int|
        i <= j < ps.len() ==> pattern_vars(ps[j]).subset_of(m.dom()) && #[trigger] spec_apply(
            m,
            ps[j],
        ) == xs[j]
}

/// Soundness of pairwise argument unification from position `i` on.
proof fn lemma_unify_args_sound(
    ps: Seq<ExprV>,
    xs: Seq<ExprV>,
    s: Map<Name, ExprV>,
    m: Map<Name, ExprV>,
    i: int,
)
    requires
        0 <= i <= ps.len(),
        ps.len() == xs.len(),
        spec_unify_args(ps, xs, s, i) == Some(m),
    ensures
        s.submap_of(m),
        unified_suffix(ps, xs, m, i),
    decreases ps, 0int, ps.len() - i,
{
    if i < ps.len() {
        assert(decreases_to!(ps => ps[i]));
        let s1 = spec_unify(ps[i], xs[i], s)->Some_0;
        lemma_unify_sound(ps[i], xs[i], s, s1);
        lemma_unify_args_sound(ps, xs, s1, m, i + 1);
        assert(s.submap_of(m)) by {
            assert forall|k: Name| s.dom().contains(k) implies #[trigger] m.dom().contains(k)
                && m[k] == s[k] by {
                assert(s1.dom().contains(k) && s1[k] == s[k]);
            }
        }
        assert(pattern_vars(ps[i]).subset_of(m.dom())) by {
            assert forall|k: Name| pattern_vars(ps[i]).contains(k) implies m.dom().contains(
                k,
            ) by {
                assert(s1.dom().contains(k));
            }
        }
        lemma_apply_stable(s1, m, ps[i]);
        assert(pattern_vars(ps[i]).subset_of(m.dom())) by {
            assert forall|k: Name| pattern_vars(ps[i]).contains(k) implies m.dom().contains(
                k,
            ) by {
                assert(s1.dom().contains(k));
            }
        }
        assert(spec_apply(m, ps[i]) == xs[i]);
        assert(unified_suffix(ps, xs, m, i)) by {
            assert forall|j: int| i <= j < ps.len() implies pattern_vars(ps[j]).subset_of(m.dom())
                && #[trigger] spec_apply(m, ps[j]) == xs[j] by {
                if j == i {
                    assert(pattern_vars(ps[i]).subset_of(m.dom()));
                    assert(spec_apply(m, ps[i]) == xs[i]);
                } else {
                    assert(i + 1 <= j < ps.len());
                    assert(spec_apply(m, ps[j]) == xs[j]);
                    assert(pattern_vars(ps[j]).subset_of(m.dom()));
                }
            }
        }
    }
}

/// Unifier soundness: if unification of a pattern against a subject succeeds,
/// applying the resulting substitution to the pattern reproduces the subject.
pub proof fn lemma_unify_soundness(p: ExprV, x: ExprV, m: Map<Name, ExprV>)
    requires
        spec_unify(p, x, Map::<Name, ExprV>::empty()) == Some(m),
    ensures
        spec_apply(m, p) == x,
{
    lemma_unify_sound(p, x, Map::<Name, ExprV>::empty(), m);
}

/// Relates an executable unification result to the model's.
pub open spec fn unify_result_matches(r: Option<Subst>, m: Option<Map<Name, ExprV>>) -> bool {
    match r {
        Some(rs) => m is Some && subst_v(rs@) == m->Some_0,
        None => m is None,
    }
}

/// Unifies a pattern against a subject under a partial substitution, as
/// [`spec_unify`] describes. On failure the substitution holds whatever
/// partial bindings were made and carries no promise.
fn unify_impl(left: &Expr, right: &Expr, sub: &mut Subst) -> (r: bool)
    ensures
        match spec_unify(left@, right@, subst_v(old(sub)@)) {
            Some(m) => r && subst_v(final(sub)@) == m,
            None => !r,
        },
    decreases *left,
{
    match (left, right) {
        (Expr::Ref(a), _) => {
            let existing = sub.get(&a.name);
            match existing {
                None => {
                    let bound = clone_expr(right);
                    sub.insert(a.name, bound);
                    proof {
                        assert(subst_v(sub@) =~= subst_v(old(sub)@).insert(a.name, right@));
                    }
                    true
                },
                Some(e) => {
                    let r = expr_eq(e, right);
                    proof {
                        assert(subst_v(sub@).contains_key(a.name));
                        assert(subst_v(sub@)[a.name] == e@);
                    }
                    r
                },
            }
        },
        (Expr::PropOp(p1), Expr::PropOp(p2)) => {
            if p1.op_id != p2.op_id || p1.args.len() != p2.args.len() {
                proof {
                    assert(views_of(p1.args@).len() == p1.args@.len());
                    assert(views_of(p2.args@).len() == p2.args@.len());
                }
                false
            } else {
                let ghost pa = views_of(p1.args@);
                let ghost xa = views_of(p2.args@);
                let ghost s0 = subst_v(sub@);
                let mut i: usize = 0;
                let mut ok = true;
                while i < p1.args.len()
                    invariant
                        i <= p1.args.len(),
                        ok ==> spec_unify_args(pa, xa, s0, 0) == spec_unify_args(
                            pa,
                            xa,
                            subst_v(sub@),
                            i as int,
                        ),
                        !ok ==> spec_unify_args(pa, xa, s0, 0) is None,
                    decreases p1.args.len() - i,
                {
                    if ok {
                        proof {
                            crate::measure::lemma_args_decrease(*left, i as int);
                        }
                        let ghost s_before = subst_v(sub@);
                        if !unify_impl(&p1.args[i], &p2.args[i], sub) {
                            ok = false;
                            proof {
                                assert(spec_unify(pa[i as int], xa[i as int], s_before) is None);
                            }
                        }
                    }
                    i = i + 1;
                }
                ok
            }
        },
        _ => false,
    }
}

/// Unification from the empty substitution, per [`spec_unify`]: `Some` with
/// the exact model substitution on success, `None` on failure.
pub fn unify(left: &Expr, right: &Expr) -> (r: Option<Subst>)
    ensures
        unify_result_matches(r, spec_unify(left@, right@, Map::<Name, ExprV>::empty())),
{
    let mut sub: Subst = HashMap::new();
    proof {
        assert(subst_v(sub@) =~= Map::<Name, ExprV>::empty());
    }
    if unify_impl(left, right, &mut sub) {
        Some(sub)
    } else {
        None
    }
}

/// Applies a substitution, per [`spec_apply`].
pub fn apply(sub: &Subst, expr: &Expr) -> (r: Expr)
    ensures
        r@ == spec_apply(subst_v(sub@), expr@),
    decreases *expr,
{
    match expr {
        Expr::Ref(a) => {
            let existing = sub.get(&a.name);
            match existing {
                Some(e) => {
                    proof {
                        assert(subst_v(sub@).contains_key(a.name));
                        assert(subst_v(sub@)[a.name] == e@);
                    }
                    clone_expr(e)
                },
                None => {
                    proof {
                        assert(!subst_v(sub@).contains_key(a.name));
                    }
                    clone_expr(expr)
                },
            }
        },
        Expr::PropOp(p) => {
            let ghost sv = subst_v(sub@);
            let mut args: Vec<Expr> = Vec::new();
            let mut i: usize = 0;
            while i < p.args.len()
                invariant
                    i <= p.args.len(),
                    args@.len() == i,
                    forall|j: int|
                        0 <= j < i ==> view_of(args@[j]) == spec_apply(sv, view_of(p.args@[j])),
                decreases p.args.len() - i,
            {
                proof {
                    crate::measure::lemma_args_decrease(*expr, i as int);
                }
                let n = apply(sub, &p.args[i]);
                args.push(n);
                i = i + 1;
            }
            let ghost argsv = args@;
            let out = Expr::PropOp(PropOpExpr { op_id: p.op_id, args });
            proof {
                assert(out is PropOp);
                assert(out->PropOp_0.args@ == argsv);
                assert(out@ is Op);
                assert(out@->Op_args == views_of(argsv));
                assert forall|j: int| 0 <= j < p.args@.len() implies views_of(argsv)[j]
                    == spec_apply(sv, views_of(p.args@)[j]) by {
                    assert(views_of(argsv)[j] == view_of(argsv[j]));
                    assert(views_of(p.args@)[j] == view_of(p.args@[j]));
                }
                assert(out@->Op_args.len() == argsv.len());
                assert(spec_apply(sv, expr@)->Op_args.len() == p.args@.len());
                assert(out@->Op_args =~= spec_apply(sv, expr@)->Op_args) by {
                    assert forall|j: int| 0 <= j < p.args@.len() implies out@->Op_args[j]
                        == spec_apply(sv, expr@)->Op_args[j] by {
                        assert(out@->Op_args[j] == views_of(argsv)[j]);
                        assert(spec_apply(sv, expr@)->Op_args[j] == spec_apply(
                            sv,
                            views_of(p.args@)[j],
                        ));
                    }
                }
                assert(out@ =~= spec_apply(sv, expr@));
            }
            out
        },
        _ => clone_expr(expr),
    }
}

} // verus!
