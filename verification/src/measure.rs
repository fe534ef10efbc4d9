//! Termination bridges: the decreases-to facts that recursion through the
//! argument vectors of expressions and s-expressions rests on.

use vstd::prelude::*;
use crate::ast::Expr;
use crate::cst::SExp;

verus! {

broadcast use vstd::seq::group_seq_axioms, vstd::std_specs::vec::group_vec_axioms;

/// An operator application is larger, in the termination order, than each
/// of its argument expressions.
pub broadcast proof fn lemma_args_decrease(e: Expr, i: int)
    requires
        e is PropOp,
        0 <= i < e->PropOp_0.args@.len(),
    ensures
        #[trigger] (decreases_to!(e => e->PropOp_0.args@[i])),
{
    let p = e->PropOp_0;
    assert(decreases_to!(e => p.args));
    assert(decreases_to!(p.args => p.args@));
    assert(decreases_to!(p.args@ => p.args@[i]));
}


/// A sequence of s-expressions is larger, in the termination order, than each
/// of its elements.
pub proof fn lemma_sexp_seq_decrease(v: Seq<SExp>, i: int)
    requires
        0 <= i < v.len(),
    ensures
        decreases_to!(v => v[i]),
{
}

/// A list s-expression is larger, in the termination order, than each of its
/// element expressions.
pub proof fn lemma_sexp_elements_decrease(e: SExp, i: int)
    requires
        e is List,
        0 <= i < e->List_0.elements@.len(),
    ensures
        decreases_to!(e => e->List_0.elements@[i]),
{
    let l = e->List_0;
    assert(decreases_to!(e => l.elements));
    assert(decreases_to!(l.elements => l.elements@));
    assert(decreases_to!(l.elements@ => l.elements@[i]));
}

/// A list s-expression is larger, in the termination order, than its dotted
/// tail expression.
pub proof fn lemma_sexp_tail_decrease(e: SExp)
    requires
        e is List,
        e->List_0.tail is Some,
    ensures
        decreases_to!(e => e->List_0.tail->0.expr),
{
    let l = e->List_0;
    match l.tail {
        Some(t) => {
            assert(decreases_to!(e => t.expr));
            assert(t.expr == e->List_0.tail->0.expr);
        },
        None => {},
    }
}

} // verus!
