//! The rewrite engine: rules, expansion, heuristics and the best-first proof
//! search.
//!
//! A rule is an ordered (pattern, replacement) pair. Expansion applies every
//! rule at every position of an expression; the search explores the expansion
//! relation best-first until it reaches the goal or exhausts its iteration
//! budget, and reconstructs the path through a parent map.

use vstd::prelude::*;

use crate::ast::{
    clone_expr, expr_eq, expr_cmp, nat_min, spec_cmp, view_of, views_of, Comparison, Expr, ExprV, Name,
    PropOpExpr,
};
use crate::unify::{
    apply, spec_apply, spec_unify, subst_v, unify, unify_result_matches, Subst,
};

verus! {

broadcast use vstd::seq::group_seq_axioms, vstd::std_specs::vec::group_vec_axioms;

/// A rewrite rule: unify the pattern, emit the substituted replacement.
pub struct Rule {
    pattern: Expr,
    expr: Expr,
}

/// The model of a rule: its pattern and replacement trees.
pub type RuleV = (ExprV, ExprV);

impl Rule {
    /// The model of the pattern.
    pub closed spec fn pat(self) -> ExprV {
        self.pattern@
    }

    /// The model of the replacement.
    pub closed spec fn rep(self) -> ExprV {
        self.expr@
    }

    /// The model of the rule.
    pub open spec fn v(self) -> RuleV {
        (self.pat(), self.rep())
    }

    /// Builds a rule from a pattern and a replacement. Every reference in the
    /// replacement should also occur in the pattern, else application leaves
    /// it behind unchanged; this is the caller's care, not checked here.
    pub fn new(pattern: Expr, expr: Expr) -> (r: Rule)
        ensures
            r.v() == (pattern@, expr@),
    {
        Rule { pattern, expr }
    }
}

/// The models of a vector of rules.
pub open spec fn rules_of(v: Seq<Rule>) -> Seq<RuleV> {
    Seq::new(v.len(), |i: int| v[i].v())
}

/// The rewrites of `e` by the rules before position `i`, in rule order: for
/// each rule whose pattern unifies with the whole of `e`, the substituted
/// replacement.
pub open spec fn expand_unify_upto(rules: Seq<RuleV>, e: ExprV, i: int) -> Seq<ExprV>
    decreases i,
{
    if i <= 0 || i > rules.len() {
        Seq::empty()
    } else {
        expand_unify_upto(rules, e, i - 1) + match spec_unify(
            rules[i - 1].0,
            e,
            Map::<Name, ExprV>::empty(),
        ) {
            Some(m) => seq![spec_apply(m, rules[i - 1].1)],
            None => Seq::<ExprV>::empty(),
        }
    }
}

/// The rewrites of `e` at the top position, one per matching rule.
pub open spec fn spec_expand_unify(rules: Seq<RuleV>, e: ExprV) -> Seq<ExprV> {
    expand_unify_upto(rules, e, rules.len() as int)
}

/// Every expression obtainable from `e` by one rewrite at any position: the
/// top-position rewrites first, then, argument position by argument position,
/// the rewrites inside that argument with the remaining arguments unchanged.
/// Quantifier bodies are not descended into.
pub open spec fn spec_expand(rules: Seq<RuleV>, e: ExprV) -> Seq<ExprV>
    decreases e, 1int, 0int,
    via spec_expand_decreases
{
    spec_expand_unify(rules, e) + match e {
        ExprV::Op { op, args } => expand_args_upto(rules, op, args, args.len() as int),
        _ => Seq::<ExprV>::empty(),
    }
}

#[via_fn]
proof fn spec_expand_decreases(rules: Seq<RuleV>, e: ExprV) {
    match e {
        ExprV::Op { op, args } => {
            assert(decreases_to!(e => args));
        },
        _ => {},
    }
}

/// The rewrites inside argument positions before `i`.
pub open spec fn expand_args_upto(rules: Seq<RuleV>, op: u32, args: Seq<ExprV>, i: int) -> Seq<
    ExprV,
>
    decreases args, 0int, i,
{
    if i <= 0 || i > args.len() {
        Seq::empty()
    } else {
        expand_args_upto(rules, op, args, i - 1) + expand_at(rules, op, args, i - 1)
    }
}

/// The rewrites inside argument position `k`: each rewrite of `args[k]`, put
/// back in place.
pub open spec fn expand_at(rules: Seq<RuleV>, op: u32, args: Seq<ExprV>, k: int) -> Seq<ExprV>
    decreases args, 0int, 0int,
    via expand_at_decreases
{
    if 0 <= k < args.len() {
        Seq::new(
            spec_expand(rules, args[k]).len(),
            |j: int|
                if 0 <= j < spec_expand(rules, args[k]).len() {
                    ExprV::Op { op, args: args.update(k, spec_expand(rules, args[k])[j]) }
                } else {
                    ExprV::Ref { name: 0 }
                },
        )
    } else {
        Seq::empty()
    }
}

#[via_fn]
proof fn expand_at_decreases(rules: Seq<RuleV>, op: u32, args: Seq<ExprV>, k: int) {
}

/// A rule that unifies with the whole expression contributes its rewrite to
/// the expansions taken from the first `n` rules.
proof fn lemma_expand_unify_upto_contains(
    rules: Seq<RuleV>,
    i: int,
    e: ExprV,
    m: Map<Name, ExprV>,
    n: int,
)
    requires
        0 <= i < n <= rules.len(),
        spec_unify(rules[i].0, e, Map::<Name, ExprV>::empty()) == Some(m),
    ensures
        expand_unify_upto(rules, e, n).contains(spec_apply(m, rules[i].1)),
    decreases n,
{
    let x = spec_apply(m, rules[i].1);
    if n == i + 1 {
        let u = expand_unify_upto(rules, e, n);
        assert(u[u.len() - 1] == x);
        assert(u.contains(x));
    } else {
        lemma_expand_unify_upto_contains(rules, i, e, m, n - 1);
        let u1 = expand_unify_upto(rules, e, n - 1);
        let j = choose|j: int| 0 <= j < u1.len() && u1[j] == x;
        let u = expand_unify_upto(rules, e, n);
        assert(u[j] == x);
        assert(u.contains(x));
    }
}

/// Expansion contains the trivial rewrite: whenever an installed rule's
/// pattern unifies with the whole expression, the substituted replacement is
/// among the expansions.
pub proof fn lemma_expand_contains_rule_rewrite(
    rules: Seq<RuleV>,
    i: int,
    e: ExprV,
    m: Map<Name, ExprV>,
)
    requires
        0 <= i < rules.len(),
        spec_unify(rules[i].0, e, Map::<Name, ExprV>::empty()) == Some(m),
    ensures
        spec_expand(rules, e).contains(spec_apply(m, rules[i].1)),
{
    lemma_expand_unify_upto_contains(rules, i, e, m, rules.len() as int);
    let x = spec_apply(m, rules[i].1);
    let u = spec_expand_unify(rules, e);
    let j = choose|j: int| 0 <= j < u.len() && u[j] == x;
    assert(spec_expand(rules, e)[j] == x);
    assert(spec_expand(rules, e).contains(x));
}

/// A named cost function over (current, candidate) expression pairs.
#[derive(Clone, Copy, Debug, PartialEq, Eq, Structural)]
pub enum HeuristicKind {
    /// The ratio of the node counts, in fixed point: favours candidates whose
    /// size is below the current expression's.
    SizeRatio,
}

/// The fixed-point scale of heuristic values.
pub const COST_SCALE: u64 = 1000000;

/// Node count clamped to `u32::MAX`, as the executable `len` returns it.
pub open spec fn clamped_size(e: ExprV) -> nat {
    nat_min(e.size(), u32::MAX as nat)
}

/// The size-ratio heuristic: `size(a) / size(b)` in fixed point.
pub open spec fn spec_matching_size(a: ExprV, b: ExprV) -> nat {
    (clamped_size(a) * COST_SCALE as nat) / clamped_size(b)
}

/// The value of one named heuristic.
pub open spec fn spec_heur_value(h: HeuristicKind, a: ExprV, b: ExprV) -> nat {
    match h {
        HeuristicKind::SizeRatio => spec_matching_size(a, b),
    }
}

/// Addition saturating at `u64::MAX`.
pub open spec fn sat_add(a: nat, b: nat) -> nat {
    nat_min(a + b, u64::MAX as nat)
}

/// Multiplication saturating at `u64::MAX`.
pub open spec fn sat_mul(a: nat, b: nat) -> nat {
    nat_min(a * b, u64::MAX as nat)
}

/// The saturating weighted sum of the heuristic values before position `i`.
pub open spec fn est_sum(hs: Seq<(u64, HeuristicKind)>, a: ExprV, b: ExprV, i: int) -> nat
    decreases i,
{
    if i <= 0 || i > hs.len() {
        0
    } else {
        sat_add(
            est_sum(hs, a, b, i - 1),
            sat_mul(hs[i - 1].0 as nat, spec_heur_value(hs[i - 1].1, a, b)),
        )
    }
}

/// The saturating sum of the weights before position `i`.
pub open spec fn est_weights(hs: Seq<(u64, HeuristicKind)>, i: int) -> nat
    decreases i,
{
    if i <= 0 || i > hs.len() {
        0
    } else {
        sat_add(est_weights(hs, i - 1), hs[i - 1].0 as nat)
    }
}

/// The combined cost: the weighted average of the registered heuristics, or
/// zero when none is registered (the search then degenerates to breadth-first
/// order).
pub open spec fn spec_estimate(hs: Seq<(u64, HeuristicKind)>, a: ExprV, b: ExprV) -> nat {
    let w = est_weights(hs, hs.len() as int);
    if w == 0 {
        0
    } else {
        est_sum(hs, a, b, hs.len() as int) / w
    }
}

/// Saturating addition on `u64`.
fn sat_add_exec(a: u64, b: u64) -> (r: u64)
    ensures
        r as nat == sat_add(a as nat, b as nat),
{
    a.saturating_add(b)
}

/// Saturating multiplication on `u64`.
fn sat_mul_exec(a: u64, b: u64) -> (r: u64)
    ensures
        r as nat == sat_mul(a as nat, b as nat),
{
    if b != 0 && a > u64::MAX / b {
        proof {
            assert(a as nat * b as nat > u64::MAX as nat) by (nonlinear_arith)
                requires
                    b as nat > 0,
                    a as nat > (u64::MAX as nat) / (b as nat),
            ;
        }
        u64::MAX
    } else {
        proof {
            if b != 0 {
                assert(a as nat * b as nat <= u64::MAX as nat) by (nonlinear_arith)
                    requires
                        b as nat > 0,
                        a as nat <= (u64::MAX as nat) / (b as nat),
                ;
            }
        }
        a * b
    }
}

/// The size-ratio heuristic on expressions, in fixed point.
pub fn matching_size(start: &Expr, goal: &Expr) -> (r: u64)
    ensures
        r as nat == spec_matching_size(start@, goal@),
{
    let a = start.len();
    let b = goal.len();
    proof {
        crate::ast::lemma_size_pos(goal@);
        assert(a as nat * COST_SCALE as nat <= 0xffff_ffff_0000_0000) by (nonlinear_arith)
            requires
                a as nat <= u32::MAX as nat,
            ;
    }
    (a as u64) * COST_SCALE / (b as u64)
}

/// An edge of the search frontier: a heuristic cost and an expression.
pub type EdgeV = (nat, ExprV);

/// The models of the frontier entries.
pub open spec fn edges_of(v: Seq<(u64, Expr)>) -> Seq<EdgeV> {
    Seq::new(v.len(), |i: int| (v[i].0 as nat, view_of(v[i].1)))
}

/// The models of the parent-map entries (child, parent).
pub open spec fn pairs_of(v: Seq<(Expr, Expr)>) -> Seq<(ExprV, ExprV)> {
    Seq::new(v.len(), |i: int| (view_of(v[i].0), view_of(v[i].1)))
}

/// Whether edge `x` beats edge `y` in the priority order: strictly higher
/// cost, with ties broken by the expressions' total order. The search pops
/// the highest cost first; under the size-ratio heuristic that prefers
/// candidates whose size is below their parent's, so paths move toward
/// smaller terms when they can.
pub open spec fn edge_gt(x: EdgeV, y: EdgeV) -> bool {
    x.0 > y.0 || (x.0 == y.0 && spec_cmp(x.1, y.1) == Comparison::Greater)
}

/// The index of the edge a left-to-right scan from `i` with current best
/// `best` settles on.
pub open spec fn best_from(fr: Seq<EdgeV>, i: int, best: int) -> int
    decreases fr.len() - i,
{
    if i < 0 || i >= fr.len() {
        best
    } else {
        best_from(
            fr,
            i + 1,
            if edge_gt(fr[i], fr[best]) {
                i
            } else {
                best
            },
        )
    }
}

/// The index the search pops from a nonempty frontier: the first edge of
/// maximal priority.
pub open spec fn pop_index(fr: Seq<EdgeV>) -> int {
    best_from(fr, 1, 0)
}

/// A scan keeps its best index within the frontier.
proof fn lemma_best_from_range(fr: Seq<EdgeV>, i: int, best: int)
    requires
        0 <= best < fr.len(),
    ensures
        0 <= best_from(fr, i, best) < fr.len(),
    decreases fr.len() - i,
{
    if 0 <= i < fr.len() {
        lemma_best_from_range(
            fr,
            i + 1,
            if edge_gt(fr[i], fr[best]) {
                i
            } else {
                best
            },
        );
    }
}

/// First-match lookup in the parent list from position `i`.
pub open spec fn lookup_from(par: Seq<(ExprV, ExprV)>, k: ExprV, i: int) -> Option<ExprV>
    decreases par.len() - i,
{
    if i < 0 || i >= par.len() {
        None
    } else if par[i].0 == k {
        Some(par[i].1)
    } else {
        lookup_from(par, k, i + 1)
    }
}

/// The recorded parent of an expression, if any.
pub open spec fn lookup(par: Seq<(ExprV, ExprV)>, k: ExprV) -> Option<ExprV> {
    lookup_from(par, k, 0)
}

/// The chain from a node back towards the root, node first, following at most
/// `fuel` parent links.
pub open spec fn spec_walk_rev(par: Seq<(ExprV, ExprV)>, node: ExprV, fuel: nat) -> Seq<ExprV>
    decreases fuel,
{
    match lookup(par, node) {
        None => seq![node],
        Some(p) => {
            if fuel == 0 {
                seq![node]
            } else {
                seq![node] + spec_walk_rev(par, p, (fuel - 1) as nat)
            }
        },
    }
}

/// A sequence reversed.
pub open spec fn seq_rev<A>(s: Seq<A>) -> Seq<A> {
    Seq::new(s.len(), |i: int| s[s.len() - 1 - i])
}

/// The reconstructed proof path of a node: its parent chain, root first.
pub open spec fn spec_reconstruct(par: Seq<(ExprV, ExprV)>, node: ExprV) -> Seq<ExprV> {
    seq_rev(spec_walk_rev(par, node, par.len() as nat))
}

/// One pass over the freshly expanded candidates from position `i` on: each
/// unvisited candidate is marked visited, recorded as a child of `curr`, and
/// pushed on the frontier with its heuristic cost.
pub open spec fn process_from(
    cands: Seq<ExprV>,
    i: int,
    curr: ExprV,
    vis: Seq<ExprV>,
    par: Seq<(ExprV, ExprV)>,
    fr: Seq<EdgeV>,
    hs: Seq<(u64, HeuristicKind)>,
) -> (Seq<ExprV>, Seq<(ExprV, ExprV)>, Seq<EdgeV>)
    decreases cands.len() - i,
{
    if i < 0 || i >= cands.len() {
        (vis, par, fr)
    } else {
        let c = cands[i];
        if vis.contains(c) {
            process_from(cands, i + 1, curr, vis, par, fr, hs)
        } else {
            process_from(
                cands,
                i + 1,
                curr,
                vis.push(c),
                par.push((c, curr)),
                fr.push((spec_estimate(hs, curr, c), c)),
                hs,
            )
        }
    }
}

/// The best-first search: pop the highest-priority edge, stop on the goal,
/// otherwise expand, enqueue the new candidates and recurse on the remaining
/// fuel. `None` on an empty frontier or exhausted fuel.
pub open spec fn spec_search(
    rules: Seq<RuleV>,
    hs: Seq<(u64, HeuristicKind)>,
    fr: Seq<EdgeV>,
    vis: Seq<ExprV>,
    par: Seq<(ExprV, ExprV)>,
    goal: ExprV,
    fuel: nat,
) -> Option<Seq<ExprV>>
    decreases fuel,
{
    if fuel == 0 {
        None
    } else if fr.len() == 0 {
        None
    } else {
        let i = pop_index(fr);
        let curr = fr[i].1;
        if curr == goal {
            Some(spec_reconstruct(par, curr))
        } else {
            let t = process_from(spec_expand(rules, curr), 0, curr, vis, par, fr.remove(i), hs);
            spec_search(rules, hs, t.2, t.0, t.1, goal, (fuel - 1) as nat)
        }
    }
}

/// The whole proof search: a one-element path when start and goal already
/// coincide, else the best-first search seeded with the start expression and
/// `budget + 1` pops of fuel.
pub open spec fn spec_prove(
    rules: Seq<RuleV>,
    hs: Seq<(u64, HeuristicKind)>,
    start: ExprV,
    goal: ExprV,
    budget: nat,
) -> Option<Seq<ExprV>> {
    if start == goal {
        Some(seq![start])
    } else {
        spec_search(rules, hs, seq![(0 as nat, start)], seq![start], Seq::empty(), goal, budget + 1)
    }
}


/// One mixing step of the structural hash: rotate, then fold in a child.
pub open spec fn hash_mix(h: u64, x: u64) -> u64 {
    ((h << 7) | (h >> 57)) ^ x
}

/// A structural hash of an expression model: equal models hash equally, so a
/// hash mismatch proves two expressions different. Only used to skip full
/// comparisons in the visited set.
pub open spec fn spec_hash(e: ExprV) -> u64
    decreases e, 1int, 0int,
    via spec_hash_decreases
{
    match e {
        ExprV::Ref { name } => (name as u64) ^ 0x9e3779b97f4a7c15u64,
        ExprV::Op { op, args } => spec_hash_args(0x517cc1b727220a95u64 ^ (op as u64), args, 0),
        ExprV::Forall { name, body } => hash_mix(0x2545f4914f6cdd1du64 ^ (name as u64), spec_hash(*body)),
        ExprV::Exists { name, body } => hash_mix(0x27d4eb2f165667c5u64 ^ (name as u64), spec_hash(*body)),
    }
}

#[via_fn]
proof fn spec_hash_decreases(e: ExprV) {
    match e {
        ExprV::Op { op, args } => {
            assert(decreases_to!(e => args));
        },
        _ => {},
    }
}

/// Folds the hashes of the arguments from position `i` into the accumulator.
pub open spec fn spec_hash_args(h: u64, args: Seq<ExprV>, i: int) -> u64
    decreases args, 0int, args.len() - i,
{
    if i < 0 || i >= args.len() {
        h
    } else {
        spec_hash_args(hash_mix(h, spec_hash(args[i])), args, i + 1)
    }
}

/// One mixing step, executed.
fn hash_mix_exec(h: u64, x: u64) -> (r: u64)
    ensures
        r == hash_mix(h, x),
{
    ((h << 7u64) | (h >> 57u64)) ^ x
}

/// Computes the structural hash, per [`spec_hash`].
fn hash_expr(e: &Expr) -> (r: u64)
    ensures
        r == spec_hash(e@),
    decreases *e,
{
    match e {
        Expr::Ref(x) => (x.name as u64) ^ 0x9e3779b97f4a7c15u64,
        Expr::PropOp(p) => {
            let ghost argsv = views_of(p.args@);
            let mut h: u64 = 0x517cc1b727220a95u64 ^ (p.op_id as u64);
            let mut i: usize = 0;
            while i < p.args.len()
                invariant
                    i <= p.args.len(),
                    argsv == views_of(p.args@),
                    spec_hash_args(h, argsv, i as int) == spec_hash_args(
                        0x517cc1b727220a95u64 ^ (p.op_id as u64),
                        argsv,
                        0,
                    ),
                decreases p.args.len() - i,
            {
                proof {
                    crate::measure::lemma_args_decrease(*e, i as int);
                    assert(argsv[i as int] == view_of(p.args@[i as int]));
                }
                let child = hash_expr(&p.args[i]);
                h = hash_mix_exec(h, child);
                i = i + 1;
            }
            h
        },
        Expr::Forall(q) => {
            let b = hash_expr(&q.expr);
            hash_mix_exec(0x2545f4914f6cdd1du64 ^ (q.name as u64), b)
        },
        Expr::Exists(q) => {
            let b = hash_expr(&q.expr);
            hash_mix_exec(0x27d4eb2f165667c5u64 ^ (q.name as u64), b)
        },
    }
}

/// Membership scan with a hash prefilter: a hash mismatch already proves the
/// expressions different, so the full comparison runs only on hash hits.
fn contains_expr_hashed(v: &Vec<Expr>, hashes: &Vec<u64>, x: &Expr, h: u64) -> (r: bool)
    requires
        hashes@.len() == v@.len(),
        forall|j: int| 0 <= j < v@.len() ==> hashes@[j] == spec_hash(view_of(#[trigger] v@[j])),
        h == spec_hash(x@),
    ensures
        r == views_of(v@).contains(x@),
{
    let mut i: usize = 0;
    while i < v.len()
        invariant
            i <= v.len(),
            forall|j: int| 0 <= j < i ==> views_of(v@)[j] != x@,
        decreases v.len() - i,
    {
        if hashes[i] == h && expr_eq(&v[i], x) {
            proof {
                assert(views_of(v@)[i as int] == x@);
            }
            return true;
        }
        proof {
            if view_of(v@[i as int]) == x@ {
                assert(hashes@[i as int] == h);
                assert(false);
            }
            assert(views_of(v@)[i as int] == view_of(v@[i as int]));
        }
        i = i + 1;
    }
    proof {
        if views_of(v@).contains(x@) {
            let j = choose|j: int| 0 <= j < views_of(v@).len() && views_of(v@)[j] == x@;
            assert(false);
        }
    }
    false
}

/// First-match scan of the parent list, per [`lookup`].
fn lookup_parent(par: &Vec<(Expr, Expr)>, k: &Expr) -> (r: Option<Expr>)
    ensures
        match lookup(pairs_of(par@), k@) {
            Some(p) => r is Some && r->0@ == p,
            None => r is None,
        },
{
    let mut i: usize = 0;
    while i < par.len()
        invariant
            i <= par.len(),
            lookup_from(pairs_of(par@), k@, 0) == lookup_from(pairs_of(par@), k@, i as int),
        decreases par.len() - i,
    {
        if expr_eq(&par[i].0, k) {
            proof {
                assert(pairs_of(par@)[i as int].0 == k@);
            }
            return Some(clone_expr(&par[i].1));
        }
        proof {
            assert(pairs_of(par@)[i as int].0 != k@);
        }
        i = i + 1;
    }
    None
}

/// The rewriter: the rule set, the heuristic list and the iteration budget of
/// the best-first search.
pub struct Rewriter {
    max_iter: usize,
    heuristics: Vec<(u64, HeuristicKind)>,
    rules: Vec<Rule>,
}

impl Rewriter {
    /// The models of the installed rules, in insertion order.
    pub closed spec fn rules_v(&self) -> Seq<RuleV> {
        rules_of(self.rules@)
    }

    /// The registered (weight, heuristic) pairs, in insertion order.
    pub closed spec fn heur_v(&self) -> Seq<(u64, HeuristicKind)> {
        self.heuristics@
    }

    /// The iteration budget.
    pub closed spec fn budget(&self) -> nat {
        self.max_iter as nat
    }

    /// Builds a rewriter with the given iteration budget and no rules or
    /// heuristics.
    pub fn new(max_iter: usize) -> (r: Self)
        ensures
            r.rules_v() == Seq::<RuleV>::empty(),
            r.heur_v() == Seq::<(u64, HeuristicKind)>::empty(),
            r.budget() == max_iter as nat,
    {
        let r = Rewriter { max_iter, heuristics: Vec::new(), rules: Vec::new() };
        proof {
            assert(r.rules_v() =~= Seq::<RuleV>::empty());
        }
        r
    }

    /// Registers a heuristic with its weight.
    pub fn add_heuristic(&mut self, weight: u64, heuristic: HeuristicKind)
        ensures
            final(self).heur_v() == old(self).heur_v().push((weight, heuristic)),
            final(self).rules_v() == old(self).rules_v(),
            final(self).budget() == old(self).budget(),
    {
        self.heuristics.push((weight, heuristic));
        proof {
            assert(self.rules_v() =~= old(self).rules_v());
        }
    }

    /// Installs a rewrite rule; rules are never removed.
    pub fn add_rule(&mut self, rule: Rule)
        ensures
            final(self).rules_v() == old(self).rules_v().push(rule.v()),
            final(self).heur_v() == old(self).heur_v(),
            final(self).budget() == old(self).budget(),
    {
        let ghost rv = rule.v();
        self.rules.push(rule);
        proof {
            assert(self.rules_v() =~= old(self).rules_v().push(rv));
        }
    }

    /// The rewrites of the whole of `expr`, one per matching rule, in rule
    /// order.
    pub fn expand_unify(&self, expr: &Expr) -> (out: Vec<Expr>)
        ensures
            views_of(out@) == spec_expand_unify(self.rules_v(), expr@),
    {
        let ghost rv = self.rules_v();
        let mut out: Vec<Expr> = Vec::new();
        let mut i: usize = 0;
        proof {
            assert(views_of(out@) =~= expand_unify_upto(rv, expr@, 0int));
        }
        while i < self.rules.len()
            invariant
                i <= self.rules.len(),
                views_of(out@) =~= expand_unify_upto(rv, expr@, i as int),
            decreases self.rules.len() - i,
        {
            let rule = &self.rules[i];
            proof {
                assert(rule.v() == rv[i as int]);
            }
            match unify(&rule.pattern, expr) {
                Some(sub) => {
                    let n = apply(&sub, &rule.expr);
                    out.push(n);
                    proof {
                        assert(views_of(out@) =~= expand_unify_upto(rv, expr@, i + 1int));
                    }
                },
                None => {
                    proof {
                        assert(views_of(out@) =~= expand_unify_upto(rv, expr@, i + 1int));
                    }
                },
            }
            i = i + 1;
        }
        proof {
            assert(views_of(out@) =~= spec_expand_unify(rv, expr@));
        }
        out
    }

    /// Every expression obtainable from `expr` by one rewrite at any
    /// position, per [`spec_expand`].
    pub fn expand_visit(&self, expr: &Expr) -> (out: Vec<Expr>)
        ensures
            views_of(out@) == spec_expand(self.rules_v(), expr@),
        decreases *expr,
    {
        let ghost rv = self.rules_v();
        let mut out = self.expand_unify(expr);
        match expr {
            Expr::PropOp(p) => {
                let ghost argsv = views_of(p.args@);
                let mut i: usize = 0;
                proof {
                    assert(views_of(out@) =~= spec_expand_unify(rv, expr@) + expand_args_upto(
                        rv,
                        p.op_id,
                        argsv,
                        0int,
                    ));
                }
                while i < p.args.len()
                    invariant
                        i <= p.args.len(),
                        views_of(out@) =~= spec_expand_unify(rv, expr@) + expand_args_upto(
                            rv,
                            p.op_id,
                            argsv,
                            i as int,
                        ),
                    decreases p.args.len() - i, 0int,
                {
                    proof {
                        crate::measure::lemma_args_decrease(*expr, i as int);
                    }
                    let inner = self.expand_visit(&p.args[i]);
                    let ghost innerv = views_of(inner@);
                    proof {
                        assert(innerv == spec_expand(rv, argsv[i as int])) by {
                            assert(argsv[i as int] == view_of(p.args@[i as int]));
                        }
                    }
                    let mut j: usize = 0;
                    while j < inner.len()
                        invariant
                            j <= inner.len(),
                            i < p.args.len(),
                            innerv == spec_expand(rv, argsv[i as int]),
                            innerv == views_of(inner@),
                            views_of(out@) =~= spec_expand_unify(rv, expr@) + expand_args_upto(
                                rv,
                                p.op_id,
                                argsv,
                                i as int,
                            ) + expand_at(rv, p.op_id, argsv, i as int).take(j as int),
                        decreases p.args.len() - i, inner.len() - j,
                    {
                        let mut new_args: Vec<Expr> = Vec::new();
                        let mut k: usize = 0;
                        while k < p.args.len()
                            invariant
                                k <= p.args.len(),
                                i < p.args.len(),
                                j < inner.len(),
                                innerv == views_of(inner@),
                                views_of(new_args@) =~= argsv.update(
                                    i as int,
                                    innerv[j as int],
                                ).take(k as int),
                            decreases p.args.len() - k,
                        {
                            let piece = if k == i {
                                clone_expr(&inner[j])
                            } else {
                                clone_expr(&p.args[k])
                            };
                            new_args.push(piece);
                            proof {
                                assert(views_of(new_args@) =~= argsv.update(
                                    i as int,
                                    innerv[j as int],
                                ).take(k + 1int));
                            }
                            k = k + 1;
                        }
                        let ghost nav = views_of(new_args@);
                        let candidate = Expr::PropOp(
                            PropOpExpr { op_id: p.op_id, args: new_args },
                        );
                        proof {
                            assert(candidate is PropOp);
                            assert(candidate@ is Op);
                            assert(candidate@->Op_args == nav);
                            assert(nav =~= argsv.update(i as int, innerv[j as int]));
                            assert(candidate@ == expand_at(rv, p.op_id, argsv, i as int)[j as int]);
                        }
                        let ghost pre = out@;
                        out.push(candidate);
                        proof {
                            let target = spec_expand_unify(rv, expr@) + expand_args_upto(
                                rv,
                                p.op_id,
                                argsv,
                                i as int,
                            ) + expand_at(rv, p.op_id, argsv, i as int).take(j + 1int);
                            assert(views_of(out@).len() == target.len());
                            assert forall|t: int| 0 <= t < target.len() implies views_of(out@)[t]
                                == target[t] by {
                                assert(views_of(out@)[t] == view_of(out@[t]));
                                if t < target.len() - 1 {
                                    assert(out@[t] == pre[t]);
                                    assert(view_of(pre[t]) == views_of(pre)[t]);
                                } else {
                                    assert(out@[t] == candidate);
                                    assert(target[t] == expand_at(
                                        rv,
                                        p.op_id,
                                        argsv,
                                        i as int,
                                    )[j as int]);
                                }
                            }
                            assert(views_of(out@) =~= target);
                        }
                        j = j + 1;
                    }
                    proof {
                        assert(expand_at(rv, p.op_id, argsv, i as int).take(
                            expand_at(rv, p.op_id, argsv, i as int).len() as int,
                        ) =~= expand_at(rv, p.op_id, argsv, i as int));
                        assert(views_of(out@) =~= spec_expand_unify(rv, expr@) + expand_args_upto(
                            rv,
                            p.op_id,
                            argsv,
                            i + 1int,
                        ));
                    }
                    i = i + 1;
                }
                proof {
                    assert(expr@ is Op);
                    assert(expr@->Op_args == argsv);
                    assert(views_of(out@) =~= spec_expand(rv, expr@));
                }
            },
            _ => {
                proof {
                    assert(views_of(out@) =~= spec_expand(rv, expr@));
                }
            },
        }
        out
    }

    /// Expansion of an expression by the installed rules; see
    /// [`Self::expand_visit`].
    pub fn expand(&self, expr: &Expr) -> (out: Vec<Expr>)
        ensures
            views_of(out@) == spec_expand(self.rules_v(), expr@),
    {
        self.expand_visit(expr)
    }

    /// The combined heuristic cost of a candidate, per [`spec_estimate`].
    pub fn estimate(&self, a: &Expr, b: &Expr) -> (r: u64)
        ensures
            r as nat == spec_estimate(self.heur_v(), a@, b@),
    {
        let ghost hv = self.heur_v();
        let mut sum: u64 = 0;
        let mut weights: u64 = 0;
        let mut i: usize = 0;
        while i < self.heuristics.len()
            invariant
                i <= self.heuristics.len(),
                sum as nat == est_sum(hv, a@, b@, i as int),
                weights as nat == est_weights(hv, i as int),
            decreases self.heuristics.len() - i,
        {
            let (w, h) = self.heuristics[i];
            let value = match h {
                HeuristicKind::SizeRatio => matching_size(a, b),
            };
            weights = sat_add_exec(weights, w);
            sum = sat_add_exec(sum, sat_mul_exec(w, value));
            i = i + 1;
        }
        if weights == 0 {
            0
        } else {
            sum / weights
        }
    }

    /// Best-first proof search from `start` to `goal`, per [`spec_prove`]:
    /// the exact path the model search finds, or `None` when the model search
    /// fails by frontier or budget exhaustion. The rewriter itself is left
    /// unchanged.
    pub fn prove(&mut self, start: &Expr, goal: &Expr) -> (r: Option<Vec<Expr>>)
        ensures
            *final(self) == *old(self),
            ({
                let res = spec_prove(
                    old(self).rules_v(),
                    old(self).heur_v(),
                    start@,
                    goal@,
                    old(self).budget(),
                );
                match r {
                    Some(path) => res is Some && views_of(path@) == res->Some_0,
                    None => res is None,
                }
            }),
    {
        let ghost rv = self.rules_v();
        let ghost hv = self.heur_v();
        if expr_eq(start, goal) {
            let mut path: Vec<Expr> = Vec::new();
            path.push(clone_expr(start));
            proof {
                assert(views_of(path@) =~= seq![start@]);
            }
            return Some(path);
        }
        let mut frontier: Vec<(u64, Expr)> = Vec::new();
        frontier.push((0, clone_expr(start)));
        let mut visited: Vec<Expr> = Vec::new();
        visited.push(clone_expr(start));
        let mut vhashes: Vec<u64> = Vec::new();
        vhashes.push(hash_expr(&visited[0]));
        let mut parents: Vec<(Expr, Expr)> = Vec::new();
        proof {
            assert(edges_of(frontier@) =~= seq![(0 as nat, start@)]);
            assert(views_of(visited@) =~= seq![start@]);
            assert(pairs_of(parents@) =~= Seq::<(ExprV, ExprV)>::empty());
        }
        let ghost target = spec_prove(rv, hv, start@, goal@, self.budget());
        let mut remaining: usize = self.max_iter;
        loop
            invariant
                *self == *old(self),
                self.rules_v() == rv,
                self.heur_v() == hv,
                start@ != goal@,
                vhashes@.len() == visited@.len(),
                forall|j: int|
                    0 <= j < visited@.len() ==> vhashes@[j] == spec_hash(
                        view_of(#[trigger] visited@[j]),
                    ),
                spec_search(
                    rv,
                    hv,
                    edges_of(frontier@),
                    views_of(visited@),
                    pairs_of(parents@),
                    goal@,
                    remaining as nat + 1,
                ) == target,
            decreases remaining,
        {
            let ghost fuel = remaining as nat + 1;
            let ghost frv = edges_of(frontier@);
            let ghost visv = views_of(visited@);
            let ghost parv = pairs_of(parents@);
            if frontier.len() == 0 {
                return None;
            }
            let mut best: usize = 0;
            let mut idx: usize = 1;
            while idx < frontier.len()
                invariant
                    1 <= idx <= frontier.len(),
                    best < idx,
                    frv == edges_of(frontier@),
                    best_from(frv, idx as int, best as int) == pop_index(frv),
                decreases frontier.len() - idx,
            {
                let cost_gt = frontier[idx].0 > frontier[best].0;
                let cost_eq = frontier[idx].0 == frontier[best].0;
                let expr_greater = matches!(
                    expr_cmp(&frontier[idx].1, &frontier[best].1),
                    Comparison::Greater
                );
                proof {
                    assert(frv[idx as int] == (
                        frontier@[idx as int].0 as nat,
                        view_of(frontier@[idx as int].1),
                    ));
                }
                if cost_gt || (cost_eq && expr_greater) {
                    proof {
                        assert(edge_gt(frv[idx as int], frv[best as int]));
                    }
                    best = idx;
                } else {
                    proof {
                        assert(!edge_gt(frv[idx as int], frv[best as int]));
                    }
                }
                idx = idx + 1;
            }
            proof {
                assert(best as int == pop_index(frv));
            }
            let popped = frontier.remove(best);
            let curr = popped.1;
            proof {
                assert(curr@ == frv[best as int].1);
                assert(edges_of(frontier@) =~= frv.remove(best as int));
            }
            if expr_eq(&curr, goal) {
                let ghost currv = curr@;
                let mut walk: Vec<Expr> = Vec::new();
                walk.push(clone_expr(&curr));
                let mut node = curr;
                let mut fuel_left: usize = parents.len();
                proof {
                    assert(views_of(walk@) =~= seq![currv]);
                }
                loop
                    invariant
                        parv == pairs_of(parents@),
                        fuel_left <= parents.len(),
                        views_of(walk@).len() >= 1,
                        views_of(walk@).last() == node@,
                        spec_walk_rev(parv, currv, parv.len() as nat) == views_of(
                            walk@,
                        ).drop_last() + spec_walk_rev(parv, node@, fuel_left as nat),
                    decreases fuel_left,
                {
                    let found = lookup_parent(&parents, &node);
                    match found {
                        None => {
                            proof {
                                assert(spec_walk_rev(parv, node@, fuel_left as nat) =~= seq![
                                    node@,
                                ]);
                            }
                            break;
                        },
                        Some(p) => {
                            if fuel_left == 0 {
                                proof {
                                    assert(spec_walk_rev(parv, node@, 0) =~= seq![node@]);
                                }
                                break;
                            }
                            let ghost wpre = views_of(walk@);
                            walk.push(clone_expr(&p));
                            proof {
                                assert(views_of(walk@) =~= wpre.push(p@));
                                assert(spec_walk_rev(parv, node@, fuel_left as nat) == seq![node@]
                                    + spec_walk_rev(parv, p@, (fuel_left - 1) as nat));
                                assert(spec_walk_rev(parv, currv, parv.len() as nat) =~= views_of(
                                    walk@,
                                ).drop_last() + spec_walk_rev(parv, p@, (fuel_left - 1) as nat));
                            }
                            node = p;
                            fuel_left = fuel_left - 1;
                        },
                    }
                }
                proof {
                    assert(spec_walk_rev(parv, currv, parv.len() as nat) =~= views_of(walk@));
                }
                let ghost walkv = views_of(walk@);
                let mut out: Vec<Expr> = Vec::new();
                let mut t: usize = walk.len();
                while t > 0
                    invariant
                        t <= walk.len(),
                        walkv == views_of(walk@),
                        views_of(out@).len() == walk@.len() - t,
                        forall|u: int|
                            0 <= u < views_of(out@).len() ==> views_of(out@)[u] == walkv[walkv.len()
                                - 1 - u],
                    decreases t,
                {
                    let ghost opre = views_of(out@);
                    let piece = clone_expr(&walk[t - 1]);
                    out.push(piece);
                    proof {
                        assert(views_of(out@) =~= opre.push(walkv[t - 1]));
                    }
                    t = t - 1;
                }
                proof {
                    assert(views_of(out@) =~= seq_rev(walkv));
                    assert(views_of(out@) == spec_reconstruct(parv, currv));
                }
                return Some(out);
            }
            let cands = self.expand(&curr);
            let ghost candsv = views_of(cands@);
            let ghost v0 = views_of(visited@);
            let ghost p0 = pairs_of(parents@);
            let ghost f0 = edges_of(frontier@);
            let mut ci: usize = 0;
            while ci < cands.len()
                invariant
                    ci <= cands.len(),
                    *self == *old(self),
                    self.heur_v() == hv,
                    candsv == views_of(cands@),
                    vhashes@.len() == visited@.len(),
                    forall|j: int|
                        0 <= j < visited@.len() ==> vhashes@[j] == spec_hash(
                            view_of(#[trigger] visited@[j]),
                        ),
                    process_from(
                        candsv,
                        ci as int,
                        curr@,
                        views_of(visited@),
                        pairs_of(parents@),
                        edges_of(frontier@),
                        hv,
                    ) == process_from(candsv, 0, curr@, v0, p0, f0, hv),
                decreases cands.len() - ci,
            {
                let cand = &cands[ci];
                proof {
                    assert(candsv[ci as int] == cand@);
                }
                let cand_hash = hash_expr(cand);
                if !contains_expr_hashed(&visited, &vhashes, cand, cand_hash) {
                    let cost = self.estimate(&curr, cand);
                    let ghost vpre = views_of(visited@);
                    let ghost ppre = pairs_of(parents@);
                    let ghost fpre = edges_of(frontier@);
                    visited.push(clone_expr(cand));
                    vhashes.push(cand_hash);
                    parents.push((clone_expr(cand), clone_expr(&curr)));
                    frontier.push((cost, clone_expr(cand)));
                    proof {
                        assert(views_of(visited@) =~= vpre.push(cand@));
                        assert(pairs_of(parents@) =~= ppre.push((cand@, curr@)));
                        assert(edges_of(frontier@) =~= fpre.push(
                            (spec_estimate(hv, curr@, cand@), cand@),
                        ));
                    }
                }
                ci = ci + 1;
            }
            proof {
                assert(process_from(candsv, candsv.len() as int, curr@, views_of(visited@),
                    pairs_of(parents@), edges_of(frontier@), hv) == (
                    views_of(visited@),
                    pairs_of(parents@),
                    edges_of(frontier@),
                ));
                assert(spec_search(rv, hv, edges_of(frontier@), views_of(visited@),
                    pairs_of(parents@), goal@, (fuel - 1) as nat) == target);
            }
            if remaining == 0 {
                return None;
            }
            remaining = remaining - 1;
        }
    }
}

/// Idempotent goal: proving an expression against itself yields the
/// one-element path at any budget.
pub proof fn lemma_prove_idempotent_goal(
    rules: Seq<RuleV>,
    hs: Seq<(u64, HeuristicKind)>,
    e: ExprV,
    budget: nat,
)
    ensures
        spec_prove(rules, hs, e, e, budget) == Some(seq![e]),
{
}

/// Fuel monotonicity of the search: once the search succeeds within some
/// fuel, more fuel returns the very same path.
proof fn lemma_search_fuel_monotone(
    rules: Seq<RuleV>,
    hs: Seq<(u64, HeuristicKind)>,
    fr: Seq<EdgeV>,
    vis: Seq<ExprV>,
    par: Seq<(ExprV, ExprV)>,
    goal: ExprV,
    fuel1: nat,
    fuel2: nat,
)
    requires
        fuel1 <= fuel2,
        spec_search(rules, hs, fr, vis, par, goal, fuel1) is Some,
    ensures
        spec_search(rules, hs, fr, vis, par, goal, fuel2) == spec_search(
            rules,
            hs,
            fr,
            vis,
            par,
            goal,
            fuel1,
        ),
    decreases fuel1,
{
    let i = pop_index(fr);
    let curr = fr[i].1;
    if curr == goal {
    } else {
        let t = process_from(spec_expand(rules, curr), 0, curr, vis, par, fr.remove(i), hs);
        lemma_search_fuel_monotone(
            rules,
            hs,
            t.2,
            t.0,
            t.1,
            goal,
            (fuel1 - 1) as nat,
            (fuel2 - 1) as nat,
        );
    }
}

/// Budget monotonicity: if the proof search succeeds with some budget, it
/// succeeds, with the same path, with any larger budget.
pub proof fn lemma_prove_budget_monotone(
    rules: Seq<RuleV>,
    hs: Seq<(u64, HeuristicKind)>,
    start: ExprV,
    goal: ExprV,
    b1: nat,
    b2: nat,
)
    requires
        b1 <= b2,
        spec_prove(rules, hs, start, goal, b1) is Some,
    ensures
        spec_prove(rules, hs, start, goal, b2) == spec_prove(rules, hs, start, goal, b1),
{
    if start != goal {
        lemma_search_fuel_monotone(
            rules,
            hs,
            seq![(0 as nat, start)],
            seq![start],
            Seq::empty(),
            goal,
            b1 + 1,
            b2 + 1,
        );
    }
}

/// A connected rewrite chain: each element is one of the expansions of its
/// predecessor.
pub open spec fn good_path(rules: Seq<RuleV>, p: Seq<ExprV>) -> bool {
    forall|i: int|
        0 <= i < p.len() - 1 ==> spec_expand(rules, #[trigger] p[i]).contains(p[i + 1])
}

/// The number of parent links from a node to a root, when the walk grounds
/// within `fuel` steps.
pub open spec fn walk_steps(par: Seq<(ExprV, ExprV)>, v: ExprV, fuel: nat) -> Option<nat>
    decreases fuel,
{
    match lookup(par, v) {
        None => Some(0),
        Some(p) => {
            if fuel == 0 {
                None
            } else {
                match walk_steps(par, p, (fuel - 1) as nat) {
                    Some(n) => Some(n + 1),
                    None => None,
                }
            }
        },
    }
}

/// The parent chain of `v` grounds at `start` and every link is an expansion
/// edge.
pub open spec fn walk_ok(
    rules: Seq<RuleV>,
    start: ExprV,
    par: Seq<(ExprV, ExprV)>,
    v: ExprV,
) -> bool {
    let w = spec_walk_rev(par, v, par.len() as nat);
    &&& walk_steps(par, v, par.len() as nat) is Some
    &&& w.last() == start
    &&& forall|t: int|
        0 <= t < w.len() - 1 ==> spec_expand(rules, w[t + 1]).contains(#[trigger] w[t])
}

/// The search state invariant: the frontier and the parent map mention only
/// visited expressions, and every visited expression has a grounded,
/// connected parent chain back to the start.
pub open spec fn wf_search(
    rules: Seq<RuleV>,
    start: ExprV,
    fr: Seq<EdgeV>,
    vis: Seq<ExprV>,
    par: Seq<(ExprV, ExprV)>,
) -> bool {
    &&& forall|j: int| 0 <= j < fr.len() ==> vis.contains((#[trigger] fr[j]).1)
    &&& forall|j: int|
        0 <= j < par.len() ==> vis.contains((#[trigger] par[j]).0) && vis.contains(par[j].1)
    &&& forall|j: int| 0 <= j < vis.len() ==> walk_ok(rules, start, par, #[trigger] vis[j])
}

/// Appending an entry to the parent list leaves every earlier lookup as it
/// was, and serves the new key only when it was absent.
proof fn lemma_lookup_push(par: Seq<(ExprV, ExprV)>, e: (ExprV, ExprV), k: ExprV, i: int)
    requires
        0 <= i <= par.len(),
    ensures
        lookup_from(par.push(e), k, i) == if lookup_from(par, k, i) is Some {
            lookup_from(par, k, i)
        } else if k == e.0 {
            Some(e.1)
        } else {
            None::<ExprV>
        },
    decreases par.len() - i,
{
    if i < par.len() {
        assert(par.push(e)[i] == par[i]);
        lemma_lookup_push(par, e, k, i + 1);
    } else {
        assert(par.push(e)[par.len() as int] == e);
        assert(lookup_from(par.push(e), k, i + 1) == None::<ExprV>);
    }
}

/// A found parent is one of the recorded pairs.
proof fn lemma_lookup_found(par: Seq<(ExprV, ExprV)>, k: ExprV, i: int)
    requires
        0 <= i <= par.len(),
        lookup_from(par, k, i) is Some,
    ensures
        exists|j: int|
            i <= j < par.len() && (#[trigger] par[j]).0 == k && par[j].1 == lookup_from(
                par,
                k,
                i,
            )->Some_0,
    decreases par.len() - i,
{
    if par[i].0 == k {
    } else {
        lemma_lookup_found(par, k, i + 1);
    }
}

/// Every node on a walk from a visited node is itself visited, provided the
/// parent map mentions only visited nodes.
proof fn lemma_walk_in_vis(
    vis: Seq<ExprV>,
    par: Seq<(ExprV, ExprV)>,
    v: ExprV,
    fuel: nat,
)
    requires
        forall|j: int|
            0 <= j < par.len() ==> vis.contains((#[trigger] par[j]).0) && vis.contains(par[j].1),
        vis.contains(v),
    ensures
        forall|t: int|
            0 <= t < spec_walk_rev(par, v, fuel).len() ==> vis.contains(
                #[trigger] spec_walk_rev(par, v, fuel)[t],
            ),
    decreases fuel,
{
    let w = spec_walk_rev(par, v, fuel);
    match lookup(par, v) {
        None => {
            assert(w =~= seq![v]);
        },
        Some(p) => {
            if fuel == 0 {
                assert(w =~= seq![v]);
            } else {
                lemma_lookup_found(par, v, 0);
                assert(vis.contains(p));
                lemma_walk_in_vis(vis, par, p, (fuel - 1) as nat);
                let wp = spec_walk_rev(par, p, (fuel - 1) as nat);
                assert(w =~= seq![v] + wp);
                assert forall|t: int| 0 <= t < w.len() implies vis.contains(#[trigger] w[t]) by {
                    if t > 0 {
                        assert(w[t] == wp[t - 1]);
                    }
                }
            }
        },
    }
}

/// A grounded walk is unchanged by extra fuel.
proof fn lemma_walk_fuel(par: Seq<(ExprV, ExprV)>, v: ExprV, f1: nat, f2: nat)
    requires
        f1 <= f2,
        walk_steps(par, v, f1) is Some,
    ensures
        walk_steps(par, v, f2) == walk_steps(par, v, f1),
        spec_walk_rev(par, v, f2) == spec_walk_rev(par, v, f1),
    decreases f1,
{
    match lookup(par, v) {
        None => {},
        Some(p) => {
            lemma_walk_fuel(par, p, (f1 - 1) as nat, (f2 - 1) as nat);
        },
    }
}

/// A grounded walk is unchanged by recording a child that does not lie on it.
proof fn lemma_walk_push(
    par: Seq<(ExprV, ExprV)>,
    c: ExprV,
    pr: ExprV,
    v: ExprV,
    fuel: nat,
)
    requires
        walk_steps(par, v, fuel) is Some,
        !spec_walk_rev(par, v, fuel).contains(c),
    ensures
        walk_steps(par.push((c, pr)), v, fuel) == walk_steps(par, v, fuel),
        spec_walk_rev(par.push((c, pr)), v, fuel) == spec_walk_rev(par, v, fuel),
    decreases fuel,
{
    let w = spec_walk_rev(par, v, fuel);
    assert(w[0] == v);
    assert(v != c);
    lemma_lookup_push(par, (c, pr), v, 0);
    match lookup(par, v) {
        None => {
            assert(lookup(par.push((c, pr)), v) is None);
        },
        Some(p) => {
            let wp = spec_walk_rev(par, p, (fuel - 1) as nat);
            assert(w =~= seq![v] + wp);
            assert forall|t: int| 0 <= t < wp.len() implies wp[t] != c by {
                assert(w[t + 1] == wp[t]);
            }
            assert(!wp.contains(c));
            lemma_walk_push(par, c, pr, p, (fuel - 1) as nat);
            assert(spec_walk_rev(par.push((c, pr)), v, fuel) =~= spec_walk_rev(par, v, fuel));
        },
    }
}

/// Processing the expanded candidates preserves the search invariant.
proof fn lemma_process_wf(
    rules: Seq<RuleV>,
    hs: Seq<(u64, HeuristicKind)>,
    cands: Seq<ExprV>,
    i: int,
    curr: ExprV,
    vis: Seq<ExprV>,
    par: Seq<(ExprV, ExprV)>,
    fr: Seq<EdgeV>,
    start: ExprV,
)
    requires
        0 <= i <= cands.len(),
        wf_search(rules, start, fr, vis, par),
        vis.contains(curr),
        forall|j: int| 0 <= j < cands.len() ==> spec_expand(rules, curr).contains(#[trigger] cands[j]),
    ensures
        ({
            let t = process_from(cands, i, curr, vis, par, fr, hs);
            wf_search(rules, start, t.2, t.0, t.1)
        }),
    decreases cands.len() - i,
{
    if i < cands.len() {
        let c = cands[i];
        if vis.contains(c) {
            lemma_process_wf(rules, hs, cands, i + 1, curr, vis, par, fr, start);
        } else {
            let vis2 = vis.push(c);
            let par2 = par.push((c, curr));
            let fr2 = fr.push((spec_estimate(hs, curr, c), c));
            assert forall|x: ExprV| vis.contains(x) implies vis2.contains(x) by {
                let j = choose|j: int| 0 <= j < vis.len() && vis[j] == x;
                assert(vis2[j] == x);
            }
            assert(vis2[vis.len() as int] == c);
            assert(vis2.contains(c));
            // frontier and parent entries stay visited
            assert forall|j: int| 0 <= j < fr2.len() implies vis2.contains(
                (#[trigger] fr2[j]).1,
            ) by {
                if j < fr.len() {
                    assert(fr2[j] == fr[j]);
                }
            }
            assert forall|j: int| 0 <= j < par2.len() implies vis2.contains((#[trigger] par2[j]).0)
                && vis2.contains(par2[j].1) by {
                if j < par.len() {
                    assert(par2[j] == par[j]);
                }
            }
            // walks of previously visited nodes are untouched
            assert forall|j: int| 0 <= j < vis2.len() implies walk_ok(
                rules,
                start,
                par2,
                #[trigger] vis2[j],
            ) by {
                if j < vis.len() {
                    let v = vis[j];
                    assert(walk_ok(rules, start, par, v));
                    lemma_walk_fuel(par, v, par.len() as nat, par2.len() as nat);
                    lemma_walk_in_vis(vis, par, v, par2.len() as nat);
                    assert(!spec_walk_rev(par, v, par2.len() as nat).contains(c)) by {
                        if spec_walk_rev(par, v, par2.len() as nat).contains(c) {
                            let t = choose|t: int|
                                0 <= t < spec_walk_rev(par, v, par2.len() as nat).len()
                                    && spec_walk_rev(par, v, par2.len() as nat)[t] == c;
                            assert(vis.contains(c));
                        }
                    }
                    lemma_walk_push(par, c, curr, v, par2.len() as nat);
                    assert(vis2[j] == v);
                    assert(spec_walk_rev(par2, v, par2.len() as nat) == spec_walk_rev(
                        par,
                        v,
                        par.len() as nat,
                    ));
                } else {
                    // the fresh node: one new link onto the walk of curr
                    assert(vis2[j] == c);
                    assert(walk_ok(rules, start, par, curr));
                    // c is not a recorded child, so its lookup finds the new entry
                    assert(lookup(par, c) is None) by {
                        if lookup(par, c) is Some {
                            lemma_lookup_found(par, c, 0);
                            assert(vis.contains(c));
                        }
                    }
                    lemma_lookup_push(par, (c, curr), c, 0);
                    assert(lookup(par2, c) == Some(curr));
                    // the walk of curr survives the push
                    lemma_walk_in_vis(vis, par, curr, par.len() as nat);
                    assert(!spec_walk_rev(par, curr, par.len() as nat).contains(c)) by {
                        if spec_walk_rev(par, curr, par.len() as nat).contains(c) {
                            let t = choose|t: int|
                                0 <= t < spec_walk_rev(par, curr, par.len() as nat).len()
                                    && spec_walk_rev(par, curr, par.len() as nat)[t] == c;
                            assert(vis.contains(c));
                        }
                    }
                    lemma_walk_push(par, c, curr, curr, par.len() as nat);
                    let wcurr = spec_walk_rev(par2, curr, par.len() as nat);
                    assert(wcurr == spec_walk_rev(par, curr, par.len() as nat));
                    let wc = spec_walk_rev(par2, c, par2.len() as nat);
                    assert(wc =~= seq![c] + wcurr);
                    assert(wc.last() == wcurr.last());
                    assert(wcurr.last() == start);
                    assert(walk_steps(par2, c, par2.len() as nat) is Some) by {
                        assert(walk_steps(par2, curr, par.len() as nat) == walk_steps(
                            par,
                            curr,
                            par.len() as nat,
                        ));
                    }
                    assert(spec_expand(rules, curr).contains(c));
                    assert forall|t: int| 0 <= t < wc.len() - 1 implies spec_expand(
                        rules,
                        wc[t + 1],
                    ).contains(#[trigger] wc[t]) by {
                        if t == 0 {
                            assert(wc[0] == c);
                            assert(wc[1] == wcurr[0]);
                            assert(wcurr[0] == curr);
                        } else {
                            assert(wc[t] == wcurr[t - 1]);
                            assert(wc[t + 1] == wcurr[t]);
                        }
                    }
                }
            }
            lemma_process_wf(rules, hs, cands, i + 1, curr, vis2, par2, fr2, start);
        }
    }
}

/// The search only returns connected paths from start to goal, in any
/// well-formed state.
proof fn lemma_search_sound(
    rules: Seq<RuleV>,
    hs: Seq<(u64, HeuristicKind)>,
    fr: Seq<EdgeV>,
    vis: Seq<ExprV>,
    par: Seq<(ExprV, ExprV)>,
    start: ExprV,
    goal: ExprV,
    fuel: nat,
    p: Seq<ExprV>,
)
    requires
        wf_search(rules, start, fr, vis, par),
        spec_search(rules, hs, fr, vis, par, goal, fuel) == Some(p),
    ensures
        p.len() >= 1,
        p[0] == start,
        p.last() == goal,
        good_path(rules, p),
    decreases fuel,
{
    let i = pop_index(fr);
    lemma_best_from_range(fr, 1, 0);
    let curr = fr[i].1;
    assert(vis.contains(curr));
    if curr == goal {
        let w = spec_walk_rev(par, curr, par.len() as nat);
        let j = choose|j: int| 0 <= j < vis.len() && vis[j] == curr;
        assert(walk_ok(rules, start, par, curr));
        assert(w[0] == curr);
        assert(p == seq_rev(w));
        assert(p.len() == w.len());
        assert(p[0] == w.last());
        assert(p.last() == w[0]);
        assert forall|t: int| 0 <= t < p.len() - 1 implies spec_expand(
            rules,
            #[trigger] p[t],
        ).contains(p[t + 1]) by {
            let l = w.len() as int;
            assert(p[t] == w[l - 1 - t]);
            assert(p[t + 1] == w[l - 2 - t]);
            assert(spec_expand(rules, w[(l - 2 - t) + 1]).contains(w[l - 2 - t]));
        }
    } else {
        let fr1 = fr.remove(i);
        assert forall|j: int| 0 <= j < fr1.len() implies vis.contains((#[trigger] fr1[j]).1) by {
            if j < i {
                assert(fr1[j] == fr[j]);
            } else {
                assert(fr1[j] == fr[j + 1]);
            }
        }
        let cands = spec_expand(rules, curr);
        lemma_process_wf(rules, hs, cands, 0, curr, vis, par, fr1, start);
        let t = process_from(cands, 0, curr, vis, par, fr1, hs);
        lemma_search_sound(rules, hs, t.2, t.0, t.1, start, goal, (fuel - 1) as nat, p);
    }
}

/// Path connectivity: a successful proof search returns a path that starts at
/// the start expression, ends at the goal, and moves by one expansion step at
/// a time.
pub proof fn lemma_prove_path_connected(
    rules: Seq<RuleV>,
    hs: Seq<(u64, HeuristicKind)>,
    start: ExprV,
    goal: ExprV,
    budget: nat,
    p: Seq<ExprV>,
)
    requires
        spec_prove(rules, hs, start, goal, budget) == Some(p),
    ensures
        p.len() >= 1,
        p[0] == start,
        p.last() == goal,
        good_path(rules, p),
{
    if start == goal {
        assert(p =~= seq![start]);
    } else {
        let vis = seq![start];
        let par = Seq::<(ExprV, ExprV)>::empty();
        let fr = seq![(0 as nat, start)];
        assert(vis[0] == start);
        assert(vis.contains(start));
        assert(wf_search(rules, start, fr, vis, par)) by {
            assert forall|j: int| 0 <= j < vis.len() implies walk_ok(
                rules,
                start,
                par,
                #[trigger] vis[j],
            ) by {
                assert(vis[j] == start);
                assert(lookup(par, start) is None);
                assert(spec_walk_rev(par, start, 0) =~= seq![start]);
            }
        }
        lemma_search_sound(rules, hs, fr, vis, par, start, goal, budget + 1, p);
    }
}

/// The model of splitting a conjecture body into equivalence goals: an `and`
/// application contributes the goals of each argument in order; an `equiv`
/// application of two arguments is one goal; any other body has none.
pub open spec fn spec_subgoals(e: ExprV) -> Option<Seq<(ExprV, ExprV)>>
    decreases e, 1int, 0int,
    via spec_subgoals_decreases
{
    match e {
        ExprV::Op { op, args } => {
            if op == crate::registry::AND_ID {
                spec_subgoals_args(args, 0)
            } else if op == crate::registry::EQUIV_ID && args.len() == 2 {
                Some(seq![(args[0], args[1])])
            } else {
                None
            }
        },
        _ => None,
    }
}

#[via_fn]
proof fn spec_subgoals_decreases(e: ExprV) {
    match e {
        ExprV::Op { op, args } => {
            assert(decreases_to!(e => args));
        },
        _ => {},
    }
}

/// The goals of the conjuncts from position `i` on, concatenated in order.
pub open spec fn spec_subgoals_args(args: Seq<ExprV>, i: int) -> Option<Seq<(ExprV, ExprV)>>
    decreases args, 0int, args.len() - i,
{
    if i < 0 || i >= args.len() {
        Some(Seq::empty())
    } else {
        match spec_subgoals(args[i]) {
            None => None,
            Some(first) => match spec_subgoals_args(args, i + 1) {
                None => None,
                Some(rest) => Some(first + rest),
            },
        }
    }
}

/// Splits a conjecture body into its ordered (left, right) equivalence goals,
/// per [`spec_subgoals`]; `None` when the body is not an `and`/`equiv` tree.
pub fn subgoals(body: &Expr) -> (r: Option<Vec<(Expr, Expr)>>)
    ensures
        match spec_subgoals(body@) {
            Some(gs) => r is Some && pairs_of(r->0@) == gs,
            None => r is None,
        },
    decreases *body,
{
    match body {
        Expr::PropOp(p) => {
            if p.op_id == crate::registry::AND_ID {
                let ghost argsv = views_of(p.args@);
                let mut out: Vec<(Expr, Expr)> = Vec::new();
                let mut i: usize = 0;
                proof {
                    assert(pairs_of(out@) =~= Seq::<(ExprV, ExprV)>::empty());
                }
                while i < p.args.len()
                    invariant
                        i <= p.args.len(),
                        argsv == views_of(p.args@),
                        match spec_subgoals_args(argsv, i as int) {
                            Some(rest) => spec_subgoals_args(argsv, 0) is Some && pairs_of(out@)
                                + rest == spec_subgoals_args(argsv, 0)->0,
                            None => spec_subgoals_args(argsv, 0) is None,
                        },
                    decreases p.args.len() - i,
                {
                    proof {
                        crate::measure::lemma_args_decrease(*body, i as int);
                        assert(argsv[i as int] == view_of(p.args@[i as int]));
                    }
                    let inner = subgoals(&p.args[i]);
                    match inner {
                        None => {
                            return None;
                        },
                        Some(pairs) => {
                            let ghost pairsv = pairs_of(pairs@);
                            let ghost base = pairs_of(out@);
                            let mut j: usize = 0;
                            proof {
                                assert(base + pairsv.take(0int) =~= base);
                            }
                            while j < pairs.len()
                                invariant
                                    j <= pairs.len(),
                                    pairsv == pairs_of(pairs@),
                                    pairs_of(out@) =~= base + pairsv.take(j as int),
                                decreases pairs.len() - j,
                            {
                                let ghost pre = pairs_of(out@);
                                let left = clone_expr(&pairs[j].0);
                                let right = clone_expr(&pairs[j].1);
                                out.push((left, right));
                                proof {
                                    assert(pairs_of(out@) =~= pre.push(pairsv[j as int]));
                                    assert(pairs_of(out@) =~= base + pairsv.take(j + 1int));
                                }
                                j = j + 1;
                            }
                            proof {
                                assert(pairsv.take(pairs@.len() as int) =~= pairsv);
                                assert(pairs_of(out@) =~= base + pairsv);
                            }
                        },
                    }
                    i = i + 1;
                }
                proof {
                    assert(spec_subgoals_args(argsv, p.args@.len() as int) == Some(
                        Seq::<(ExprV, ExprV)>::empty(),
                    ));
                    assert(pairs_of(out@) + Seq::<(ExprV, ExprV)>::empty() =~= pairs_of(out@));
                }
                Some(out)
            } else if p.op_id == crate::registry::EQUIV_ID && p.args.len() == 2 {
                let l = clone_expr(&p.args[0]);
                let rgt = clone_expr(&p.args[1]);
                let mut out: Vec<(Expr, Expr)> = Vec::new();
                out.push((l, rgt));
                proof {
                    assert(pairs_of(out@) =~= seq![
                        (view_of(p.args@[0]), view_of(p.args@[1])),
                    ]);
                    assert(views_of(p.args@)[0] == view_of(p.args@[0]));
                    assert(views_of(p.args@)[1] == view_of(p.args@[1]));
                }
                Some(out)
            } else {
                proof {
                    assert(views_of(p.args@).len() == p.args@.len());
                }
                None
            }
        },
        _ => None,
    }
}

} // verus!
