//! Tests of the interner, the truth tables, the unifier and the proof search.

use infera::ast::{expr_eq, Expr, Theorem};
use infera::cst::ParseError;
use infera::sexp_fol::Error as LoadError;
use infera::parser::Parser;
use infera::registry::{builtin_ops, AstMeta, AND_ID, EQUIV_ID, NOT_ID};
use infera::rewriter::{subgoals, HeuristicKind, Rewriter, Rule};
use infera::scanner::Scanner;
use infera::truth_table::TruthTable;
use infera::unify::{apply, unify};

fn setup() -> AstMeta {
    let mut meta = AstMeta::new();
    for op in builtin_ops() {
        meta.add_op_desc(op);
    }
    meta
}

fn parse_expr(text: &str, meta: &mut AstMeta) -> Expr {
    let scanner = Scanner::from_str(text);
    let mut parser = Parser::new(scanner);
    let sexp = parser.parse_sexp().unwrap();
    Expr::from_sexp(&sexp, meta).unwrap()
}

fn install_equiv(rw: &mut Rewriter, lhs: &str, rhs: &str, meta: &mut AstMeta) {
    let l = parse_expr(lhs, meta);
    let r = parse_expr(rhs, meta);
    let l2 = parse_expr(lhs, meta);
    let r2 = parse_expr(rhs, meta);
    rw.add_rule(Rule::new(l, r));
    rw.add_rule(Rule::new(r2, l2));
}

#[test]
fn interner_idempotence() {
    let mut meta = AstMeta::new();
    let a1 = meta.get_or_intern("alpha");
    let b1 = meta.get_or_intern("beta");
    let a2 = meta.get_or_intern("alpha");
    let b2 = meta.get_or_intern("beta");
    assert_eq!(a1, a2);
    assert_eq!(b1, b2);
    assert_ne!(a1, b1);
    assert_eq!(meta.resolve_name(a1).unwrap(), "alpha".to_string());
    assert_eq!(meta.resolve_name(b1).unwrap(), "beta".to_string());
    assert_eq!(meta.resolve_name(99), None);
}

#[test]
fn truth_table_round_trip() {
    for n in 0u32..5 {
        let size = 1usize << n;
        for i in 0..size {
            let values: Vec<bool> = (0..n as usize).map(|b| (i >> b) & 1 == 1).collect();
            let mut t = TruthTable::with_var_count(n);
            assert_eq!(t.get(values.as_slice()), false);
            t.set(values.as_slice(), true);
            assert_eq!(t.get(values.as_slice()), true);
            t.set(values.as_slice(), false);
            assert_eq!(t.get(values.as_slice()), false);
        }
    }
}

#[test]
fn truth_tables_distinguish_operators() {
    let meta = setup();
    let and_desc = meta.get_op_desc_with_id(AND_ID).unwrap();
    let equiv_desc = meta.get_op_desc_with_id(EQUIV_ID).unwrap();
    let not_desc = meta.get_op_desc_with_id(NOT_ID).unwrap();
    assert!(!and_desc.table.equals(&equiv_desc.table));
    assert!(!and_desc.table.equals(&not_desc.table));
    assert!(and_desc.table.equals(&and_desc.table));
    assert_eq!(and_desc.table.var_count(), 2);
    assert_eq!(not_desc.table.var_count(), 1);
    assert_eq!(and_desc.arity, 2);
    assert_eq!(and_desc.symbol, "and".to_string());
}

#[test]
fn registry_lookup_by_symbol() {
    let mut meta = setup();
    let and_name = meta.get_or_intern("and");
    let desc = meta.get_op_desc_with_symbol(and_name).unwrap();
    assert_eq!(desc.id, AND_ID);
    let other = meta.get_or_intern("frobnicate");
    assert!(meta.get_op_desc_with_symbol(other).is_none());
}

#[test]
fn unifier_mismatch_and_match() {
    let mut meta = setup();
    let pattern = parse_expr("(and a a)", &mut meta);
    let distinct = parse_expr("(and x y)", &mut meta);
    let same = parse_expr("(and x x)", &mut meta);
    assert!(unify(&pattern, &distinct).is_none());
    let sub = unify(&pattern, &same).unwrap();
    let x = parse_expr("x", &mut meta);
    let a_name = meta.get_or_intern("a");
    assert!(expr_eq(sub.get(&a_name).unwrap(), &x));
}

#[test]
fn unifier_soundness_on_match() {
    let mut meta = setup();
    let pattern = parse_expr("(=> a (or a b))", &mut meta);
    let subject = parse_expr("(=> (not p) (or (not p) q))", &mut meta);
    let sub = unify(&pattern, &subject).unwrap();
    let rebuilt = apply(&sub, &pattern);
    assert!(expr_eq(&rebuilt, &subject));
}

#[test]
fn substitution_identity_on_empty() {
    let mut meta = setup();
    let e = parse_expr("(and (not x) (or y z))", &mut meta);
    let no_bindings: infera::unify::Subst = std::collections::HashMap::new();
    let out = apply(&no_bindings, &e);
    assert!(expr_eq(&out, &e));
    assert_eq!(out, e);
}

#[test]
fn expansion_contains_trivial_rewrite() {
    let mut meta = setup();
    let mut rw = Rewriter::new(100);
    install_equiv(&mut rw, "(not (not a))", "a", &mut meta);
    let e = parse_expr("(not (not (and b c)))", &mut meta);
    let target = parse_expr("(and b c)", &mut meta);
    let out = rw.expand(&e);
    assert!(out.iter().any(|cand| expr_eq(cand, &target)));
}

#[test]
fn double_negation_proof() {
    let mut meta = setup();
    let mut rw = Rewriter::new(10000);
    rw.add_heuristic(1, HeuristicKind::SizeRatio);
    install_equiv(&mut rw, "(not (not a))", "a", &mut meta);
    let start = parse_expr("(not (not (and b c)))", &mut meta);
    let goal = parse_expr("(and b c)", &mut meta);
    let path = rw.prove(&start, &goal).expect("double negation should be provable");
    assert_eq!(path.len(), 2);
    assert!(expr_eq(&path[0], &start));
    assert!(expr_eq(&path[1], &goal));
}

#[test]
fn commutativity_of_and_proof() {
    let mut meta = setup();
    let mut rw = Rewriter::new(10000);
    rw.add_heuristic(1, HeuristicKind::SizeRatio);
    install_equiv(&mut rw, "(and a b)", "(and b a)", &mut meta);
    let start = parse_expr("(and x y)", &mut meta);
    let goal = parse_expr("(and y x)", &mut meta);
    let path = rw.prove(&start, &goal).expect("commutativity should be provable");
    assert_eq!(path.len(), 2);
    assert!(expr_eq(&path[0], &start));
    assert!(expr_eq(&path[1], &goal));
}

#[test]
fn unreachable_goal_fails() {
    let mut meta = setup();
    let mut rw = Rewriter::new(1000);
    rw.add_heuristic(1, HeuristicKind::SizeRatio);
    let start = parse_expr("a", &mut meta);
    let goal = parse_expr("b", &mut meta);
    assert!(rw.prove(&start, &goal).is_none());
}

#[test]
fn iteration_budget_hit() {
    let mut meta = setup();
    let mut rw = Rewriter::new(100);
    rw.add_heuristic(1, HeuristicKind::SizeRatio);
    install_equiv(&mut rw, "a", "(and a a)", &mut meta);
    let start = parse_expr("p", &mut meta);
    let goal = parse_expr("q", &mut meta);
    assert!(rw.prove(&start, &goal).is_none());
}

#[test]
fn idempotent_goal_is_one_step() {
    let mut meta = setup();
    let mut rw = Rewriter::new(0);
    let e = parse_expr("(and (or p q) r)", &mut meta);
    let same = parse_expr("(and (or p q) r)", &mut meta);
    let path = rw.prove(&e, &same).expect("an expression proves itself");
    assert_eq!(path.len(), 1);
    assert!(expr_eq(&path[0], &e));
}

#[test]
fn path_steps_are_expansions() {
    let mut meta = setup();
    let mut rw = Rewriter::new(10000);
    rw.add_heuristic(1, HeuristicKind::SizeRatio);
    install_equiv(&mut rw, "(not (not a))", "a", &mut meta);
    install_equiv(&mut rw, "(and a b)", "(and b a)", &mut meta);
    let start = parse_expr("(not (not (and x y)))", &mut meta);
    let goal = parse_expr("(and y x)", &mut meta);
    let path = rw.prove(&start, &goal).expect("provable in two rewrites");
    assert!(path.len() >= 2);
    assert!(expr_eq(&path[0], &start));
    assert!(expr_eq(&path[path.len() - 1], &goal));
    for i in 0..path.len() - 1 {
        let succs = rw.expand(&path[i]);
        assert!(succs.iter().any(|s| expr_eq(s, &path[i + 1])));
    }
}

#[test]
fn budget_monotonicity_observed() {
    let mut meta = setup();
    let mut small = Rewriter::new(50);
    small.add_heuristic(1, HeuristicKind::SizeRatio);
    install_equiv(&mut small, "(not (not a))", "a", &mut meta);
    let start = parse_expr("(not (not z))", &mut meta);
    let goal = parse_expr("z", &mut meta);
    let path_small = small.prove(&start, &goal).expect("provable with a small budget");
    let mut big = Rewriter::new(5000);
    big.add_heuristic(1, HeuristicKind::SizeRatio);
    install_equiv(&mut big, "(not (not a))", "a", &mut meta);
    let path_big = big.prove(&start, &goal).expect("provable with a larger budget");
    assert_eq!(path_small.len(), path_big.len());
    for i in 0..path_small.len() {
        assert!(expr_eq(&path_small[i], &path_big[i]));
    }
}

#[test]
fn conjunction_of_goals() {
    let mut meta = setup();
    let scanner = Scanner::from_str(
        "(defthm both (and (equiv (not (not p)) p) (equiv (and q r) (and r q))))",
    );
    let mut parser = Parser::new(scanner);
    let sexp = parser.parse_sexp().unwrap();
    let thm = Theorem::from_sexp(&sexp, &mut meta).unwrap();
    assert_eq!(meta.resolve_name(thm.name).unwrap(), "both".to_string());
    let goals = subgoals(&thm.body).expect("an and of equivalences splits");
    assert_eq!(goals.len(), 2);
    let mut rw = Rewriter::new(10000);
    rw.add_heuristic(1, HeuristicKind::SizeRatio);
    install_equiv(&mut rw, "(not (not a))", "a", &mut meta);
    install_equiv(&mut rw, "(and a b)", "(and b a)", &mut meta);
    for (l, r) in &goals {
        let path = rw.prove(l, r).expect("each subgoal is provable");
        assert!(expr_eq(&path[0], l));
        assert!(expr_eq(&path[path.len() - 1], r));
    }
}

#[test]
fn subgoals_reject_other_shapes() {
    let mut meta = setup();
    let bare = parse_expr("p", &mut meta);
    assert!(subgoals(&bare).is_none());
    let orex = parse_expr("(or p q)", &mut meta);
    assert!(subgoals(&orex).is_none());
}

#[test]
fn parser_round_trip_modulo_interning() {
    let mut meta = setup();
    let e = parse_expr("(=> (and x (or y z)) (not w))", &mut meta);
    let printed = e.to_sexp(&meta).emit_string();
    assert_eq!(printed, "(=> (and x (or y z)) (not w))".to_string());
    let reparsed = parse_expr(printed.as_str(), &mut meta);
    assert!(expr_eq(&reparsed, &e));
}

#[test]
fn quantifiers_parse_and_print_distinctly() {
    let mut meta = setup();
    let fa = parse_expr("(forall v (and v v))", &mut meta);
    let ex = parse_expr("(exists v (and v v))", &mut meta);
    assert!(matches!(fa, Expr::Forall(..)));
    assert!(matches!(ex, Expr::Exists(..)));
    assert_eq!(fa.to_sexp(&meta).emit_string(), "(forall v (and v v))".to_string());
    assert_eq!(ex.to_sexp(&meta).emit_string(), "(exists v (and v v))".to_string());
}

#[test]
fn matching_size_exact_value() {
    let mut meta = setup();
    let a = parse_expr("(and x y)", &mut meta);
    let b = parse_expr("x", &mut meta);
    assert_eq!(infera::rewriter::matching_size(&a, &b), 3000000);
    assert_eq!(infera::rewriter::matching_size(&b, &a), 333333);
    assert_eq!(a.len(), 3);
    assert_eq!(b.len(), 1);
}

#[test]
fn loader_rejects_bad_forms() {
    let mut meta = setup();
    let scanner = Scanner::from_str("(frobnicate x y) 5 (and)");
    let mut parser = Parser::new(scanner);
    let file = parser.parse_file().unwrap();
    assert!(matches!(
        Expr::from_sexp(&file.elements[0], &mut meta),
        Err(infera::sexp_fol::Error::UnexpectedPropOpKeyword)
    ));
    assert!(matches!(
        Expr::from_sexp(&file.elements[1], &mut meta),
        Err(infera::sexp_fol::Error::Unimplemented)
    ));
    assert!(matches!(
        Expr::from_sexp(&file.elements[2], &mut meta),
        Err(infera::sexp_fol::Error::InvalidSExp)
    ));
}

#[test]
fn theorem_loader_error_variants() {
    let mut meta = setup();
    let scanner = Scanner::from_str("(lemma x y) (defthm 5 y) (defthm) bare");
    let mut parser = Parser::new(scanner);
    let file = parser.parse_file().unwrap();
    assert!(matches!(
        Theorem::from_sexp(&file.elements[0], &mut meta),
        Err(LoadError::Convert(ParseError::Keyword(..)))
    ));
    assert!(matches!(
        Theorem::from_sexp(&file.elements[1], &mut meta),
        Err(LoadError::Convert(ParseError::Type(..)))
    ));
    assert!(matches!(
        Theorem::from_sexp(&file.elements[2], &mut meta),
        Err(LoadError::Convert(ParseError::Index(1)))
    ));
    assert!(matches!(
        Theorem::from_sexp(&file.elements[3], &mut meta),
        Err(LoadError::Convert(ParseError::Type(..)))
    ));
}
