use prolog::bindings::Bindings;
use prolog::builtins::{
    apply_builtin, builtin_add_2, builtin_call, builtin_cut_0, builtin_divide_2, builtin_equal_2,
    builtin_fail_0, builtin_greater_than_2, builtin_greater_than_or_equal_2, builtin_is_2,
    builtin_less_than_2, builtin_less_than_or_equal_2, builtin_multiply_2, builtin_nl_0,
    builtin_not_equal_2, builtin_subtract_2, builtin_write_1, lookup_builtin, simplify_term,
    BuiltinPredicate,
};
use prolog::solver::{Database, Outcome, Runtime};
use prolog::tree::{atom, compound, cons_list, empty_list, fact, integer, variable, Term};

fn binary(name: &str, l: Term, r: Term) -> Term {
    compound(name, vec![l, r])
}

fn one_fact() -> Database {
    Database::new(vec![fact(compound("foo", vec![atom("a"), atom("b")]))])
}

#[test]
fn lookup_finds_each_builtin_by_name_and_arity() {
    let a = || atom("a");
    assert_eq!(lookup_builtin(&atom("!")), Some(BuiltinPredicate::Cut));
    assert_eq!(lookup_builtin(&atom("fail")), Some(BuiltinPredicate::Fail));
    assert_eq!(lookup_builtin(&atom("nl")), Some(BuiltinPredicate::Nl));
    assert_eq!(lookup_builtin(&compound("write", vec![a()])), Some(BuiltinPredicate::Write));
    assert_eq!(lookup_builtin(&binary("is", a(), a())), Some(BuiltinPredicate::Is));
    assert_eq!(lookup_builtin(&binary("=", a(), a())), Some(BuiltinPredicate::Equal));
    assert_eq!(lookup_builtin(&binary("\\=", a(), a())), Some(BuiltinPredicate::NotEqual));
    assert_eq!(lookup_builtin(&binary("<", a(), a())), Some(BuiltinPredicate::LessThan));
    assert_eq!(lookup_builtin(&binary(">", a(), a())), Some(BuiltinPredicate::GreaterThan));
    assert_eq!(lookup_builtin(&binary("<=", a(), a())), Some(BuiltinPredicate::LessThanOrEqual));
    assert_eq!(lookup_builtin(&binary(">=", a(), a())), Some(BuiltinPredicate::GreaterThanOrEqual));
    assert_eq!(lookup_builtin(&binary("+", a(), a())), Some(BuiltinPredicate::Add));
    assert_eq!(lookup_builtin(&binary("-", a(), a())), Some(BuiltinPredicate::Subtract));
    assert_eq!(lookup_builtin(&binary("*", a(), a())), Some(BuiltinPredicate::Multiply));
    assert_eq!(lookup_builtin(&binary("/", a(), a())), Some(BuiltinPredicate::Divide));
}

#[test]
fn lookup_finds_call_at_every_arity() {
    assert_eq!(lookup_builtin(&atom("call")), Some(BuiltinPredicate::Call));
    assert_eq!(lookup_builtin(&compound("call", vec![atom("a")])), Some(BuiltinPredicate::Call));
    assert_eq!(
        lookup_builtin(&compound("call", vec![atom("a"), atom("b"), atom("c")])),
        Some(BuiltinPredicate::Call)
    );
}

#[test]
fn lookup_goes_by_arity_and_kind() {
    assert_eq!(lookup_builtin(&atom("foo")), None);
    assert_eq!(lookup_builtin(&atom("write")), None);
    assert_eq!(lookup_builtin(&atom("+")), None);
    assert_eq!(lookup_builtin(&compound("!", vec![atom("a")])), None);
    assert_eq!(lookup_builtin(&compound("write", vec![atom("a"), atom("b")])), None);
    assert_eq!(lookup_builtin(&compound("+", vec![atom("a")])), None);
    assert_eq!(
        lookup_builtin(&compound("is", vec![atom("a"), atom("b"), atom("c")])),
        None
    );
    assert_eq!(lookup_builtin(&variable("fail")), None);
    assert_eq!(lookup_builtin(&integer(1)), None);
    assert_eq!(lookup_builtin(&empty_list()), None);
    assert_eq!(lookup_builtin(&cons_list(atom("!"), empty_list())), None);
}

#[test]
fn cut_succeeds_with_true() {
    let b = Bindings::with("X", atom("a"));
    let p = builtin_cut_0(&atom("!"), &b, 7).unwrap();
    assert_eq!(p.result.to_string(), "true");
    assert_eq!(p.rule, 7);
    assert_eq!(p.bindings.get(&"X".to_string()).unwrap().to_string(), "a");
}

#[test]
fn fail_never_succeeds() {
    assert!(builtin_fail_0(&atom("fail"), &Bindings::empty(), 0).is_none());
}

#[test]
fn nl_and_write_append_to_the_output() {
    let mut rt = Runtime::new();
    let term = compound("write", vec![compound("f", vec![atom("a"), cons_list(integer(1), empty_list())])]);
    let p = builtin_write_1(&term, &Bindings::empty(), 3, &mut rt).unwrap();
    assert_eq!(p.result.to_string(), "true");
    assert_eq!(p.rule, 3);
    assert_eq!(rt.output, "f(a, [1])");
    let p = builtin_nl_0(&atom("nl"), &Bindings::empty(), 4, &mut rt).unwrap();
    assert_eq!(p.result.to_string(), "true");
    assert_eq!(p.rule, 4);
    assert_eq!(rt.output, "f(a, [1])\n");
    assert_eq!(rt.generation, 0);
}

#[test]
fn write_needs_an_argument() {
    let mut rt = Runtime::new();
    assert!(builtin_write_1(&atom("write"), &Bindings::empty(), 0, &mut rt).is_none());
    assert_eq!(rt.output, "");
}

#[test]
fn equality_is_structural_and_binds_nothing() {
    let b = Bindings::empty();
    assert!(builtin_equal_2(&binary("=", atom("a"), atom("a")), &b, 0).is_some());
    assert!(builtin_equal_2(&binary("=", atom("a"), atom("b")), &b, 0).is_none());
    assert!(builtin_equal_2(&binary("=", variable("X"), atom("a")), &b, 0).is_none());
    let p = builtin_equal_2(&binary("=", variable("X"), variable("X")), &b, 5).unwrap();
    assert_eq!(p.result.to_string(), "true");
    assert_eq!(p.rule, 5);
    assert!(p.bindings.get(&"X".to_string()).is_none());
    assert!(builtin_equal_2(&atom("="), &b, 0).is_none());
}

#[test]
fn inequality_is_the_negation_of_equality() {
    let b = Bindings::empty();
    assert!(builtin_not_equal_2(&binary("\\=", atom("a"), atom("a")), &b, 0).is_none());
    assert!(builtin_not_equal_2(&binary("\\=", atom("a"), atom("b")), &b, 0).is_some());
    assert!(builtin_not_equal_2(&binary("\\=", variable("X"), atom("a")), &b, 0).is_some());
    assert!(builtin_not_equal_2(&atom("\\="), &b, 0).is_none());
}

#[test]
fn comparisons_hold_of_integers() {
    let b = Bindings::empty();
    let t = |l: i64, r: i64| binary("op", integer(l), integer(r));
    assert!(builtin_less_than_2(&t(1, 2), &b, 0).is_some());
    assert!(builtin_less_than_2(&t(2, 2), &b, 0).is_none());
    assert!(builtin_less_than_2(&t(3, 2), &b, 0).is_none());
    assert!(builtin_greater_than_2(&t(3, 2), &b, 0).is_some());
    assert!(builtin_greater_than_2(&t(2, 2), &b, 0).is_none());
    assert!(builtin_greater_than_2(&t(-3, 2), &b, 0).is_none());
    assert!(builtin_less_than_or_equal_2(&t(2, 2), &b, 0).is_some());
    assert!(builtin_less_than_or_equal_2(&t(1, 2), &b, 0).is_some());
    assert!(builtin_less_than_or_equal_2(&t(3, 2), &b, 0).is_none());
    assert!(builtin_greater_than_or_equal_2(&t(2, 2), &b, 0).is_some());
    assert!(builtin_greater_than_or_equal_2(&t(3, 2), &b, 0).is_some());
    assert!(builtin_greater_than_or_equal_2(&t(1, 2), &b, 0).is_none());
    assert_eq!(builtin_less_than_2(&t(1, 2), &b, 9).unwrap().result.to_string(), "true");
    assert_eq!(builtin_less_than_2(&t(1, 2), &b, 9).unwrap().rule, 9);
}

#[test]
fn comparisons_fail_on_other_terms() {
    let b = Bindings::empty();
    assert!(builtin_less_than_2(&binary("<", atom("a"), integer(2)), &b, 0).is_none());
    assert!(builtin_less_than_2(&binary("<", integer(1), variable("X")), &b, 0).is_none());
    assert!(builtin_greater_than_2(&binary(">", atom("b"), atom("a")), &b, 0).is_none());
    assert!(builtin_less_than_or_equal_2(&atom("<="), &b, 0).is_none());
    assert!(builtin_greater_than_or_equal_2(&compound(">=", vec![integer(1)]), &b, 0).is_none());
}

#[test]
fn arithmetic_gives_exact_integers() {
    let b = Bindings::empty();
    let t = |l: i64, r: i64| binary("op", integer(l), integer(r));
    assert_eq!(builtin_add_2(&t(2, 3), &b, 1).unwrap().result.to_string(), "5");
    assert_eq!(builtin_add_2(&t(2, 3), &b, 1).unwrap().rule, 1);
    assert_eq!(builtin_add_2(&t(-2, -3), &b, 0).unwrap().result.to_string(), "-5");
    assert_eq!(builtin_subtract_2(&t(2, 3), &b, 0).unwrap().result.to_string(), "-1");
    assert_eq!(builtin_subtract_2(&t(3, 1), &b, 0).unwrap().result.to_string(), "2");
    assert_eq!(builtin_multiply_2(&t(6, 7), &b, 0).unwrap().result.to_string(), "42");
    assert_eq!(builtin_multiply_2(&t(-6, 7), &b, 0).unwrap().result.to_string(), "-42");
    assert_eq!(builtin_divide_2(&t(7, 2), &b, 0).unwrap().result.to_string(), "3");
    assert_eq!(builtin_divide_2(&t(-7, 2), &b, 0).unwrap().result.to_string(), "-3");
    assert_eq!(builtin_divide_2(&t(7, -2), &b, 0).unwrap().result.to_string(), "-3");
    assert_eq!(builtin_divide_2(&t(-7, -2), &b, 0).unwrap().result.to_string(), "3");
    assert_eq!(builtin_divide_2(&t(0, 5), &b, 0).unwrap().result.to_string(), "0");
    assert_eq!(builtin_divide_2(&t(6, 3), &b, 0).unwrap().result.to_string(), "2");
}

#[test]
fn arithmetic_fails_on_overflow_and_division_by_zero() {
    let b = Bindings::empty();
    let t = |l: i64, r: i64| binary("op", integer(l), integer(r));
    assert!(builtin_add_2(&t(i64::MAX, 1), &b, 0).is_none());
    assert!(builtin_add_2(&t(i64::MIN, -1), &b, 0).is_none());
    assert!(builtin_subtract_2(&t(i64::MIN, 1), &b, 0).is_none());
    assert!(builtin_multiply_2(&t(i64::MAX, 2), &b, 0).is_none());
    assert!(builtin_divide_2(&t(1, 0), &b, 0).is_none());
    assert!(builtin_divide_2(&t(i64::MIN, -1), &b, 0).is_none());
    assert_eq!(
        builtin_add_2(&t(i64::MAX, 0), &b, 0).unwrap().result.to_string(),
        "9223372036854775807"
    );
    assert_eq!(
        builtin_divide_2(&t(i64::MIN, 1), &b, 0).unwrap().result.to_string(),
        "-9223372036854775808"
    );
}

#[test]
fn arithmetic_fails_on_other_terms() {
    let b = Bindings::empty();
    assert!(builtin_add_2(&binary("+", atom("a"), integer(1)), &b, 0).is_none());
    assert!(builtin_add_2(&binary("+", integer(1), binary("+", integer(2), integer(3))), &b, 0).is_none());
    assert!(builtin_subtract_2(&binary("-", variable("N"), integer(1)), &b, 0).is_none());
    assert!(builtin_multiply_2(&atom("*"), &b, 0).is_none());
    assert!(builtin_divide_2(&compound("/", vec![integer(1)]), &b, 0).is_none());
}

#[test]
fn is_evaluates_and_unifies() {
    let db = one_fact();
    let mut rt = Runtime::new();
    let goal = binary("is", variable("M"), binary("-", integer(3), integer(1)));
    match builtin_is_2(&db, &goal, &Bindings::with("K", atom("k")), 1, &mut rt, 8) {
        Outcome::Solved(p) => {
            assert_eq!(p.result.to_string(), "2");
            assert_eq!(p.rule, 1);
            assert_eq!(p.bindings.get(&"M".to_string()).unwrap().to_string(), "2");
            assert_eq!(p.bindings.get(&"K".to_string()).unwrap().to_string(), "k");
        }
        other => panic!("{:?}", other),
    }
}

#[test]
fn is_fails_where_the_sides_differ_or_nothing_evaluates() {
    let db = one_fact();
    let mut rt = Runtime::new();
    let b = Bindings::empty();
    let differ = binary("is", integer(5), binary("+", integer(1), integer(1)));
    assert!(matches!(builtin_is_2(&db, &differ, &b, 1, &mut rt, 8), Outcome::Failed));
    let same = binary("is", integer(2), binary("+", integer(1), integer(1)));
    assert!(matches!(builtin_is_2(&db, &same, &b, 1, &mut rt, 8), Outcome::Solved(_)));
    let ill = binary("is", variable("X"), binary("+", atom("a"), integer(1)));
    assert!(matches!(builtin_is_2(&db, &ill, &b, 1, &mut rt, 8), Outcome::Failed));
    let conflict = binary("is", variable("X"), integer(2));
    let bound = Bindings::with("X", integer(3));
    assert!(matches!(builtin_is_2(&db, &conflict, &bound, 1, &mut rt, 8), Outcome::Failed));
    assert!(matches!(builtin_is_2(&db, &atom("is"), &b, 1, &mut rt, 8), Outcome::Failed));
    assert!(matches!(builtin_is_2(&db, &same, &b, 1, &mut rt, 0), Outcome::Exhausted));
}

#[test]
fn is_takes_a_plain_term_as_its_value() {
    let db = one_fact();
    let mut rt = Runtime::new();
    let goal = binary("is", variable("X"), atom("a"));
    match builtin_is_2(&db, &goal, &Bindings::empty(), 1, &mut rt, 8) {
        Outcome::Solved(p) => {
            assert_eq!(p.result.to_string(), "a");
            assert_eq!(p.bindings.get(&"X".to_string()).unwrap().to_string(), "a");
        }
        other => panic!("{:?}", other),
    }
}

#[test]
fn call_builds_a_goal_and_proves_it() {
    let db = one_fact();
    let mut rt = Runtime::new();
    let b = Bindings::empty();
    let goal = compound("call", vec![atom("foo"), atom("a"), variable("X")]);
    match builtin_call(&db, &goal, &b, 1, &mut rt, 8) {
        Outcome::Solved(p) => {
            assert_eq!(p.result.to_string(), "foo(a, b)");
            assert_eq!(p.rule, 0);
        }
        other => panic!("{:?}", other),
    }
    let goal = compound("call", vec![compound("foo", vec![atom("a")]), atom("b")]);
    match builtin_call(&db, &goal, &b, 1, &mut rt, 8) {
        Outcome::Solved(p) => assert_eq!(p.result.to_string(), "foo(a, b)"),
        other => panic!("{:?}", other),
    }
    let goal = compound("call", vec![compound("foo", vec![atom("a"), atom("c")])]);
    assert!(matches!(builtin_call(&db, &goal, &b, 1, &mut rt, 8), Outcome::Failed));
}

#[test]
fn call_of_an_atom_alone_proves_the_atom() {
    let db = Database::new(vec![fact(atom("thing"))]);
    let mut rt = Runtime::new();
    let goal = compound("call", vec![atom("thing")]);
    match builtin_call(&db, &goal, &Bindings::empty(), 1, &mut rt, 8) {
        Outcome::Solved(p) => assert_eq!(p.result.to_string(), "thing"),
        other => panic!("{:?}", other),
    }
}

#[test]
fn call_fails_on_what_is_no_goal() {
    let db = one_fact();
    let mut rt = Runtime::new();
    let b = Bindings::empty();
    assert!(matches!(builtin_call(&db, &atom("call"), &b, 1, &mut rt, 8), Outcome::Failed));
    let goal = compound("call", vec![variable("G"), atom("a")]);
    assert!(matches!(builtin_call(&db, &goal, &b, 1, &mut rt, 8), Outcome::Failed));
    let goal = compound("call", vec![integer(1)]);
    assert!(matches!(builtin_call(&db, &goal, &b, 1, &mut rt, 8), Outcome::Failed));
}

#[test]
fn apply_dispatches_to_the_builtin() {
    let db = one_fact();
    let mut rt = Runtime::new();
    let b = Bindings::empty();
    let sum = binary("+", integer(40), integer(2));
    match apply_builtin(BuiltinPredicate::Add, &db, &sum, &b, 1, &mut rt, 4) {
        Outcome::Solved(p) => assert_eq!(p.result.to_string(), "42"),
        other => panic!("{:?}", other),
    }
    assert!(matches!(
        apply_builtin(BuiltinPredicate::Fail, &db, &atom("fail"), &b, 1, &mut rt, 4),
        Outcome::Failed
    ));
    assert!(matches!(
        apply_builtin(BuiltinPredicate::Nl, &db, &atom("nl"), &b, 1, &mut rt, 4),
        Outcome::Solved(_)
    ));
    assert_eq!(rt.output, "\n");
}

#[test]
fn simplify_applies_builtins_until_none_is_named() {
    let db = one_fact();
    let mut rt = Runtime::new();
    let b = Bindings::with("K", atom("k"));
    match simplify_term(&db, &binary("*", integer(6), integer(7)), &b, 2, &mut rt, 4) {
        Outcome::Solved(p) => {
            assert_eq!(p.result.to_string(), "42");
            assert_eq!(p.rule, 2);
            assert_eq!(p.bindings.get(&"K".to_string()).unwrap().to_string(), "k");
        }
        other => panic!("{:?}", other),
    }
    match simplify_term(&db, &compound("f", vec![variable("X")]), &b, 2, &mut rt, 0) {
        Outcome::Solved(p) => {
            assert_eq!(p.result.to_string(), "f(X)");
            assert_eq!(p.rule, 2);
        }
        other => panic!("{:?}", other),
    }
    assert!(matches!(
        simplify_term(&db, &binary("+", atom("a"), integer(1)), &b, 2, &mut rt, 4),
        Outcome::Failed
    ));
    assert!(matches!(
        simplify_term(&db, &binary("<", integer(1), integer(2)), &b, 2, &mut rt, 0),
        Outcome::Exhausted
    ));
    match simplify_term(&db, &binary("<", integer(1), integer(2)), &b, 2, &mut rt, 1) {
        Outcome::Solved(p) => assert_eq!(p.result.to_string(), "true"),
        other => panic!("{:?}", other),
    }
}
