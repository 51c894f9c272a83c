use prolog::parser::{parse, parse_query};
use prolog::solver::{
    is_atom_of, solve_expression, Database, Outcome, Partial, Query, Runtime, DEFAULT_DEPTH,
};
use prolog::bindings::Bindings;
use prolog::tree::{atom, compound, conjunct, variable, Expr};

fn database(program: &str) -> Database {
    Database::new(parse(program).unwrap())
}

fn ask(program: &str, query: &str) -> Option<Partial> {
    Query::new(parse_query(query).unwrap()).solve(&database(program))
}

fn ask_from(program: &str, query: &str, at: usize) -> Option<Partial> {
    Query::new(parse_query(query).unwrap()).solve_from(&database(program), at)
}

#[test]
fn a_fact_answers_with_the_instantiated_goal() {
    let p = ask("likes(mary, wine).", "likes(mary, X).").unwrap();
    assert_eq!(p.result.to_string(), "likes(mary, wine)");
    assert_eq!(p.rule, 0);
    assert_eq!(p.bindings.get(&"X".to_string()).unwrap().to_string(), "wine");
}

#[test]
fn no_clause_means_no_answer() {
    assert!(ask("likes(mary, wine).", "likes(john, X).").is_none());
    assert!(ask("likes(mary, wine).", "hates(mary, X).").is_none());
    assert!(ask("", "likes(mary, X).").is_none());
}

#[test]
fn clauses_are_tried_in_order() {
    let program = "p(a). p(b). q(c). p(d).";
    assert_eq!(ask(program, "p(X).").unwrap().result.to_string(), "p(a)");
    assert_eq!(ask(program, "q(X).").unwrap().rule, 2);
}

#[test]
fn asking_again_enumerates_every_answer_once() {
    let program = "p(a). q(x). p(b). p(c). q(y).";
    let mut cursor = 0;
    let mut answers = vec![];
    let mut rules = vec![];
    loop {
        match ask_from(program, "p(X).", cursor) {
            Some(p) => {
                assert!(p.rule >= cursor);
                answers.push(p.result.to_string());
                rules.push(p.rule);
                cursor = p.rule + 1;
            }
            None => break,
        }
    }
    assert_eq!(answers, vec!["p(a)", "p(b)", "p(c)"]);
    assert_eq!(rules, vec![0, 2, 3]);
}

#[test]
fn past_the_last_clause_there_is_no_answer() {
    let program = "p(a). p(b).";
    assert!(ask_from(program, "p(X).", 2).is_none());
    assert!(ask_from(program, "p(X).", 3).is_none());
    assert!(ask_from(program, "p(X).", usize::MAX).is_none());
    assert!(ask_from(program, "1 < 2.", 2).is_none());
}

#[test]
fn a_rule_answers_through_its_body() {
    let program = "parent(homer, bart). parent(marge, bart). child(C, P) :- parent(P, C).";
    let p = ask(program, "child(bart, Who).").unwrap();
    assert_eq!(p.result.to_string(), "child(bart, homer)");
    assert_eq!(p.rule, 2);
}

#[test]
fn a_conjunction_backtracks_into_its_left_operand() {
    let program = "p(a). p(b). p(c). q(c). r(X) :- p(X), q(X).";
    assert_eq!(ask(program, "r(X).").unwrap().result.to_string(), "r(c)");
    assert!(ask("p(a). p(b). q(c). r(X) :- p(X), q(X).", "r(X).").is_none());
}

#[test]
fn unbound_variables_carry_their_generation() {
    let p = ask("foo(Y).", "foo(X).").unwrap();
    assert_eq!(p.result.to_string(), "foo(Y_0)");
    let p = ask("bar. bar. foo(Y).", "foo(X).").unwrap();
    assert_eq!(p.result.to_string(), "foo(Y_2)");
}

#[test]
fn recursive_activations_do_not_alias() {
    let program = "len([], 0). len([H|T], s(N)) :- len(T, N).";
    let p = ask(program, "len([a, b, c], L).").unwrap();
    assert_eq!(p.result.to_string(), "len([a, b, c], s(s(s(0))))");
}

#[test]
fn builtin_goals_answer_past_the_end() {
    let p = ask("thing.", "1 < 2.").unwrap();
    assert_eq!(p.result.to_string(), "true");
    assert_eq!(p.rule, 1);
    assert!(ask("thing.", "2 < 1.").is_none());
    assert!(ask("", "1 < 2.").is_none());
    let p = ask("a. b. c.", "X is 2 + 3.").unwrap();
    assert_eq!(p.result.to_string(), "5");
    assert_eq!(p.rule, 3);
    assert_eq!(p.bindings.get(&"X".to_string()).unwrap().to_string(), "5");
}

#[test]
fn equality_goals_compare_and_do_not_bind() {
    assert!(ask("thing.", "a = a.").is_some());
    assert!(ask("thing.", "a = b.").is_none());
    assert!(ask("thing.", "X = a.").is_none());
    assert!(ask("thing.", "X \\= a.").is_some());
    assert!(ask("same(X, Y) :- X = Y.", "same(a, a).").is_some());
    assert!(ask("same(X, Y) :- X = Y.", "same(a, b).").is_none());
}

#[test]
fn the_cut_commits_its_conjunction() {
    let program = "foo. not(X) :- X, !, fail.";
    assert!(ask(program, "not(foo).").is_none());
    assert!(ask(program, "not(bar).").is_none());
}

#[test]
fn the_cut_does_not_prune_the_clauses_of_its_parent() {
    let program = "t :- !, fail. t.";
    let p = ask(program, "t.").unwrap();
    assert_eq!(p.rule, 1);
}

#[test]
fn a_cut_on_the_left_tries_the_right_operand_once() {
    let db = database("p(a). p(b). q(b).");
    let cut_first = conjunct(Expr::from(atom("!")), Expr::from(compound("zap", vec![atom("a")])));
    let mut rt = Runtime::new();
    let outcome = solve_expression(&db, &Bindings::empty(), &cut_first, 0, &mut rt, 16);
    assert!(matches!(outcome, Outcome::Failed));
    assert_eq!(rt.generation, 3);

    let retried = conjunct(
        Expr::from(compound("p", vec![variable("X")])),
        Expr::from(compound("q", vec![variable("X")])),
    );
    let mut rt = Runtime::new();
    match solve_expression(&db, &Bindings::empty(), &retried, 0, &mut rt, 16) {
        Outcome::Solved(p) => {
            assert_eq!(p.result.to_string(), "q(b)");
            assert_eq!(p.bindings.get(&"X".to_string()).unwrap().to_string(), "b");
        }
        other => panic!("{:?}", other),
    }
}

#[test]
fn is_atom_of_looks_at_one_goal() {
    assert!(is_atom_of(&Expr::from(atom("!")), "!"));
    assert!(is_atom_of(&Expr::from(compound("!", vec![atom("a")])), "!"));
    assert!(!is_atom_of(&Expr::from(atom("fail")), "!"));
    assert!(!is_atom_of(&Expr::from(variable("!")), "!"));
    assert!(!is_atom_of(&conjunct(Expr::from(atom("!")), Expr::from(atom("!"))), "!"));
    assert!(is_atom_of(&Expr::from(atom("fail")), "fail"));
}

#[test]
fn written_text_is_collected() {
    let db = database("greet(X) :- write(hello), write(X), nl, write([1, 2]).");
    let mut rt = Runtime::new();
    let q = Query::new(parse_query("greet(world).").unwrap());
    assert!(matches!(q.solve_within(&db, 0, &mut rt, 64), Outcome::Solved(_)));
    assert_eq!(rt.output, "helloworld\n[1, 2]");
    assert_eq!(rt.generation, 1);
}

#[test]
fn the_generations_go_on_from_the_runtime() {
    let db = database("foo(Y).");
    let mut rt = Runtime::new();
    rt.generation = 41;
    let q = Query::new(parse_query("foo(X).").unwrap());
    match q.solve_within(&db, 0, &mut rt, 64) {
        Outcome::Solved(p) => assert_eq!(p.result.to_string(), "foo(Y_41)"),
        other => panic!("{:?}", other),
    }
    assert_eq!(rt.generation, 42);
    rt.generation = u64::MAX;
    assert!(matches!(q.solve_within(&db, 0, &mut rt, 64), Outcome::Exhausted));
}

#[test]
fn a_search_without_end_is_given_up() {
    let db = database("loop(X) :- loop(X).");
    let q = Query::new(parse_query("loop(a).").unwrap());
    let mut rt = Runtime::new();
    assert!(matches!(q.solve_within(&db, 0, &mut rt, 100), Outcome::Exhausted));
    assert!(q.solve(&db).is_none());
    assert!(matches!(q.solve_within(&db, 0, &mut Runtime::new(), 0), Outcome::Exhausted));
    assert_eq!(DEFAULT_DEPTH, 2048);
}

#[test]
fn depth_counts_nested_goals() {
    let db = database("a :- b. b :- c. c.");
    let q = Query::new(parse_query("a.").unwrap());
    assert!(matches!(q.solve_within(&db, 0, &mut Runtime::new(), 3), Outcome::Solved(_)));
    assert!(matches!(q.solve_within(&db, 0, &mut Runtime::new(), 2), Outcome::Exhausted));
}

#[test]
fn meta_call_proves_the_built_goal() {
    let program = "likes(mary, wine). try(X) :- call(likes, mary, X).";
    let p = ask(program, "try(What).").unwrap();
    assert_eq!(p.result.to_string(), "try(wine)");
}

#[test]
fn ill_typed_arithmetic_is_a_plain_failure() {
    assert!(ask("thing.", "X is foo + 1.").is_none());
    assert!(ask("thing.", "a < 1.").is_none());
    assert!(ask("half(X, Y) :- Y is /(X, 0).", "half(4, Y).").is_none());
    assert_eq!(
        ask("half(X, Y) :- Y is /(X, 2).", "half(9, Y).").unwrap().result.to_string(),
        "half(9, 4)"
    );
}

const QUICKSORT: &str = "
    append([], Ys, Ys).
    append([X|Xs], Ys, [X|Zs]) :- append(Xs, Ys, Zs).

    pivot(Any, [], [], []).
    pivot(Pivot, [Head|Tail], [Head|LessOrEqualThan], GreaterThan) :- Pivot >= Head, pivot(Pivot, Tail, LessOrEqualThan, GreaterThan).
    pivot(Pivot, [Head|Tail], LessOrEqualThan, [Head|GreaterThan]) :- pivot(Pivot, Tail, LessOrEqualThan, GreaterThan).

    quicksort([], []).
    quicksort([Head|Tail], Sorted) :- pivot(Head, Tail, List1, List2), quicksort(List1, SortedList1), quicksort(List2, SortedList2), append(SortedList1, [Head|SortedList2], Sorted).
    ";

#[test]
fn quicksort_sorts_with_a_variable_in_its_base_clause() {
    let p = ask(QUICKSORT, "quicksort([1, 8, 904, 234, 42], Sorted).").unwrap();
    assert_eq!(p.result.to_string(), "quicksort([1, 8, 904, 234, 42], [1, 8, 42, 234, 904])");
    let p = ask(QUICKSORT, "quicksort([], Sorted).").unwrap();
    assert_eq!(p.result.to_string(), "quicksort([], [])");
}

#[test]
fn an_underscore_is_an_atom_and_matches_itself_only() {
    let program = "pivot(_, [], [], []).";
    assert!(ask(program, "pivot(1, [], A, B).").is_none());
    assert!(ask(program, "pivot(x, [], A, B).").is_none());
    let p = ask(program, "pivot(_, [], A, B).").unwrap();
    assert_eq!(p.result.to_string(), "pivot(_, [], [], [])");
    let p = ask(program, "pivot(P, [], A, B).").unwrap();
    assert_eq!(p.result.to_string(), "pivot(_, [], [], [])");
    let base_with_atom = QUICKSORT.replace("pivot(Any,", "pivot(_,");
    assert!(ask(&base_with_atom, "quicksort([1, 8, 904, 234, 42], Sorted).").is_none());
}

#[test]
fn a_cyclic_binding_gives_no_answer() {
    assert!(ask("p(Y, Y).", "p(X, f(X)).").is_none());
    let db = database("p(Y, Y).");
    let q = Query::new(parse_query("p(X, f(X)).").unwrap());
    assert!(matches!(q.solve_within(&db, 0, &mut Runtime::new(), 64), Outcome::Exhausted));
}

#[test]
fn proofs_are_equal_when_all_their_parts_are() {
    let program = "p(a). p(b).";
    let first = ask(program, "p(X).").unwrap();
    let again = ask(program, "p(X).").unwrap();
    let second = ask_from(program, "p(X).", 1).unwrap();
    assert!(first == again);
    assert!(first == first.clone());
    assert!(first != second);
    let moved = Partial::new(first.result.clone(), first.bindings.clone(), 1);
    assert!(first != moved);
    let rebound = Partial::new(first.result.clone(), Bindings::empty(), 0);
    assert!(first != rebound);
}

#[test]
fn among_facts_the_first_match_answers() {
    let program = "q(a). p(b, c). p(a, X). r. p(a, d).";
    let p = ask(program, "p(a, Z).").unwrap();
    assert_eq!(p.rule, 2);
    assert_eq!(p.result.to_string(), "p(a, X_2)");
    let p = ask_from(program, "p(a, Z).", 3).unwrap();
    assert_eq!(p.rule, 4);
    assert_eq!(p.result.to_string(), "p(a, d)");
    assert!(ask_from(program, "p(a, Z).", 5).is_none());
    assert!(ask(program, "p(c, Z).").is_none());
}
