use prolog::bindings::compare_term;
use prolog::tree::{atom, compound, cons_list, empty_list, integer, string, variable};
use prolog::unify::unify_term;

#[test]
fn equal_constants_unify_without_bindings() {
    for t in [atom("a"), integer(5), string("s".to_string()), empty_list()] {
        let (u, b) = unify_term(&t, &t).unwrap();
        assert!(compare_term(&u, &t));
        assert!(b.get(&"X".to_string()).is_none());
    }
}

#[test]
fn different_constants_do_not_unify() {
    assert!(unify_term(&atom("a"), &atom("b")).is_none());
    assert!(unify_term(&integer(1), &integer(2)).is_none());
    assert!(unify_term(&string("a".to_string()), &string("b".to_string())).is_none());
    assert!(unify_term(&atom("a"), &integer(1)).is_none());
    assert!(unify_term(&atom("a"), &string("a".to_string())).is_none());
    assert!(unify_term(&empty_list(), &atom("a")).is_none());
    assert!(unify_term(&empty_list(), &cons_list(atom("a"), empty_list())).is_none());
    assert!(unify_term(&compound("f", vec![atom("a")]), &atom("f")).is_none());
}

#[test]
fn a_variable_unifies_with_itself_without_bindings() {
    let (u, b) = unify_term(&variable("X"), &variable("X")).unwrap();
    assert_eq!(u.to_string(), "X");
    assert!(b.get(&"X".to_string()).is_none());
}

#[test]
fn a_variable_is_bound_to_the_other_term() {
    let (u, b) = unify_term(&variable("X"), &atom("a")).unwrap();
    assert_eq!(u.to_string(), "a");
    assert_eq!(b.get(&"X".to_string()).unwrap().to_string(), "a");

    let (u, b) = unify_term(&compound("f", vec![atom("a")]), &variable("Y")).unwrap();
    assert_eq!(u.to_string(), "f(a)");
    assert_eq!(b.get(&"Y".to_string()).unwrap().to_string(), "f(a)");

    let (u, b) = unify_term(&variable("X"), &variable("Y")).unwrap();
    assert_eq!(u.to_string(), "Y");
    assert_eq!(b.get(&"X".to_string()).unwrap().to_string(), "Y");
    assert!(b.get(&"Y".to_string()).is_none());
}

#[test]
fn compound_terms_unify_pairwise() {
    let t1 = compound("f", vec![variable("X"), atom("b")]);
    let t2 = compound("f", vec![atom("a"), variable("Y")]);
    let (u, b) = unify_term(&t1, &t2).unwrap();
    assert_eq!(u.to_string(), "f(a, b)");
    assert_eq!(b.get(&"X".to_string()).unwrap().to_string(), "a");
    assert_eq!(b.get(&"Y".to_string()).unwrap().to_string(), "b");
}

#[test]
fn compound_terms_need_one_name_and_arity() {
    assert!(unify_term(&compound("f", vec![atom("a")]), &compound("g", vec![atom("a")])).is_none());
    assert!(unify_term(
        &compound("f", vec![atom("a")]),
        &compound("f", vec![atom("a"), atom("b")])
    )
    .is_none());
    assert!(unify_term(&compound("f", vec![atom("a")]), &compound("f", vec![atom("b")])).is_none());
}

#[test]
fn conflicting_bindings_fail() {
    let t1 = compound("f", vec![variable("X"), variable("X")]);
    let t2 = compound("f", vec![atom("a"), atom("b")]);
    assert!(unify_term(&t1, &t2).is_none());
    let l1 = cons_list(variable("X"), variable("X"));
    let l2 = cons_list(atom("a"), atom("b"));
    assert!(unify_term(&l1, &l2).is_none());
}

#[test]
fn agreeing_bindings_merge() {
    let t1 = compound("f", vec![variable("X"), variable("X")]);
    let t2 = compound("f", vec![atom("a"), atom("a")]);
    let (u, b) = unify_term(&t1, &t2).unwrap();
    assert_eq!(u.to_string(), "f(a, a)");
    assert_eq!(b.get(&"X".to_string()).unwrap().to_string(), "a");
}

#[test]
fn lists_unify_head_and_tail() {
    let l1 = cons_list(variable("H"), variable("T"));
    let l2 = cons_list(atom("a"), cons_list(atom("b"), empty_list()));
    let (u, b) = unify_term(&l1, &l2).unwrap();
    assert_eq!(u.to_string(), "[a, b]");
    assert_eq!(b.get(&"H".to_string()).unwrap().to_string(), "a");
    assert_eq!(b.get(&"T".to_string()).unwrap().to_string(), "[b]");
}

#[test]
fn unification_is_sound_on_an_example() {
    let t1 = compound("f", vec![variable("X"), variable("Y"), cons_list(variable("Z"), empty_list())]);
    let t2 = compound("f", vec![variable("Y"), atom("a"), cons_list(integer(3), variable("W"))]);
    let (u, b) = unify_term(&t1, &t2).unwrap();
    let s1 = b.substitute_in(&t1, 16).unwrap();
    let s2 = b.substitute_in(&t2, 16).unwrap();
    let su = b.substitute_in(&u, 16).unwrap();
    assert_eq!(s1.to_string(), "f(a, a, [3])");
    assert!(compare_term(&s1, &s2));
    assert!(compare_term(&s1, &su));
}

#[test]
fn there_is_no_occurs_check() {
    let (u, b) = unify_term(&variable("X"), &compound("f", vec![variable("X")])).unwrap();
    assert_eq!(u.to_string(), "f(X)");
    assert_eq!(b.get(&"X".to_string()).unwrap().to_string(), "f(X)");
    assert!(b.substitute(variable("X"), 64).is_none());
}
