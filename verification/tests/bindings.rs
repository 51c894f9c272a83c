use prolog::bindings::{compare_term, Bindings};
use prolog::tree::{atom, compound, cons_list, empty_list, integer, variable};

#[test]
fn empty_binds_nothing() {
    let b = Bindings::empty();
    assert!(b.get(&"X".to_string()).is_none());
    assert_eq!(b.substitute(variable("X"), 0).unwrap().to_string(), "X");
}

#[test]
fn with_binds_one_name() {
    let b = Bindings::with("X", atom("a"));
    assert_eq!(b.get(&"X".to_string()).unwrap().to_string(), "a");
    assert!(b.get(&"Y".to_string()).is_none());
}

#[test]
fn merge_holds_the_keys_of_both() {
    let a = Bindings::with("X", integer(1));
    let b = Bindings::with("Y", integer(2));
    let m = a.merge(&b).unwrap();
    assert_eq!(m.get(&"X".to_string()).unwrap().to_string(), "1");
    assert_eq!(m.get(&"Y".to_string()).unwrap().to_string(), "2");
    assert!(m.get(&"Z".to_string()).is_none());
}

#[test]
fn merge_is_commutative_on_agreeing_bindings() {
    let a = Bindings::with("X", integer(1)).merge(&Bindings::with("Y", atom("b"))).unwrap();
    let b = Bindings::with("Y", atom("b")).merge(&Bindings::with("Z", variable("X"))).unwrap();
    let ab = a.merge(&b).unwrap();
    let ba = b.merge(&a).unwrap();
    for name in ["X", "Y", "Z", "W"] {
        let key = name.to_string();
        match (ab.get(&key), ba.get(&key)) {
            (Some(l), Some(r)) => assert!(compare_term(l, r)),
            (None, None) => assert_eq!(name, "W"),
            _ => panic!("the merges differ at {}", name),
        }
    }
}

#[test]
fn merge_fails_on_conflict_in_both_orders() {
    let a = Bindings::with("X", integer(1));
    let b = Bindings::with("X", integer(2));
    assert!(a.merge(&b).is_none());
    assert!(b.merge(&a).is_none());
}

#[test]
fn merge_with_itself_changes_nothing() {
    let a = Bindings::with("X", compound("f", vec![variable("Y")]));
    let m = a.merge(&a).unwrap();
    assert_eq!(m.get(&"X".to_string()).unwrap().to_string(), "f(Y)");
}

#[test]
fn substitute_chases_chains() {
    let b = Bindings::with("N", variable("M")).merge(&Bindings::with("M", atom("a"))).unwrap();
    assert_eq!(b.substitute(variable("N"), 2).unwrap().to_string(), "a");
    assert_eq!(b.substitute(variable("M"), 1).unwrap().to_string(), "a");
}

#[test]
fn substitute_stops_at_its_depth() {
    let b = Bindings::with("N", variable("M")).merge(&Bindings::with("M", atom("a"))).unwrap();
    assert!(b.substitute(variable("N"), 1).is_none());
    assert!(b.substitute(variable("N"), 0).is_none());
    assert!(b.substitute(variable("M"), 0).is_none());
    assert_eq!(b.substitute(atom("k"), 0).unwrap().to_string(), "k");
}

#[test]
fn substitute_goes_through_structure() {
    let b = Bindings::with("X", integer(1)).merge(&Bindings::with("T", empty_list())).unwrap();
    let term = compound("f", vec![variable("X"), cons_list(variable("X"), variable("T")), variable("U")]);
    assert_eq!(b.substitute(term, 1).unwrap().to_string(), "f(1, [1], U)");
}

#[test]
fn substitute_is_idempotent() {
    let b = Bindings::with("X", compound("g", vec![variable("Y")]))
        .merge(&Bindings::with("Y", atom("a")))
        .unwrap();
    let once = b.substitute(compound("f", vec![variable("X"), variable("Z")]), 8).unwrap();
    assert_eq!(once.to_string(), "f(g(a), Z)");
    let twice = b.substitute_in(&once, 8).unwrap();
    assert!(compare_term(&once, &twice));
    assert!(compare_term(&once, &b.substitute_in(&once, 0).unwrap()));
}

#[test]
fn substitute_gives_up_on_a_cycle() {
    let b = Bindings::with("X", compound("f", vec![variable("X")]));
    assert!(b.substitute(variable("X"), 1000).is_none());
    let c = Bindings::with("X", variable("Y")).merge(&Bindings::with("Y", variable("X"))).unwrap();
    assert!(c.substitute(variable("X"), 1000).is_none());
}

#[test]
fn clone_keeps_the_bindings() {
    let b = Bindings::with("X", atom("a"));
    let c = b.clone();
    assert_eq!(c.get(&"X".to_string()).unwrap().to_string(), "a");
}

#[test]
fn bindings_are_equal_when_they_bind_alike() {
    let a = Bindings::with("X", integer(1)).merge(&Bindings::with("Y", atom("b"))).unwrap();
    let b = Bindings::with("Y", atom("b")).merge(&Bindings::with("X", integer(1))).unwrap();
    assert!(a == b);
    assert!(b == a);
    assert!(a == a.clone());
    assert!(Bindings::empty() == Bindings::empty());
    assert!(a != Bindings::with("X", integer(1)));
    assert!(Bindings::with("X", integer(1)) != a);
    assert!(a != Bindings::empty());
    assert!(Bindings::with("X", integer(1)) != Bindings::with("X", integer(2)));
    assert!(Bindings::with("X", integer(1)) != Bindings::with("Y", integer(1)));
}

#[test]
fn merges_in_both_orders_are_equal() {
    let a = Bindings::with("X", integer(1)).merge(&Bindings::with("Y", atom("b"))).unwrap();
    let b = Bindings::with("Y", atom("b"))
        .merge(&Bindings::with("Z", compound("f", vec![variable("X")])))
        .unwrap();
    assert!(a.merge(&b) == b.merge(&a));
    assert!(a.merge(&b).is_some());
    let c = Bindings::with("Y", atom("c"));
    assert!(a.merge(&c) == c.merge(&a));
    assert!(a.merge(&c).is_none());
}
