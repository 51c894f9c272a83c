//! Laws of bindings and unification.

use vstd::prelude::*;
use crate::bindings::{agree, lemma_substitute_seq, merge_spec, substitute_seq, substitute_spec};
use crate::tree::TermModel;
use crate::unify::{unify_seq, unify_spec};

verus! {

/// One mapping extends another: it binds every name of the other, to the
/// same term.
pub open spec fn extends(
    larger: Map<Seq<char>, TermModel>,
    smaller: Map<Seq<char>, TermModel>,
) -> bool {
    forall|k: Seq<char>| #[trigger]
        smaller.contains_key(k) ==> larger.contains_key(k) && larger[k] == smaller[k]
}

/// The term that `t` becomes under the bindings, given depth enough: the
/// full substitution.
pub open spec fn substitutes_to(
    b: Map<Seq<char>, TermModel>,
    t: TermModel,
    r: TermModel,
) -> bool {
    exists|depth: nat| substitute_spec(b, t, depth) == Some(r)
}

/// Merging is commutative: two mappings merge in one order exactly when they
/// merge in the other, and then to equal mappings.
pub proof fn merge_commutes(a: Map<Seq<char>, TermModel>, b: Map<Seq<char>, TermModel>)
    ensures
        merge_spec(a, b) == merge_spec(b, a),
{
    if agree(a, b) {
        assert(agree(b, a));
        assert(a.union_prefer_right(b) =~= b.union_prefer_right(a));
    }
    if agree(b, a) {
        assert(agree(a, b));
    }
}

/// A merge extends both of its operands.
pub proof fn merge_extends(a: Map<Seq<char>, TermModel>, b: Map<Seq<char>, TermModel>)
    requires
        merge_spec(a, b) is Some,
    ensures
        extends(merge_spec(a, b).unwrap(), a),
        extends(merge_spec(a, b).unwrap(), b),
{
}

/// Where every term of a sequence substitutes to the term at its place in
/// another, the sequence substitutes to the other.
pub proof fn lemma_substitute_seq_items(
    b: Map<Seq<char>, TermModel>,
    args: Seq<TermModel>,
    done: Seq<TermModel>,
    depth: nat,
)
    requires
        args.len() == done.len(),
        forall|i: int| 0 <= i < args.len() ==> substitute_spec(b, #[trigger] args[i], depth) == Some(done[i]),
    ensures
        substitute_seq(b, args, depth) == Some(done),
{
    lemma_substitute_seq(b, args, depth);
    match substitute_seq(b, args, depth) {
        Some(found) => {
            assert forall|i: int| 0 <= i < found.len() implies found[i] == done[i] by {
                assert(substitute_spec(b, args[i], depth) == Some(done[i]));
            }
            assert(found =~= done);
        },
        None => {},
    }
}

/// More depth changes no result: what a term substitutes to within one
/// depth it substitutes to within every greater one.
pub proof fn substitution_monotone(
    b: Map<Seq<char>, TermModel>,
    t: TermModel,
    depth: nat,
    more: nat,
)
    requires
        substitute_spec(b, t, depth) is Some,
        depth <= more,
    ensures
        substitute_spec(b, t, more) == substitute_spec(b, t, depth),
    decreases depth, t,
{
    match t {
        TermModel::Var(n) => {
            if b.contains_key(n) {
                substitution_monotone(b, b[n], (depth - 1) as nat, (more - 1) as nat);
            }
        },
        TermModel::Compound(n, args) => {
            lemma_substitute_seq(b, args, depth);
            let done = substitute_seq(b, args, depth).unwrap();
            assert forall|i: int| 0 <= i < args.len() implies substitute_spec(
                b,
                #[trigger] args[i],
                more,
            ) == Some(done[i]) by {
                substitution_monotone(b, args[i], depth, more);
            }
            lemma_substitute_seq_items(b, args, done, more);
        },
        TermModel::List(head, tail) => {
            substitution_monotone(b, *head, depth, more);
            substitution_monotone(b, *tail, depth, more);
        },
        _ => {},
    }
}

/// A term that came out of a substitution holds no bound variable: it
/// substitutes to itself, within any depth.
pub proof fn lemma_substituted_is_fixed(
    b: Map<Seq<char>, TermModel>,
    t: TermModel,
    depth: nat,
    again: nat,
)
    requires
        substitute_spec(b, t, depth) is Some,
    ensures
        substitute_spec(b, substitute_spec(b, t, depth).unwrap(), again) == substitute_spec(
            b,
            t,
            depth,
        ),
    decreases depth, t,
{
    match t {
        TermModel::Var(n) => {
            if b.contains_key(n) {
                lemma_substituted_is_fixed(b, b[n], (depth - 1) as nat, again);
            }
        },
        TermModel::Compound(n, args) => {
            lemma_substitute_seq(b, args, depth);
            let done = substitute_seq(b, args, depth).unwrap();
            assert forall|i: int| 0 <= i < done.len() implies substitute_spec(
                b,
                #[trigger] done[i],
                again,
            ) == Some(done[i]) by {
                lemma_substituted_is_fixed(b, args[i], depth, again);
            }
            lemma_substitute_seq_items(b, done, done, again);
        },
        TermModel::List(head, tail) => {
            lemma_substituted_is_fixed(b, *head, depth, again);
            lemma_substituted_is_fixed(b, *tail, depth, again);
        },
        _ => {},
    }
}

/// Substitution is idempotent: substituting again, with the same bindings,
/// into a term that was substituted in full gives the same term.
pub proof fn substitution_idempotent(b: Map<Seq<char>, TermModel>, t: TermModel, depth: nat)
    requires
        substitute_spec(b, t, depth) is Some,
    ensures
        substitute_spec(b, substitute_spec(b, t, depth).unwrap(), depth) == substitute_spec(
            b,
            t,
            depth,
        ),
{
    lemma_substituted_is_fixed(b, t, depth, depth);
}

/// The full substitution of a term is one term: whatever depth suffices
/// gives the same result.
pub proof fn substitution_determined(
    b: Map<Seq<char>, TermModel>,
    t: TermModel,
    r1: TermModel,
    r2: TermModel,
)
    requires
        substitutes_to(b, t, r1),
        substitutes_to(b, t, r2),
    ensures
        r1 == r2,
{
    let d1 = choose|d: nat| substitute_spec(b, t, d) == Some(r1);
    let d2 = choose|d: nat| substitute_spec(b, t, d) == Some(r2);
    if d1 <= d2 {
        substitution_monotone(b, t, d1, d2);
    } else {
        substitution_monotone(b, t, d2, d1);
    }
}

/// What extends a mapping extends what that mapping extends.
pub proof fn extends_transitive(
    a: Map<Seq<char>, TermModel>,
    b: Map<Seq<char>, TermModel>,
    c: Map<Seq<char>, TermModel>,
)
    requires
        extends(a, b),
        extends(b, c),
    ensures
        extends(a, c),
{
    assert forall|k: Seq<char>| #[trigger] c.contains_key(k) implies a.contains_key(k) && a[k]
        == c[k] by {
        assert(b.contains_key(k));
    }
}

/// Sequences that unify give as many unified terms as they have terms.
pub proof fn lemma_unify_seq_len(a1: Seq<TermModel>, a2: Seq<TermModel>)
    requires
        a1.len() == a2.len(),
        unify_seq(a1, a2) is Some,
    ensures
        unify_seq(a1, a2).unwrap().0.len() == a1.len(),
    decreases a1.len(),
{
    if a1.len() > 0 {
        lemma_unify_seq_len(a1.drop_last(), a2.drop_last());
    }
}

/// The three of a unification: its two terms and the term it returns, each
/// substituted within a depth under given bindings.
pub open spec fn one_gives(
    big: Map<Seq<char>, TermModel>,
    t1: TermModel,
    t2: TermModel,
    u: TermModel,
    depth: nat,
    r: TermModel,
) -> bool {
    substitute_spec(big, t1, depth) == Some(r) || substitute_spec(big, t2, depth) == Some(r)
        || substitute_spec(big, u, depth) == Some(r)
}

/// All three substitute to the same term within a depth.
pub open spec fn all_give(
    big: Map<Seq<char>, TermModel>,
    t1: TermModel,
    t2: TermModel,
    u: TermModel,
    depth: nat,
    r: TermModel,
) -> bool {
    substitute_spec(big, t1, depth) == Some(r) && substitute_spec(big, t2, depth) == Some(r)
        && substitute_spec(big, u, depth) == Some(r)
}

/// Under bindings that extend those of a unification of two sequences, the
/// terms at each place and the unified term there substitute alike: what one
/// of them gives within a depth, all give within one level more.
pub proof fn lemma_unify_seq_sound(
    a1: Seq<TermModel>,
    a2: Seq<TermModel>,
    big: Map<Seq<char>, TermModel>,
    depth: nat,
    i: int,
    r: TermModel,
)
    requires
        a1.len() == a2.len(),
        unify_seq(a1, a2) is Some,
        extends(big, unify_seq(a1, a2).unwrap().1),
        0 <= i < a1.len(),
        unify_seq(a1, a2).unwrap().0.len() == a1.len(),
        one_gives(big, a1[i], a2[i], unify_seq(a1, a2).unwrap().0[i], depth, r),
    ensures
        all_give(big, a1[i], a2[i], unify_seq(a1, a2).unwrap().0[i], depth + 1, r),
    decreases a1,
{
    let front1 = a1.drop_last();
    let front2 = a2.drop_last();
    let (front, bindings) = unify_seq(front1, front2).unwrap();
    let (last, more) = unify_spec(a1.last(), a2.last()).unwrap();
    let merged = merge_spec(bindings, more).unwrap();
    merge_extends(bindings, more);
    extends_transitive(big, merged, bindings);
    extends_transitive(big, merged, more);
    lemma_unify_seq_len(front1, front2);
    if i < a1.len() - 1 {
        assert(front1[i] == a1[i]);
        assert(front2[i] == a2[i]);
        lemma_unify_seq_sound(front1, front2, big, depth, i, r);
    } else {
        lemma_unify_sound(a1.last(), a2.last(), big, depth, r);
    }
}

/// Under bindings that extend those of a unification, its two terms and the
/// term it returns substitute alike: what one of them gives within a depth,
/// all three give within one level more.
pub proof fn lemma_unify_sound(
    t1: TermModel,
    t2: TermModel,
    big: Map<Seq<char>, TermModel>,
    depth: nat,
    r: TermModel,
)
    requires
        unify_spec(t1, t2) is Some,
        extends(big, unify_spec(t1, t2).unwrap().1),
        one_gives(big, t1, t2, unify_spec(t1, t2).unwrap().0, depth, r),
    ensures
        all_give(big, t1, t2, unify_spec(t1, t2).unwrap().0, depth + 1, r),
    decreases t1,
{
    let (u, b) = unify_spec(t1, t2).unwrap();
    match (t1, t2) {
        (TermModel::Compound(n, a1), TermModel::Compound(m, a2)) => {
            let (us, _) = unify_seq(a1, a2).unwrap();
            lemma_unify_seq_len(a1, a2);
            lemma_substitute_seq(big, a1, depth);
            lemma_substitute_seq(big, a2, depth);
            lemma_substitute_seq(big, us, depth);
            let done = r->Compound_1;
            assert(done.len() == a1.len());
            assert forall|i: int| 0 <= i < a1.len() implies all_give(
                big,
                a1[i],
                a2[i],
                us[i],
                depth + 1,
                done[i],
            ) by {
                lemma_unify_seq_sound(a1, a2, big, depth, i, done[i]);
            }
            lemma_substitute_seq_items(big, a1, done, depth + 1);
            lemma_substitute_seq_items(big, a2, done, depth + 1);
            lemma_substitute_seq_items(big, us, done, depth + 1);
        },
        (TermModel::List(h1, r1), TermModel::List(h2, r2)) => {
            let (head, head_bindings) = unify_spec(*h1, *h2).unwrap();
            let (tail, tail_bindings) = unify_spec(*r1, *r2).unwrap();
            let merged = merge_spec(head_bindings, tail_bindings).unwrap();
            merge_extends(head_bindings, tail_bindings);
            extends_transitive(big, merged, head_bindings);
            extends_transitive(big, merged, tail_bindings);
            let rh = *r->List_0;
            let rt = *r->List_1;
            lemma_unify_sound(*h1, *h2, big, depth, rh);
            lemma_unify_sound(*r1, *r2, big, depth, rt);
        },
        (TermModel::Var(n), _) => {
            if t2 == t1 {
                substitution_monotone(big, t1, depth, depth + 1);
            } else {
                assert(b.contains_key(n));
                assert(big.contains_key(n) && big[n] == t2);
                if substitute_spec(big, t1, depth) == Some(r) {
                    substitution_monotone(big, t2, (depth - 1) as nat, depth);
                    substitution_monotone(big, t2, (depth - 1) as nat, depth + 1);
                } else {
                    substitution_monotone(big, t2, depth, depth + 1);
                }
            }
        },
        (_, TermModel::Var(n)) => {
            assert(b.contains_key(n));
            assert(big.contains_key(n) && big[n] == t1);
            if substitute_spec(big, t2, depth) == Some(r) {
                substitution_monotone(big, t1, (depth - 1) as nat, depth);
                substitution_monotone(big, t1, (depth - 1) as nat, depth + 1);
            } else {
                substitution_monotone(big, t1, depth, depth + 1);
            }
        },
        _ => {
            substitution_monotone(big, t1, depth, depth + 1);
        },
    }
}

/// Unification is sound: under the bindings that it returns, its two terms
/// and the term that it returns have the same full substitution.
pub proof fn unification_sound(t1: TermModel, t2: TermModel, r: TermModel)
    requires
        unify_spec(t1, t2) is Some,
    ensures
        ({
            let (u, b) = unify_spec(t1, t2).unwrap();
            &&& substitutes_to(b, t1, r) == substitutes_to(b, t2, r)
            &&& substitutes_to(b, t1, r) == substitutes_to(b, u, r)
        }),
{
    let (u, b) = unify_spec(t1, t2).unwrap();
    if substitutes_to(b, t1, r) || substitutes_to(b, t2, r) || substitutes_to(b, u, r) {
        let d = if substitutes_to(b, t1, r) {
            choose|d: nat| substitute_spec(b, t1, d) == Some(r)
        } else if substitutes_to(b, t2, r) {
            choose|d: nat| substitute_spec(b, t2, d) == Some(r)
        } else {
            choose|d: nat| substitute_spec(b, u, d) == Some(r)
        };
        lemma_unify_sound(t1, t2, b, d, r);
        assert(substitute_spec(b, t1, d + 1) == Some(r));
        assert(substitute_spec(b, t2, d + 1) == Some(r));
        assert(substitute_spec(b, u, d + 1) == Some(r));
    }
}

} // verus!
