//! Unification of two terms, without occurs-check.

use vstd::prelude::*;
use crate::bindings::{merge_spec, Bindings};
use crate::tree::{copy_term, lemma_compound_model, models, Term, TermKind, TermModel};

verus! {

/// The mapping that binds one name.
pub open spec fn singleton(name: Seq<char>, term: TermModel) -> Map<Seq<char>, TermModel> {
    Map::<Seq<char>, TermModel>::empty().insert(name, term)
}

/// The pairwise unification of two sequences of equal length, front to
/// back: the unified terms, and the merge of the bindings of all pairs.
pub open spec fn unify_seq(a1: Seq<TermModel>, a2: Seq<TermModel>) -> Option<
    (Seq<TermModel>, Map<Seq<char>, TermModel>),
>
    decreases a1,
{
    if a1.len() == 0 || a1.len() != a2.len() {
        Some((Seq::empty(), Map::empty()))
    } else {
        match unify_seq(a1.drop_last(), a2.drop_last()) {
            Some((front, bindings)) => match unify_spec(a1.last(), a2.last()) {
                Some((last, more)) => match merge_spec(bindings, more) {
                    Some(merged) => Some((front.push(last), merged)),
                    None => None,
                },
                None => None,
            },
            None => None,
        }
    }
}

/// The unification of two terms: the instantiated term and the bindings, or
/// nothing where the terms do not unify or the bindings of two parts
/// conflict.
pub open spec fn unify_spec(t1: TermModel, t2: TermModel) -> Option<
    (TermModel, Map<Seq<char>, TermModel>),
>
    decreases t1,
{
    match (t1, t2) {
        (TermModel::Atom(n), TermModel::Atom(m)) => if n == m {
            Some((t1, Map::empty()))
        } else {
            None
        },
        (TermModel::Integer(n), TermModel::Integer(m)) => if n == m {
            Some((t1, Map::empty()))
        } else {
            None
        },
        (TermModel::Text(n), TermModel::Text(m)) => if n == m {
            Some((t1, Map::empty()))
        } else {
            None
        },
        (TermModel::Compound(n, a1), TermModel::Compound(m, a2)) => if n == m && a1.len()
            == a2.len() {
            match unify_seq(a1, a2) {
                Some((args, bindings)) => Some((TermModel::Compound(n, args), bindings)),
                None => None,
            }
        } else {
            None
        },
        (TermModel::EmptyList, TermModel::EmptyList) => Some((t1, Map::empty())),
        (TermModel::List(h1, r1), TermModel::List(h2, r2)) => match (
            unify_spec(*h1, *h2),
            unify_spec(*r1, *r2),
        ) {
            (Some((head, head_bindings)), Some((tail, tail_bindings))) => match merge_spec(
                head_bindings,
                tail_bindings,
            ) {
                Some(merged) => Some((TermModel::List(Box::new(head), Box::new(tail)), merged)),
                None => None,
            },
            _ => None,
        },
        (TermModel::Var(n), _) => if t2 == t1 {
            Some((t1, Map::empty()))
        } else {
            Some((t2, singleton(n, t2)))
        },
        (_, TermModel::Var(n)) => Some((t1, singleton(n, t1))),
        _ => None,
    }
}

/// Where a front part of two sequences does not unify, the sequences do not.
pub proof fn lemma_unify_seq_front(a1: Seq<TermModel>, a2: Seq<TermModel>, k: int)
    requires
        a1.len() == a2.len(),
        0 <= k <= a1.len(),
        unify_seq(a1.take(k), a2.take(k)) is None,
    ensures
        unify_seq(a1, a2) is None,
    decreases a1.len() - k,
{
    if k < a1.len() {
        assert(a1.take(k + 1).drop_last() =~= a1.take(k));
        assert(a2.take(k + 1).drop_last() =~= a2.take(k));
        lemma_unify_seq_front(a1, a2, k + 1);
    } else {
        assert(a1.take(k) =~= a1);
        assert(a2.take(k) =~= a2);
    }
}

/// Unifies two terms. Equal constants unify with no binding; a variable
/// unifies with any other term and is bound to it; compound terms of one
/// name and arity, and list cells, unify part by part, the bindings of the
/// parts merged. Anything else does not unify.
pub fn unify_term(term1: &Term, term2: &Term) -> (r: Option<(Term, Bindings)>)
    ensures
        match r {
            Some((u, b)) => unify_spec(term1@, term2@) == Some((u@, b@)),
            None => unify_spec(term1@, term2@) is None,
        },
    decreases term1,
{
    match (&**term1, &**term2) {
        (TermKind::Atom(n), TermKind::Atom(m)) => {
            if *n == *m {
                Some((copy_term(term1), Bindings::empty()))
            } else {
                None
            }
        },
        (TermKind::Integer(n), TermKind::Integer(m)) => {
            if *n == *m {
                Some((copy_term(term1), Bindings::empty()))
            } else {
                None
            }
        },
        (TermKind::String(n), TermKind::String(m)) => {
            if *n == *m {
                Some((copy_term(term1), Bindings::empty()))
            } else {
                None
            }
        },
        (TermKind::Compound(n, args1), TermKind::Compound(m, args2)) => {
            proof {
                lemma_compound_model(&**term1);
                lemma_compound_model(&**term2);
            }
            if !(*n == *m) || args1.len() != args2.len() {
                return None;
            }
            let ghost a1 = models(args1@);
            let ghost a2 = models(args2@);
            let mut args: Vec<Term> = Vec::new();
            let mut bindings = Bindings::empty();
            let mut i: usize = 0;
            assert(a1.take(0) =~= Seq::<TermModel>::empty());
            assert(models(args@) =~= Seq::<TermModel>::empty());
            while i < args1.len()
                invariant
                    i <= args1.len(),
                    args1.len() == args2.len(),
                    a1 == models(args1@),
                    a2 == models(args2@),
                    term1@ == TermModel::Compound(n@, a1),
                    term2@ == TermModel::Compound(m@, a2),
                    n@ == m@,
                    **term1 is Compound,
                    (**term1)->Compound_1 == *args1,
                    unify_seq(a1.take(i as int), a2.take(i as int)) == Some(
                        (models(args@), bindings@),
                    ),
                decreases args1.len() - i,
            {
                proof {
                    assert(a1.take(i + 1).drop_last() =~= a1.take(i as int));
                    assert(a2.take(i + 1).drop_last() =~= a2.take(i as int));
                    assert(a1.take(i + 1).last() == args1@[i as int]@);
                    assert(a2.take(i + 1).last() == args2@[i as int]@);
                }
                let ghost before = models(args@);
                match unify_term(&args1[i], &args2[i]) {
                    Some((u, more)) => {
                        args.push(u);
                        assert(models(args@) =~= before.push(u@));
                        match bindings.merge(&more) {
                            Some(merged) => {
                                bindings = merged;
                            },
                            None => {
                                proof {
                                    lemma_unify_seq_front(a1, a2, i + 1);
                                }
                                return None;
                            },
                        }
                    },
                    None => {
                        proof {
                            lemma_unify_seq_front(a1, a2, i + 1);
                        }
                        return None;
                    },
                }
                i = i + 1;
            }
            assert(a1.take(i as int) =~= a1);
            assert(a2.take(i as int) =~= a2);
            let r = Box::new(TermKind::Compound(n.clone(), args));
            proof {
                lemma_compound_model(&*r);
            }
            Some((r, bindings))
        },
        (TermKind::EmptyList, TermKind::EmptyList) => Some((copy_term(term1), Bindings::empty())),
        (TermKind::List(h1, t1), TermKind::List(h2, t2)) => {
            let (head, head_bindings) = match unify_term(h1, h2) {
                Some(found) => found,
                None => {
                    return None;
                },
            };
            let (tail, tail_bindings) = match unify_term(t1, t2) {
                Some(found) => found,
                None => {
                    return None;
                },
            };
            match head_bindings.merge(&tail_bindings) {
                Some(merged) => Some((Box::new(TermKind::List(head, tail)), merged)),
                None => None,
            }
        },
        (TermKind::Var(n), other) => {
            let same = match other {
                TermKind::Var(m) => *n == *m,
                _ => false,
            };
            if same {
                Some((copy_term(term1), Bindings::empty()))
            } else {
                Some((copy_term(term2), Bindings::with(n.as_str(), copy_term(term2))))
            }
        },
        (_, TermKind::Var(n)) => Some(
            (copy_term(term1), Bindings::with(n.as_str(), copy_term(term1))),
        ),
        _ => None,
    }
}

} // verus!
