//! Hygienic renaming: each activation of a clause gets variables of its own.

use vstd::prelude::*;
use crate::text::{decimal, push_decimal};
use crate::tree::{
    copy_term, lemma_compound_model, models, Expr, ExprKind, ExprModel, Term, TermKind, TermModel,
};

verus! {

/// The name of a variable in the activation with the given generation: the
/// name, an underscore and the generation in decimal.
pub open spec fn renamed(name: Seq<char>, generation: u64) -> Seq<char> {
    name + seq!['_'] + decimal(generation as nat)
}

/// The term with every variable renamed for the given generation.
pub open spec fn rename_spec(t: TermModel, generation: u64) -> TermModel
    decreases t,
{
    match t {
        TermModel::Var(n) => TermModel::Var(renamed(n, generation)),
        TermModel::Compound(n, args) => TermModel::Compound(
            n,
            Seq::new(
                args.len(),
                |i: int|
                    if 0 <= i < args.len() {
                        rename_spec(args[i], generation)
                    } else {
                        TermModel::EmptyList
                    },
            ),
        ),
        TermModel::List(head, tail) => TermModel::List(
            Box::new(rename_spec(*head, generation)),
            Box::new(rename_spec(*tail, generation)),
        ),
        _ => t,
    }
}

/// The body with every variable renamed for the given generation.
pub open spec fn rename_expr_spec(e: ExprModel, generation: u64) -> ExprModel
    decreases e,
{
    match e {
        ExprModel::Term(t) => ExprModel::Term(rename_spec(t, generation)),
        ExprModel::Conjunct(l, r) => ExprModel::Conjunct(
            Box::new(rename_expr_spec(*l, generation)),
            Box::new(rename_expr_spec(*r, generation)),
        ),
    }
}

/// Renames every variable of a term for the given generation.
pub fn rename_term(term: &Term, generation: u64) -> (r: Term)
    ensures
        r@ == rename_spec(term@, generation),
    decreases term,
{
    match &**term {
        TermKind::Var(n) => {
            let mut name = n.clone();
            name.push('_');
            push_decimal(&mut name, generation);
            assert(name@ =~= renamed(n@, generation));
            Box::new(TermKind::Var(name))
        },
        TermKind::Compound(n, args) => {
            proof {
                lemma_compound_model(&**term);
            }
            let mut done: Vec<Term> = Vec::new();
            let mut i: usize = 0;
            while i < args.len()
                invariant
                    i <= args.len(),
                    done@.len() == i,
                    **term is Compound,
                    (**term)->Compound_1 == *args,
                    forall|j: int| 0 <= j < i ==> done@[j]@ == rename_spec(args@[j]@, generation),
                decreases args.len() - i,
            {
                done.push(rename_term(&args[i], generation));
                i = i + 1;
            }
            let r = Box::new(TermKind::Compound(n.clone(), done));
            proof {
                lemma_compound_model(&*r);
                assert(models(done@) =~= rename_spec(term@, generation)->Compound_1);
            }
            r
        },
        TermKind::List(head, tail) => Box::new(
            TermKind::List(rename_term(head, generation), rename_term(tail, generation)),
        ),
        _ => copy_term(term),
    }
}

/// Renames every variable of a body for the given generation.
pub fn rename_expr(expr: &Expr, generation: u64) -> (r: Expr)
    ensures
        r@ == rename_expr_spec(expr@, generation),
    decreases expr,
{
    match &**expr {
        ExprKind::Term(term) => Box::new(ExprKind::Term(rename_term(term, generation))),
        ExprKind::Conjunct(expr1, expr2) => Box::new(
            ExprKind::Conjunct(rename_expr(expr1, generation), rename_expr(expr2, generation)),
        ),
    }
}

} // verus!
