//! The term algebra and the clause form, with their mathematical models.

use vstd::prelude::*;
use vstd::string::*;

verus! {

/// A value of the term algebra.
#[derive(Debug)]
pub enum TermKind {
    EmptyList,
    Var(String),
    Atom(String),
    Integer(i64),
    String(String),
    Compound(String, Vec<Term>),
    List(Term, Term),
}

pub type Term = Box<TermKind>;

/// The body of a rule: one goal, or two bodies that must both hold, the
/// left one first.
#[derive(Debug)]
pub enum ExprKind {
    Term(Term),
    Conjunct(Expr, Expr),
}

pub type Expr = Box<ExprKind>;

/// A fact (a head) or a rule (a head and a body).
#[derive(Debug)]
pub enum Clause {
    Fact(Term),
    Rule(Term, Expr),
}

/// The mathematical model of a term: names are sequences of characters and
/// argument lists are sequences of models.
pub enum TermModel {
    EmptyList,
    Var(Seq<char>),
    Atom(Seq<char>),
    Integer(i64),
    Text(Seq<char>),
    Compound(Seq<char>, Seq<TermModel>),
    List(Box<TermModel>, Box<TermModel>),
}

/// The model of a rule body.
pub enum ExprModel {
    Term(TermModel),
    Conjunct(Box<ExprModel>, Box<ExprModel>),
}

/// The model of a clause.
pub enum ClauseModel {
    Fact(TermModel),
    Rule(TermModel, ExprModel),
}

/// The models of a sequence of terms, in order.
pub open spec fn models(terms: Seq<Term>) -> Seq<TermModel> {
    Seq::new(terms.len(), |i: int| terms[i]@)
}

/// The models of a sequence of clauses, in order.
pub open spec fn clause_models(clauses: Seq<Clause>) -> Seq<ClauseModel> {
    Seq::new(clauses.len(), |i: int| clauses[i]@)
}

impl TermKind {
    /// The model of this term.
    pub open spec fn model(&self) -> TermModel
        decreases self,
    {
        match self {
            TermKind::EmptyList => TermModel::EmptyList,
            TermKind::Var(n) => TermModel::Var(n@),
            TermKind::Atom(n) => TermModel::Atom(n@),
            TermKind::Integer(i) => TermModel::Integer(*i),
            TermKind::String(s) => TermModel::Text(s@),
            TermKind::Compound(n, args) => TermModel::Compound(
                n@,
                Seq::new(
                    args@.len(),
                    |i: int|
                        if 0 <= i < args@.len() {
                            args@[i].model()
                        } else {
                            TermModel::EmptyList
                        },
                ),
            ),
            TermKind::List(head, tail) => TermModel::List(
                Box::new(head.model()),
                Box::new(tail.model()),
            ),
        }
    }

    /// The arguments of a compound term, and nothing for any other term.
    pub fn get_args(&self) -> (r: Option<&[Term]>)
        ensures
            match self@ {
                TermModel::Compound(_, args) => r is Some && models(r.unwrap()@) == args,
                _ => r is None,
            },
    {
        match self {
            TermKind::Compound(_, args) => {
                proof {
                    lemma_compound_model(self);
                }
                Some(args.as_slice())
            },
            _ => None,
        }
    }
}

impl View for TermKind {
    type V = TermModel;

    open spec fn view(&self) -> TermModel {
        self.model()
    }
}

/// The model of a compound term holds the models of its arguments.
pub proof fn lemma_compound_model(term: &TermKind)
    requires
        term is Compound,
    ensures
        term@ == TermModel::Compound(term->Compound_0@, models(term->Compound_1@)),
{
    let args = term->Compound_1;
    assert(term@->Compound_1 =~= models(args@));
}

impl ExprKind {
    /// The model of this body.
    pub open spec fn model(&self) -> ExprModel
        decreases self,
    {
        match self {
            ExprKind::Term(t) => ExprModel::Term(t@),
            ExprKind::Conjunct(l, r) => ExprModel::Conjunct(
                Box::new(l.model()),
                Box::new(r.model()),
            ),
        }
    }
}

/// The number of goals and conjunctions of a body.
pub open spec fn expr_size(e: ExprModel) -> nat
    decreases e,
{
    match e {
        ExprModel::Term(_) => 1,
        ExprModel::Conjunct(l, r) => 1 + expr_size(*l) + expr_size(*r),
    }
}

impl View for ExprKind {
    type V = ExprModel;

    open spec fn view(&self) -> ExprModel {
        self.model()
    }
}

impl View for Clause {
    type V = ClauseModel;

    open spec fn view(&self) -> ClauseModel {
        match self {
            Clause::Fact(t) => ClauseModel::Fact(t@),
            Clause::Rule(t, e) => ClauseModel::Rule(t@, e@),
        }
    }
}

impl Clone for TermKind {
    /// A deep copy: the copy has the same model.
    fn clone(&self) -> (r: Self)
        ensures
            r@ == self@,
        decreases self,
    {
        match self {
            TermKind::EmptyList => TermKind::EmptyList,
            TermKind::Var(n) => TermKind::Var(n.clone()),
            TermKind::Atom(n) => TermKind::Atom(n.clone()),
            TermKind::Integer(i) => TermKind::Integer(*i),
            TermKind::String(s) => TermKind::String(s.clone()),
            TermKind::Compound(n, args) => {
                let mut copies: Vec<Term> = Vec::new();
                let mut i: usize = 0;
                while i < args.len()
                    invariant
                        i <= args.len(),
                        copies@.len() == i,
                        forall|j: int| 0 <= j < i ==> copies@[j]@ == args@[j]@,
                        self is Compound,
                        self->Compound_1 == *args,
                    decreases args.len() - i,
                {
                    let copy = (&*args[i]).clone();
                    copies.push(Box::new(copy));
                    i = i + 1;
                }
                let r = TermKind::Compound(n.clone(), copies);
                proof {
                    lemma_compound_model(self);
                    lemma_compound_model(&r);
                    assert(models(copies@) =~= models(args@));
                }
                r
            },
            TermKind::List(head, tail) => TermKind::List(
                Box::new((&**head).clone()),
                Box::new((&**tail).clone()),
            ),
        }
    }
}

impl Clone for ExprKind {
    /// A deep copy: the copy has the same model.
    fn clone(&self) -> (r: Self)
        ensures
            r@ == self@,
        decreases self,
    {
        match self {
            ExprKind::Term(t) => ExprKind::Term(Box::new((&**t).clone())),
            ExprKind::Conjunct(l, r) => ExprKind::Conjunct(
                Box::new((&**l).clone()),
                Box::new((&**r).clone()),
            ),
        }
    }
}

impl Clone for Clause {
    /// A deep copy: the copy has the same model.
    fn clone(&self) -> (r: Self)
        ensures
            r@ == self@,
    {
        match self {
            Clause::Fact(t) => Clause::Fact(Box::new((&**t).clone())),
            Clause::Rule(t, e) => Clause::Rule(Box::new((&**t).clone()), Box::new((&**e).clone())),
        }
    }
}

/// A copy of a term in a box of its own.
pub fn copy_term(term: &Term) -> (r: Term)
    ensures
        r@ == term@,
{
    Box::new((&**term).clone())
}

impl From<Term> for Expr {
    /// The body that consists of one goal.
    fn from(item: Term) -> (r: Expr) {
        Box::new(ExprKind::Term(item))
    }
}

impl vstd::std_specs::convert::FromSpecImpl<Term> for Expr {
    open spec fn obeys_from_spec() -> bool {
        true
    }

    open spec fn from_spec(item: Term) -> Expr {
        Box::new(ExprKind::Term(item))
    }
}

/// The variable of a name.
pub fn variable(name: &str) -> (r: Term)
    ensures
        r@ == TermModel::Var(name@),
{
    Box::new(TermKind::Var(String::from_str(name)))
}

/// The atom of a name.
pub fn atom(name: &str) -> (r: Term)
    ensures
        r@ == TermModel::Atom(name@),
{
    Box::new(TermKind::Atom(String::from_str(name)))
}

/// The integer constant.
pub fn integer(num: i64) -> (r: Term)
    ensures
        r@ == TermModel::Integer(num),
{
    Box::new(TermKind::Integer(num))
}

/// The string constant of a text.
pub fn string(text: String) -> (r: Term)
    ensures
        r@ == TermModel::Text(text@),
{
    Box::new(TermKind::String(text))
}

/// The compound term of a name and its arguments.
pub fn compound(name: &str, args: Vec<Term>) -> (r: Term)
    ensures
        r@ == TermModel::Compound(name@, models(args@)),
{
    let r = Box::new(TermKind::Compound(String::from_str(name), args));
    proof {
        lemma_compound_model(&*r);
    }
    r
}

/// The empty list.
pub fn empty_list() -> (r: Term)
    ensures
        r@ == TermModel::EmptyList,
{
    Box::new(TermKind::EmptyList)
}

/// The list cell of a head and a tail.
pub fn cons_list(term: Term, tail: Term) -> (r: Term)
    ensures
        r@ == TermModel::List(Box::new(term@), Box::new(tail@)),
{
    Box::new(TermKind::List(term, tail))
}

/// The conjunction of two bodies; the left one is proved first.
pub fn conjunct(expr1: Expr, expr2: Expr) -> (r: Expr)
    ensures
        r@ == ExprModel::Conjunct(Box::new(expr1@), Box::new(expr2@)),
{
    Box::new(ExprKind::Conjunct(expr1, expr2))
}

/// The fact of a head.
pub fn fact(term: Term) -> (r: Clause)
    ensures
        r@ == ClauseModel::Fact(term@),
{
    Clause::Fact(term)
}

/// The rule of a head and a body.
pub fn rule(lhs: Term, rhs: Expr) -> (r: Clause)
    ensures
        r@ == ClauseModel::Rule(lhs@, rhs@),
{
    Clause::Rule(lhs, rhs)
}

} // verus!
