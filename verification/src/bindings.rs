//! Structural comparison of terms, and bindings: a mapping from variable
//! names to terms that supports substitution and consistent merging.

use vstd::prelude::*;
use vstd::string::*;
use crate::tree::{
    copy_term, lemma_compound_model, models, Clause, ExprKind, Term, TermKind, TermModel,
};

verus! {

/// Structural equality over all variants of a term; two variables are equal
/// exactly when their names are.
pub fn compare_term(term1: &Term, term2: &Term) -> (r: bool)
    ensures
        r == (term1@ == term2@),
{
    compare_kind(&**term1, &**term2)
}

/// Structural equality of two terms outside their boxes.
pub fn compare_kind(term1: &TermKind, term2: &TermKind) -> (r: bool)
    ensures
        r == (term1@ == term2@),
    decreases term1,
{
    match (term1, term2) {
        (TermKind::Atom(n), TermKind::Atom(m)) => *n == *m,
        (TermKind::Integer(n), TermKind::Integer(m)) => *n == *m,
        (TermKind::String(n), TermKind::String(m)) => *n == *m,
        (TermKind::Compound(n, args1), TermKind::Compound(m, args2)) => {
            proof {
                lemma_compound_model(term1);
                lemma_compound_model(term2);
            }
            assert(term1@ == TermModel::Compound(n@, models(args1@)));
            assert(term2@ == TermModel::Compound(m@, models(args2@)));
            if !(*n == *m) || args1.len() != args2.len() {
                assert(n@ != m@ || models(args1@).len() != models(args2@).len());
                return false;
            }
            let mut i: usize = 0;
            while i < args1.len()
                invariant
                    i <= args1.len(),
                    args1.len() == args2.len(),
                    term1@ == TermModel::Compound(n@, models(args1@)),
                    term2@ == TermModel::Compound(m@, models(args2@)),
                    term1 is Compound,
                    term1->Compound_1 == *args1,
                    forall|j: int| 0 <= j < i ==> args1@[j]@ == args2@[j]@,
                decreases args1.len() - i,
            {
                assert(models(args1@)[i as int] == args1@[i as int]@);
                if !compare_kind(&*args1[i], &*args2[i]) {
                    assert(models(args1@)[i as int] != models(args2@)[i as int]);
                    return false;
                }
                i = i + 1;
            }
            assert(models(args1@) =~= models(args2@));
            true
        },
        (TermKind::EmptyList, TermKind::EmptyList) => true,
        (TermKind::List(h1, t1), TermKind::List(h2, t2)) => {
            if !compare_kind(&**h1, &**h2) {
                return false;
            }
            compare_kind(&**t1, &**t2)
        },
        (TermKind::Var(n), TermKind::Var(m)) => *n == *m,
        _ => false,
    }
}

/// `==` on terms is structural equality.
impl PartialEq for TermKind {
    fn eq(&self, other: &TermKind) -> (r: bool) {
        compare_kind(self, other)
    }
}

impl vstd::std_specs::cmp::PartialEqSpecImpl for TermKind {
    open spec fn obeys_eq_spec() -> bool {
        true
    }

    open spec fn eq_spec(&self, other: &TermKind) -> bool {
        self@ == other@
    }
}

/// Structural equality of two rule bodies.
pub fn compare_expr(expr1: &ExprKind, expr2: &ExprKind) -> (r: bool)
    ensures
        r == (expr1@ == expr2@),
    decreases expr1,
{
    match (expr1, expr2) {
        (ExprKind::Term(t1), ExprKind::Term(t2)) => compare_term(t1, t2),
        (ExprKind::Conjunct(l1, r1), ExprKind::Conjunct(l2, r2)) => {
            if !compare_expr(&**l1, &**l2) {
                return false;
            }
            compare_expr(&**r1, &**r2)
        },
        _ => false,
    }
}

/// `==` on bodies is structural equality.
impl PartialEq for ExprKind {
    fn eq(&self, other: &ExprKind) -> (r: bool) {
        compare_expr(self, other)
    }
}

impl vstd::std_specs::cmp::PartialEqSpecImpl for ExprKind {
    open spec fn obeys_eq_spec() -> bool {
        true
    }

    open spec fn eq_spec(&self, other: &ExprKind) -> bool {
        self@ == other@
    }
}

/// `==` on clauses is structural equality.
impl PartialEq for Clause {
    fn eq(&self, other: &Clause) -> (r: bool) {
        match (self, other) {
            (Clause::Fact(t1), Clause::Fact(t2)) => compare_term(t1, t2),
            (Clause::Rule(t1, e1), Clause::Rule(t2, e2)) => compare_term(t1, t2) && compare_expr(
                &**e1,
                &**e2,
            ),
            _ => false,
        }
    }
}

impl vstd::std_specs::cmp::PartialEqSpecImpl for Clause {
    open spec fn obeys_eq_spec() -> bool {
        true
    }

    open spec fn eq_spec(&self, other: &Clause) -> bool {
        self@ == other@
    }
}

/// The mapping that a sequence of entries stands for.
pub open spec fn entries_map(entries: Seq<(String, Term)>) -> Map<Seq<char>, TermModel> {
    Map::new(
        |k: Seq<char>| exists|i: int| 0 <= i < entries.len() && entries[i].0@ == k,
        |k: Seq<char>| entries[choose|i: int| 0 <= i < entries.len() && entries[i].0@ == k].1@,
    )
}

/// No name is bound twice.
pub open spec fn distinct_keys(entries: Seq<(String, Term)>) -> bool {
    forall|i: int, j: int| 0 <= i < j < entries.len() ==> entries[i].0@ != entries[j].0@
}

/// Two mappings agree: a name bound in both is bound to the same term.
pub open spec fn agree(a: Map<Seq<char>, TermModel>, b: Map<Seq<char>, TermModel>) -> bool {
    forall|k: Seq<char>| a.contains_key(k) && b.contains_key(k) ==> a[k] == b[k]
}

/// The merge of two mappings: their union where they agree, and nothing
/// where some name is bound to two different terms.
pub open spec fn merge_spec(a: Map<Seq<char>, TermModel>, b: Map<Seq<char>, TermModel>) -> Option<
    Map<Seq<char>, TermModel>,
> {
    if agree(a, b) {
        Some(a.union_prefer_right(b))
    } else {
        None
    }
}

/// The substitution of each term of a sequence, in order; nothing where
/// one of them passes the depth.
pub open spec fn substitute_seq(
    b: Map<Seq<char>, TermModel>,
    args: Seq<TermModel>,
    depth: nat,
) -> Option<Seq<TermModel>>
    decreases depth, args,
{
    if args.len() == 0 {
        Some(Seq::empty())
    } else {
        match (substitute_seq(b, args.drop_last(), depth), substitute_spec(b, args.last(), depth)) {
            (Some(front), Some(last)) => Some(front.push(last)),
            _ => None,
        }
    }
}

/// The term with each bound variable replaced by the substitution of its
/// value. `depth` bounds how many bound variables may be replaced one inside
/// the other; the result is nothing where that bound is passed, as it is for
/// every depth when the bindings close a cycle.
pub open spec fn substitute_spec(
    b: Map<Seq<char>, TermModel>,
    t: TermModel,
    depth: nat,
) -> Option<TermModel>
    decreases depth, t,
{
    match t {
        TermModel::Var(n) => if b.contains_key(n) {
            if depth == 0 {
                None
            } else {
                substitute_spec(b, b[n], (depth - 1) as nat)
            }
        } else {
            Some(t)
        },
        TermModel::Compound(n, args) => match substitute_seq(b, args, depth) {
            Some(done) => Some(TermModel::Compound(n, done)),
            None => None,
        },
        TermModel::List(head, tail) => match (
            substitute_spec(b, *head, depth),
            substitute_spec(b, *tail, depth),
        ) {
            (Some(h), Some(t)) => Some(TermModel::List(Box::new(h), Box::new(t))),
            _ => None,
        },
        _ => Some(t),
    }
}

/// A sequence substitutes term by term: the result has the substitution of
/// each term at its place, and there is none exactly when some term passes
/// the depth.
pub proof fn lemma_substitute_seq(b: Map<Seq<char>, TermModel>, args: Seq<TermModel>, depth: nat)
    ensures
        match substitute_seq(b, args, depth) {
            Some(done) => done.len() == args.len() && forall|i: int|
                0 <= i < args.len() ==> substitute_spec(b, #[trigger] args[i], depth) == Some(
                    done[i],
                ),
            None => exists|i: int|
                0 <= i < args.len() && substitute_spec(b, #[trigger] args[i], depth) is None,
        },
    decreases args.len(),
{
    if args.len() > 0 {
        let front = args.drop_last();
        lemma_substitute_seq(b, front, depth);
        match substitute_seq(b, front, depth) {
            Some(done) => {
                if substitute_spec(b, args.last(), depth) is Some {
                    let all = done.push(substitute_spec(b, args.last(), depth).unwrap());
                    assert forall|i: int| 0 <= i < args.len() implies substitute_spec(
                        b,
                        #[trigger] args[i],
                        depth,
                    ) == Some(all[i]) by {
                        if i < front.len() {
                            assert(front[i] == args[i]);
                        }
                    }
                } else {
                    assert(substitute_spec(b, args[args.len() - 1], depth) is None);
                }
            },
            None => {
                let i = choose|i: int|
                    0 <= i < front.len() && substitute_spec(b, #[trigger] front[i], depth) is None;
                assert(front[i] == args[i]);
            },
        }
    }
}

/// Each entry is found again under its name.
pub proof fn lemma_entry_lookup(entries: Seq<(String, Term)>, i: int)
    requires
        distinct_keys(entries),
        0 <= i < entries.len(),
    ensures
        entries_map(entries).contains_key(entries[i].0@),
        entries_map(entries)[entries[i].0@] == entries[i].1@,
{
    let k = entries[i].0@;
    let j = choose|j: int| 0 <= j < entries.len() && entries[j].0@ == k;
    assert(j == i);
}

/// An entry under a new name extends the mapping by that name.
pub proof fn lemma_entry_push(entries: Seq<(String, Term)>, entry: (String, Term))
    requires
        distinct_keys(entries),
        !entries_map(entries).contains_key(entry.0@),
    ensures
        distinct_keys(entries.push(entry)),
        entries_map(entries.push(entry)) == entries_map(entries).insert(entry.0@, entry.1@),
{
    let longer = entries.push(entry);
    assert forall|i: int, j: int| 0 <= i < j < longer.len() implies longer[i].0@
        != longer[j].0@ by {
        if j == entries.len() {
            assert(entries[i].0@ == longer[i].0@);
        }
    }
    assert forall|k: Seq<char>|
        #![auto]
        entries_map(longer).contains_key(k) <==> entries_map(entries).insert(
            entry.0@,
            entry.1@,
        ).contains_key(k) by {
        if entries_map(longer).contains_key(k) {
            let i = choose|i: int| 0 <= i < longer.len() && longer[i].0@ == k;
            if i < entries.len() {
                assert(entries[i].0@ == k);
            }
        }
        if entries_map(entries).contains_key(k) {
            let i = choose|i: int| 0 <= i < entries.len() && entries[i].0@ == k;
            assert(longer[i].0@ == k);
        }
        if k == entry.0@ {
            assert(longer[entries.len() as int].0@ == k);
        }
    }
    assert forall|k: Seq<char>| #![auto] entries_map(longer).contains_key(k) implies entries_map(
        longer,
    )[k] == entries_map(entries).insert(entry.0@, entry.1@)[k] by {
        let i = choose|i: int| 0 <= i < longer.len() && longer[i].0@ == k;
        lemma_entry_lookup(longer, i);
        if i < entries.len() {
            assert(entries[i].0@ == k);
            lemma_entry_lookup(entries, i);
        }
    }
    assert(entries_map(longer) =~= entries_map(entries).insert(entry.0@, entry.1@));
}

/// The position of a name among the entries, if it is bound.
fn find_entry(entries: &Vec<(String, Term)>, name: &String) -> (r: Option<usize>)
    ensures
        match r {
            Some(i) => i < entries.len() && entries@[i as int].0@ == name@,
            None => !entries_map(entries@).contains_key(name@),
        },
{
    let mut i: usize = 0;
    while i < entries.len()
        invariant
            i <= entries.len(),
            forall|j: int| 0 <= j < i ==> entries@[j].0@ != name@,
        decreases entries.len() - i,
    {
        if entries[i].0 == *name {
            return Some(i);
        }
        i = i + 1;
    }
    None
}

/// Whether every entry of the first sequence is found among the second,
/// under its name and bound to an equal term.
fn entries_within(a: &Vec<(String, Term)>, b: &Vec<(String, Term)>) -> (r: bool)
    requires
        distinct_keys(a@),
        distinct_keys(b@),
    ensures
        r == entries_map(a@).submap_of(entries_map(b@)),
{
    let mut i: usize = 0;
    while i < a.len()
        invariant
            i <= a.len(),
            distinct_keys(a@),
            distinct_keys(b@),
            forall|j: int|
                0 <= j < i ==> entries_map(b@).contains_key(#[trigger] a@[j].0@) && entries_map(
                    b@,
                )[a@[j].0@] == a@[j].1@,
        decreases a.len() - i,
    {
        proof {
            lemma_entry_lookup(a@, i as int);
        }
        match find_entry(b, &a[i].0) {
            Some(at) => {
                proof {
                    lemma_entry_lookup(b@, at as int);
                }
                if !compare_term(&a[i].1, &b[at].1) {
                    assert(entries_map(a@).dom().contains(a@[i as int].0@));
                    return false;
                }
            },
            None => {
                assert(entries_map(a@).dom().contains(a@[i as int].0@));
                return false;
            },
        }
        i = i + 1;
    }
    assert forall|k: Seq<char>| #[trigger] entries_map(a@).dom().contains(k) implies #[trigger]
        entries_map(b@).dom().contains(k) && entries_map(a@)[k] == entries_map(b@)[k] by {
        let j = choose|j: int| 0 <= j < a@.len() && a@[j].0@ == k;
        lemma_entry_lookup(a@, j);
        assert(entries_map(b@).contains_key(a@[j].0@));
    }
    true
}

/// A mapping from variable names to terms.
#[derive(Debug)]
pub struct Bindings {
    entries: Vec<(String, Term)>,
}

impl View for Bindings {
    type V = Map<Seq<char>, TermModel>;

    closed spec fn view(&self) -> Map<Seq<char>, TermModel> {
        entries_map(self.entries@)
    }
}

impl Clone for Bindings {
    /// A copy that stands for the same mapping.
    fn clone(&self) -> (r: Self)
        ensures
            r@ == self@,
    {
        proof {
            use_type_invariant(self);
        }
        let mut entries: Vec<(String, Term)> = Vec::new();
        let mut i: usize = 0;
        while i < self.entries.len()
            invariant
                i <= self.entries.len(),
                entries@.len() == i,
                forall|j: int|
                    0 <= j < i ==> entries@[j].0@ == self.entries@[j].0@ && entries@[j].1@
                        == self.entries@[j].1@,
            decreases self.entries.len() - i,
        {
            entries.push((self.entries[i].0.clone(), copy_term(&self.entries[i].1)));
            i = i + 1;
        }
        proof {
            lemma_same_entries(self.entries@, entries@);
        }
        Bindings { entries }
    }
}

/// Two mappings are equal when they bind the same names to structurally
/// equal terms.
impl PartialEq for Bindings {
    fn eq(&self, other: &Bindings) -> (r: bool) {
        proof {
            use_type_invariant(self);
            use_type_invariant(other);
        }
        let r = entries_within(&self.entries, &other.entries) && entries_within(
            &other.entries,
            &self.entries,
        );
        proof {
            if r {
                let a = self@;
                let b = other@;
                assert(a.submap_of(b) && b.submap_of(a));
                assert forall|k: Seq<char>| a.dom().contains(k) == b.dom().contains(k) by {
                    if a.dom().contains(k) {
                        assert(b.dom().contains(k));
                    }
                    if b.dom().contains(k) {
                        assert(a.dom().contains(k));
                    }
                }
                assert(a.dom() =~= b.dom());
                assert(a =~= b);
            }
        }
        r
    }
}

impl vstd::std_specs::cmp::PartialEqSpecImpl for Bindings {
    open spec fn obeys_eq_spec() -> bool {
        true
    }

    open spec fn eq_spec(&self, other: &Bindings) -> bool {
        self@ == other@
    }
}

/// Entries with the same names and models stand for the same mapping.
pub proof fn lemma_same_entries(a: Seq<(String, Term)>, b: Seq<(String, Term)>)
    requires
        a.len() == b.len(),
        forall|j: int| 0 <= j < a.len() ==> a[j].0@ == b[j].0@ && a[j].1@ == b[j].1@,
        distinct_keys(a),
    ensures
        distinct_keys(b),
        entries_map(a) == entries_map(b),
{
    assert forall|k: Seq<char>| #![auto] entries_map(a).contains_key(k) implies entries_map(
        b,
    ).contains_key(k) && entries_map(a)[k] == entries_map(b)[k] by {
        let i = choose|i: int| 0 <= i < a.len() && a[i].0@ == k;
        assert(b[i].0@ == k);
        lemma_entry_lookup(a, i);
        lemma_entry_lookup(b, i);
    }
    assert forall|k: Seq<char>| #![auto] entries_map(b).contains_key(k) implies entries_map(
        a,
    ).contains_key(k) by {
        let i = choose|i: int| 0 <= i < b.len() && b[i].0@ == k;
        assert(a[i].0@ == k);
    }
    assert(entries_map(a) =~= entries_map(b));
}

impl Bindings {
    #[verifier::type_invariant]
    spec fn well_formed(self) -> bool {
        distinct_keys(self.entries@)
    }

    /// The mapping that binds nothing.
    pub fn empty() -> (r: Self)
        ensures
            r@ == Map::<Seq<char>, TermModel>::empty(),
    {
        let r = Bindings { entries: Vec::new() };
        assert(r@ =~= Map::<Seq<char>, TermModel>::empty());
        r
    }

    /// The mapping that binds one name.
    pub fn with(name: &str, term: Term) -> (r: Self)
        ensures
            r@ == Map::<Seq<char>, TermModel>::empty().insert(name@, term@),
    {
        let mut entries: Vec<(String, Term)> = Vec::new();
        let ghost before = entries@;
        let entry = (String::from_str(name), term);
        assert(!entries_map(before).contains_key(entry.0@));
        proof {
            lemma_entry_push(before, entry);
            assert(entries_map(before) =~= Map::<Seq<char>, TermModel>::empty());
        }
        entries.push(entry);
        Bindings { entries }
    }

    /// The term bound to a name, if any.
    pub fn get(&self, name: &String) -> (r: Option<&Term>)
        ensures
            match r {
                Some(t) => self@.contains_key(name@) && self@[name@] == t@,
                None => !self@.contains_key(name@),
            },
    {
        proof {
            use_type_invariant(self);
        }
        match find_entry(&self.entries, name) {
            Some(i) => {
                proof {
                    lemma_entry_lookup(self.entries@, i as int);
                }
                Some(&self.entries[i].1)
            },
            None => None,
        }
    }

    /// Merges two mappings. The result holds every name of both; a name that
    /// both bind must be bound to structurally equal terms, or the merge
    /// fails.
    pub fn merge(&self, bindings: &Bindings) -> (r: Option<Bindings>)
        ensures
            match r {
                Some(m) => merge_spec(self@, bindings@) == Some(m@),
                None => merge_spec(self@, bindings@) is None,
            },
    {
        proof {
            use_type_invariant(self);
            use_type_invariant(bindings);
        }
        let copy = self.clone();
        proof {
            use_type_invariant(&copy);
        }
        let mut entries = copy.entries;
        let mut i: usize = 0;
        assert(entries_map(entries@) == self@);
        assert(bindings.entries@.take(0) =~= Seq::<(String, Term)>::empty());
        assert(entries_map(bindings.entries@.take(0)) =~= Map::<Seq<char>, TermModel>::empty());
        assert(self@.union_prefer_right(Map::<Seq<char>, TermModel>::empty()) =~= self@);
        while i < bindings.entries.len()
            invariant
                i <= bindings.entries.len(),
                distinct_keys(bindings.entries@),
                distinct_keys(entries@),
                agree(self@, entries_map(bindings.entries@.take(i as int))),
                entries_map(entries@) == self@.union_prefer_right(
                    entries_map(bindings.entries@.take(i as int)),
                ),
            decreases bindings.entries.len() - i,
        {
            let ghost prefix = bindings.entries@.take(i as int);
            let ghost longer = bindings.entries@.take(i + 1);
            let ghost k = bindings.entries@[i as int].0@;
            let ghost v = bindings.entries@[i as int].1@;
            proof {
                assert(longer =~= prefix.push(bindings.entries@[i as int]));
                assert(!entries_map(prefix).contains_key(k)) by {
                    if entries_map(prefix).contains_key(k) {
                        let j = choose|j: int| 0 <= j < prefix.len() && prefix[j].0@ == k;
                        assert(bindings.entries@[j].0@ == k);
                    }
                }
                lemma_entry_push(prefix, bindings.entries@[i as int]);
                lemma_entry_lookup(bindings.entries@, i as int);
            }
            match find_entry(&entries, &bindings.entries[i].0) {
                Some(at) => {
                    proof {
                        lemma_entry_lookup(entries@, at as int);
                    }
                    if !compare_term(&entries[at].1, &bindings.entries[i].1) {
                        assert(self@.contains_key(k) && bindings@.contains_key(k));
                        assert(self@[k] != bindings@[k]);
                        return None;
                    }
                    assert(entries_map(entries@) =~= self@.union_prefer_right(
                        entries_map(longer),
                    ));
                },
                None => {
                    let entry = (bindings.entries[i].0.clone(), copy_term(&bindings.entries[i].1));
                    proof {
                        lemma_entry_push(entries@, entry);
                        assert(entries_map(entries@).insert(k, v) =~= self@.union_prefer_right(
                            entries_map(longer),
                        ));
                    }
                    entries.push(entry);
                },
            }
            i = i + 1;
        }
        assert(bindings.entries@.take(i as int) =~= bindings.entries@);
        Some(Bindings { entries })
    }

    /// Replaces each bound variable of the term by the substitution of its
    /// value, chasing chains of bindings to their end; unbound variables pass
    /// through. `depth` bounds how many bound variables are replaced one
    /// inside the other: where the bound is passed the result is nothing.
    pub fn substitute(&self, term: Term, depth: usize) -> (r: Option<Term>)
        ensures
            match r {
                Some(t) => substitute_spec(self@, term@, depth as nat) == Some(t@),
                None => substitute_spec(self@, term@, depth as nat) is None,
            },
    {
        self.substitute_in(&term, depth)
    }

    /// The substitution of a borrowed term.
    pub fn substitute_in(&self, term: &Term, depth: usize) -> (r: Option<Term>)
        ensures
            match r {
                Some(t) => substitute_spec(self@, term@, depth as nat) == Some(t@),
                None => substitute_spec(self@, term@, depth as nat) is None,
            },
        decreases depth, term@,
    {
        match &**term {
            TermKind::Var(n) => match self.get(n) {
                Some(t) => {
                    if depth == 0 {
                        None
                    } else {
                        self.substitute_in(t, depth - 1)
                    }
                },
                None => Some(copy_term(term)),
            },
            TermKind::Compound(n, args) => {
                proof {
                    lemma_compound_model(&**term);
                    lemma_substitute_seq(self@, models(args@), depth as nat);
                }
                let mut done: Vec<Term> = Vec::new();
                let mut i: usize = 0;
                while i < args.len()
                    invariant
                        i <= args.len(),
                        done@.len() == i,
                        term@ == TermModel::Compound(n@, models(args@)),
                        forall|j: int|
                            0 <= j < i ==> substitute_spec(self@, #[trigger] args@[j]@, depth as nat)
                                == Some(done@[j]@),
                    decreases args.len() - i,
                {
                    assert(models(args@)[i as int] == args@[i as int]@);
                    match self.substitute_in(&args[i], depth) {
                        Some(t) => done.push(t),
                        None => {
                            proof {
                                lemma_substitute_seq(self@, models(args@), depth as nat);
                            }
                            return None;
                        },
                    }
                    i = i + 1;
                }
                let r = Box::new(TermKind::Compound(n.clone(), done));
                proof {
                    lemma_compound_model(&*r);
                    match substitute_seq(self@, models(args@), depth as nat) {
                        Some(expected) => {
                            assert forall|j: int| 0 <= j < expected.len() implies expected[j]
                                == models(done@)[j] by {
                                assert(models(args@)[j] == args@[j]@);
                            }
                            assert(expected =~= models(done@));
                        },
                        None => {
                            let j = choose|j: int|
                                0 <= j < models(args@).len() && substitute_spec(
                                    self@,
                                    #[trigger] models(args@)[j],
                                    depth as nat,
                                ) is None;
                            assert(models(args@)[j] == args@[j]@);
                        },
                    }
                }
                Some(r)
            },
            TermKind::List(head, tail) => {
                assert(term@ == TermModel::List(Box::new(head@), Box::new(tail@)));
                let h = match self.substitute_in(head, depth) {
                    Some(h) => h,
                    None => {
                        return None;
                    },
                };
                let t = match self.substitute_in(tail, depth) {
                    Some(t) => t,
                    None => {
                        return None;
                    },
                };
                Some(Box::new(TermKind::List(h, t)))
            },
            _ => Some(copy_term(term)),
        }
    }
}

} // verus!
