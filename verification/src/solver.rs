//! The resolver: depth-first, leftmost proof search over the clauses of a
//! database, with chronological backtracking and cut.

use vstd::prelude::*;
use crate::bindings::{compare_term, merge_spec, substitute_spec, Bindings};
use crate::builtins::{apply_builtin, builtin_spec, lookup_builtin, lookup_spec, partial_view};
use crate::rename::{rename_expr, rename_expr_spec, rename_spec, rename_term};
use crate::text::same_text;
use crate::tree::{
    clause_models, copy_term, expr_size, lemma_compound_model, Clause, ClauseModel, Expr, ExprKind,
    ExprModel, Term, TermKind, TermModel,
};
use crate::unify::{unify_spec, unify_term};

verus! {

/// An ordered sequence of clauses, addressed by position. The resolver
/// visits the clauses in this order.
pub struct Database {
    clauses: Vec<Clause>,
}

impl View for Database {
    type V = Seq<ClauseModel>;

    closed spec fn view(&self) -> Seq<ClauseModel> {
        clause_models(self.clauses@)
    }
}

impl Database {
    /// The database of the given clauses, in their order.
    pub fn new(clauses: Vec<Clause>) -> (r: Self)
        ensures
            r@ == clause_models(clauses@),
    {
        Database { clauses }
    }

    /// The number of clauses.
    pub fn len(&self) -> (r: usize)
        ensures
            r == self@.len(),
    {
        self.clauses.len()
    }

    /// The clause at a position.
    pub fn clause(&self, i: usize) -> (r: &Clause)
        requires
            i < self@.len(),
        ensures
            r@ == self@[i as int],
    {
        &self.clauses[i]
    }
}

/// A successful proof: the instantiated goal, the bindings, and the position
/// of the clause that produced it.
#[derive(Debug)]
pub struct Partial {
    pub result: Term,
    pub bindings: Bindings,
    pub rule: usize,
}

/// The model of a successful proof.
pub struct PartialModel {
    pub result: TermModel,
    pub bindings: Map<Seq<char>, TermModel>,
    pub rule: nat,
}

impl View for Partial {
    type V = PartialModel;

    open spec fn view(&self) -> PartialModel {
        PartialModel { result: self.result@, bindings: self.bindings@, rule: self.rule as nat }
    }
}

impl Partial {
    /// The proof with the given parts.
    pub fn new(result: Term, bindings: Bindings, rule: usize) -> (r: Partial)
        ensures
            r@ == (PartialModel { result: result@, bindings: bindings@, rule: rule as nat }),
    {
        Partial { result, bindings, rule }
    }
}

/// Two proofs are equal when their results are structurally equal, their
/// bindings equal and their positions the same.
impl PartialEq for Partial {
    fn eq(&self, other: &Partial) -> (r: bool) {
        compare_term(&self.result, &other.result) && self.bindings == other.bindings && self.rule
            == other.rule
    }
}

impl vstd::std_specs::cmp::PartialEqSpecImpl for Partial {
    open spec fn obeys_eq_spec() -> bool {
        true
    }

    open spec fn eq_spec(&self, other: &Partial) -> bool {
        self@ == other@
    }
}

impl Clone for Partial {
    /// A copy with the same model.
    fn clone(&self) -> (r: Self)
        ensures
            r@ == self@,
    {
        Partial {
            result: copy_term(&self.result),
            bindings: self.bindings.clone(),
            rule: self.rule,
        }
    }
}

/// What a proof search carries along: the generation that the next
/// activation of a clause gets, and the text written so far.
#[derive(Debug)]
pub struct Runtime {
    pub generation: u64,
    pub output: String,
}

/// The model of what a proof search carries along.
pub struct RuntimeModel {
    pub generation: u64,
    pub output: Seq<char>,
}

impl View for Runtime {
    type V = RuntimeModel;

    open spec fn view(&self) -> RuntimeModel {
        RuntimeModel { generation: self.generation, output: self.output@ }
    }
}

/// The state of a search that has activated no clause and written nothing.
pub open spec fn fresh() -> RuntimeModel {
    RuntimeModel { generation: 0, output: Seq::empty() }
}

impl Runtime {
    /// A search that has activated no clause and written nothing.
    pub fn new() -> (r: Self)
        ensures
            r@ == fresh(),
    {
        Runtime { generation: 0, output: String::new() }
    }
}

/// How a proof search ends.
#[derive(Debug)]
pub enum Outcome {
    /// The goal is proved.
    Solved(Partial),
    /// The goal has no proof.
    Failed,
    /// The search was given up: it passed its depth, or no generation is
    /// left for a further activation.
    Exhausted,
}

/// The model of how a proof search ends.
pub enum OutcomeModel {
    Solved(PartialModel),
    Failed,
    Exhausted,
}

impl View for Outcome {
    type V = OutcomeModel;

    open spec fn view(&self) -> OutcomeModel {
        match self {
            Outcome::Solved(p) => OutcomeModel::Solved(p@),
            Outcome::Failed => OutcomeModel::Failed,
            Outcome::Exhausted => OutcomeModel::Exhausted,
        }
    }
}

/// The proof that an outcome holds, if it holds one.
pub open spec fn found(outcome: OutcomeModel) -> Option<PartialModel> {
    match outcome {
        OutcomeModel::Solved(p) => Some(p),
        _ => None,
    }
}

/// The state after one more activation.
pub open spec fn activated(rt: RuntimeModel) -> RuntimeModel {
    RuntimeModel { generation: (rt.generation + 1) as u64, output: rt.output }
}

/// The body is one goal that is an atom or a compound term of the given
/// name.
pub open spec fn is_atom_of_spec(expr: ExprModel, expected: Seq<char>) -> bool {
    match expr {
        ExprModel::Term(TermModel::Atom(s)) => s == expected,
        ExprModel::Term(TermModel::Compound(s, _)) => s == expected,
        _ => false,
    }
}

/// The number of clauses from a cursor on.
pub open spec fn remaining(db: Seq<ClauseModel>, cursor: nat) -> nat {
    if cursor < db.len() {
        (db.len() - cursor) as nat
    } else {
        0
    }
}

/// The name of the cut.
pub open spec fn cut_name() -> Seq<char> {
    "!"@
}

/// The proof search for a goal from a cursor on.
///
/// Past the last clause there is no proof. A goal that names a built-in is
/// handed to it, with no bindings and the cursor past the end. Any other
/// goal is tried against the clauses from the cursor on, in order.
pub open spec fn solve_from_spec(
    db: Seq<ClauseModel>,
    goal: TermModel,
    cursor: nat,
    rt: RuntimeModel,
    depth: nat,
) -> (OutcomeModel, RuntimeModel)
    decreases depth, 1nat,
{
    if cursor >= db.len() {
        (OutcomeModel::Failed, rt)
    } else if depth == 0 {
        (OutcomeModel::Exhausted, rt)
    } else {
        match lookup_spec(goal) {
            Some(builtin) => builtin_spec(
                builtin,
                db,
                goal,
                Map::empty(),
                db.len(),
                rt,
                (depth - 1) as nat,
            ),
            None => scan_spec(db, goal, cursor, rt, (depth - 1) as nat),
        }
    }
}

/// The clauses from position `i` on, tried in order. Each clause tried is an
/// activation with a generation of its own, whether or not its head unifies
/// with the goal. The first clause that yields a proof ends the search.
pub open spec fn scan_spec(
    db: Seq<ClauseModel>,
    goal: TermModel,
    i: nat,
    rt: RuntimeModel,
    depth: nat,
) -> (OutcomeModel, RuntimeModel)
    decreases depth, 5nat, db.len() - i, 0nat,
{
    if i >= db.len() {
        (OutcomeModel::Failed, rt)
    } else if rt.generation == u64::MAX {
        (OutcomeModel::Exhausted, rt)
    } else {
        let generation = rt.generation;
        let rt1 = activated(rt);
        match db[i as int] {
            ClauseModel::Fact(head) => match unify_spec(goal, rename_spec(head, generation)) {
                Some((unified, bindings)) => match substitute_spec(bindings, unified, depth) {
                    Some(result) => (
                        OutcomeModel::Solved(PartialModel { result, bindings, rule: i }),
                        rt1,
                    ),
                    None => (OutcomeModel::Exhausted, rt1),
                },
                None => scan_spec(db, goal, i + 1, rt1, depth),
            },
            ClauseModel::Rule(head, body) => {
                let head = rename_spec(head, generation);
                match unify_spec(goal, head) {
                    Some((_, bindings)) => {
                        let (outcome, rt2) = solve_expression_spec(
                            db,
                            bindings,
                            rename_expr_spec(body, generation),
                            0,
                            rt1,
                            depth,
                        );
                        match outcome {
                            OutcomeModel::Solved(partial) => match merge_spec(
                                bindings,
                                partial.bindings,
                            ) {
                                Some(merged) => match substitute_spec(merged, head, depth) {
                                    Some(result) => (
                                        OutcomeModel::Solved(
                                            PartialModel { result, bindings: merged, rule: i },
                                        ),
                                        rt2,
                                    ),
                                    None => (OutcomeModel::Exhausted, rt2),
                                },
                                None => (OutcomeModel::Failed, rt2),
                            },
                            OutcomeModel::Failed => scan_spec(db, goal, i + 1, rt2, depth),
                            OutcomeModel::Exhausted => (OutcomeModel::Exhausted, rt2),
                        }
                    },
                    None => scan_spec(db, goal, i + 1, rt1, depth),
                }
            },
        }
    }
}

/// The proof of a body under given bindings.
///
/// One goal is proved with the bindings substituted into it, from the cursor
/// on, and the bindings of its proof are merged into the given ones. A
/// conjunction is proved left operand first; the cursor does not apply to
/// it.
pub open spec fn solve_expression_spec(
    db: Seq<ClauseModel>,
    bindings: Map<Seq<char>, TermModel>,
    expr: ExprModel,
    cursor: nat,
    rt: RuntimeModel,
    depth: nat,
) -> (OutcomeModel, RuntimeModel)
    decreases depth, 2nat, 2 * expr_size(expr) + 1, 0nat,
{
    match expr {
        ExprModel::Term(term) => match substitute_spec(bindings, term, depth) {
            Some(goal) => {
                let (outcome, rt1) = solve_from_spec(db, goal, cursor, rt, depth);
                match outcome {
                    OutcomeModel::Solved(partial) => match merge_spec(bindings, partial.bindings) {
                        Some(merged) => (
                            OutcomeModel::Solved(
                                PartialModel {
                                    result: partial.result,
                                    bindings: merged,
                                    rule: partial.rule,
                                },
                            ),
                            rt1,
                        ),
                        None => (OutcomeModel::Failed, rt1),
                    },
                    other => (other, rt1),
                }
            },
            None => (OutcomeModel::Exhausted, rt),
        },
        ExprModel::Conjunct(_, _) => conjunction_spec(db, bindings, expr, 0, rt, depth),
    }
}

/// The proof of a conjunction whose left operand is tried from `cursor` on.
///
/// For each proof of the left operand the right operand is tried from the
/// start under the merged bindings. Where the right operand has no proof,
/// the search fails at once if the left operand is the cut, and otherwise
/// goes on with the alternative of the left operand after the clause that
/// proved it. An alternative that does not lie further on among the clauses
/// uses up one level of depth.
pub open spec fn conjunction_spec(
    db: Seq<ClauseModel>,
    bindings: Map<Seq<char>, TermModel>,
    expr: ExprModel,
    cursor: nat,
    rt: RuntimeModel,
    depth: nat,
) -> (OutcomeModel, RuntimeModel)
    decreases depth, 2nat, 2 * expr_size(expr), remaining(db, cursor),
{
    match expr {
        ExprModel::Conjunct(left, right) => {
            let (first, rt1) = solve_expression_spec(db, bindings, *left, cursor, rt, depth);
            match first {
                OutcomeModel::Solved(partial) => match merge_spec(bindings, partial.bindings) {
                    Some(merged) => {
                        let (second, rt2) = solve_expression_spec(
                            db,
                            merged,
                            *right,
                            0,
                            rt1,
                            depth,
                        );
                        match second {
                            OutcomeModel::Failed => if is_atom_of_spec(*left, cut_name()) {
                                (OutcomeModel::Failed, rt2)
                            } else if cursor < db.len() && partial.rule >= cursor {
                                conjunction_spec(db, bindings, expr, partial.rule + 1, rt2, depth)
                            } else if depth == 0 {
                                (OutcomeModel::Exhausted, rt2)
                            } else {
                                conjunction_spec(
                                    db,
                                    bindings,
                                    expr,
                                    partial.rule + 1,
                                    rt2,
                                    (depth - 1) as nat,
                                )
                            },
                            other => (other, rt2),
                        }
                    },
                    None => (OutcomeModel::Failed, rt1),
                },
                other => (other, rt1),
            }
        },
        ExprModel::Term(_) => (OutcomeModel::Failed, rt),
    }
}

/// Past the last clause the cursor makes no difference to the proof of a
/// body.
pub proof fn lemma_cursor_past_end(
    db: Seq<ClauseModel>,
    bindings: Map<Seq<char>, TermModel>,
    expr: ExprModel,
    c1: nat,
    c2: nat,
    rt: RuntimeModel,
    depth: nat,
)
    requires
        c1 >= db.len(),
        c2 >= db.len(),
    ensures
        solve_expression_spec(db, bindings, expr, c1, rt, depth) == solve_expression_spec(
            db,
            bindings,
            expr,
            c2,
            rt,
            depth,
        ),
{
    match expr {
        ExprModel::Term(term) => {
            match substitute_spec(bindings, term, depth) {
                Some(goal) => {
                    assert(solve_from_spec(db, goal, c1, rt, depth) == (OutcomeModel::Failed, rt));
                    assert(solve_from_spec(db, goal, c2, rt, depth) == (OutcomeModel::Failed, rt));
                },
                None => {},
            }
        },
        ExprModel::Conjunct(_, _) => {},
    }
}

/// Past the last clause the cursor makes no difference to the proof of a
/// conjunction.
pub proof fn lemma_conjunction_past_end(
    db: Seq<ClauseModel>,
    bindings: Map<Seq<char>, TermModel>,
    expr: ExprModel,
    c1: nat,
    c2: nat,
    rt: RuntimeModel,
    depth: nat,
)
    requires
        c1 >= db.len(),
        c2 >= db.len(),
    ensures
        conjunction_spec(db, bindings, expr, c1, rt, depth) == conjunction_spec(
            db,
            bindings,
            expr,
            c2,
            rt,
            depth,
        ),
{
    match expr {
        ExprModel::Conjunct(left, right) => {
            lemma_cursor_past_end(db, bindings, *left, c1, c2, rt, depth);
        },
        ExprModel::Term(_) => {},
    }
}

/// Whether a body is one goal that is an atom or a compound term of the
/// given name.
pub fn is_atom_of(expr: &Expr, expected: &str) -> (r: bool)
    ensures
        r == is_atom_of_spec(expr@, expected@),
{
    match &**expr {
        ExprKind::Term(term) => match &**term {
            TermKind::Atom(string) => same_text(string.as_str(), expected),
            TermKind::Compound(string, _) => {
                proof {
                    lemma_compound_model(&**term);
                }
                same_text(string.as_str(), expected)
            },
            _ => false,
        },
        _ => false,
    }
}

/// The depth that `Query::solve` and `Query::solve_from` search to.
pub const DEFAULT_DEPTH: usize = 2048;

/// A goal to prove.
pub struct Query {
    goal: Term,
}

impl View for Query {
    type V = TermModel;

    closed spec fn view(&self) -> TermModel {
        self.goal@
    }
}

/// The proof of an outcome, if it holds one.
pub fn into_partial(outcome: Outcome) -> (r: Option<Partial>)
    ensures
        partial_view(r) == found(outcome@),
{
    match outcome {
        Outcome::Solved(p) => Some(p),
        _ => None,
    }
}

impl Query {
    /// The query for a goal.
    pub fn new(term: Term) -> (r: Self)
        ensures
            r@ == term@,
    {
        Query { goal: term }
    }

    /// The first proof of the goal, searched to the default depth by a
    /// search of its own.
    pub fn solve(&self, db: &Database) -> (r: Option<Partial>)
        ensures
            partial_view(r) == found(
                solve_from_spec(db@, self@, 0, fresh(), DEFAULT_DEPTH as nat).0,
            ),
    {
        self.solve_from(db, 0)
    }

    /// The first proof of the goal by a clause from position `at` on,
    /// searched to the default depth by a search of its own. The `rule` of
    /// the proof is the position of the clause that gave it: the search for
    /// the next proof starts one past it.
    pub fn solve_from(&self, db: &Database, at: usize) -> (r: Option<Partial>)
        ensures
            partial_view(r) == found(
                solve_from_spec(db@, self@, at as nat, fresh(), DEFAULT_DEPTH as nat).0,
            ),
    {
        let mut runtime = Runtime::new();
        into_partial(self.solve_within(db, at, &mut runtime, DEFAULT_DEPTH))
    }

    /// The first proof of the goal by a clause from position `at` on, within
    /// a search that the caller holds: the generations go on from the
    /// runtime's, what the proof writes is appended to its output, and
    /// `depth` bounds how deep goals, retried conjunctions and chains of
    /// bindings may nest.
    pub fn solve_within(&self, db: &Database, at: usize, runtime: &mut Runtime, depth: usize) -> (r:
        Outcome)
        ensures
            (r@, final(runtime)@) == solve_from_spec(
                db@,
                self@,
                at as nat,
                old(runtime)@,
                depth as nat,
            ),
        decreases depth, 1nat,
    {
        if at >= db.len() {
            return Outcome::Failed;
        }
        if depth == 0 {
            return Outcome::Exhausted;
        }
        if let Some(which) = lookup_builtin(&self.goal) {
            let none = Bindings::empty();
            return apply_builtin(which, db, &self.goal, &none, db.len(), runtime, depth - 1);
        }
        let inner = depth - 1;
        let ghost expected = solve_from_spec(
            db@,
            self@,
            at as nat,
            old(runtime)@,
            depth as nat,
        );
        let mut i: usize = at;
        while i < db.len()
            invariant
                at <= i <= db@.len(),
                inner == depth - 1,
                expected == solve_from_spec(
                    db@,
                    self@,
                    at as nat,
                    old(runtime)@,
                    depth as nat,
                ),
                expected == scan_spec(db@, self@, i as nat, runtime@, inner as nat),
            decreases db@.len() - i,
        {
            if runtime.generation == u64::MAX {
                return Outcome::Exhausted;
            }
            let generation = runtime.generation;
            runtime.generation = generation + 1;
            match db.clause(i) {
                Clause::Fact(t) => {
                    let t = rename_term(t, generation);
                    if let Some((n, bindings)) = unify_term(&self.goal, &t) {
                        return match bindings.substitute(n, inner) {
                            Some(result) => Outcome::Solved(Partial::new(result, bindings, i)),
                            None => Outcome::Exhausted,
                        };
                    }
                },
                Clause::Rule(lhs, rhs) => {
                    let lhs = rename_term(lhs, generation);
                    let rhs = rename_expr(rhs, generation);
                    if let Some((_, bindings)) = unify_term(&self.goal, &lhs) {
                        match solve_expression(db, &bindings, &rhs, 0, runtime, inner) {
                            Outcome::Solved(partial) => {
                                return match bindings.merge(&partial.bindings) {
                                    Some(merged) => match merged.substitute(lhs, inner) {
                                        Some(result) => Outcome::Solved(
                                            Partial::new(result, merged, i),
                                        ),
                                        None => Outcome::Exhausted,
                                    },
                                    None => Outcome::Failed,
                                };
                            },
                            Outcome::Failed => {},
                            Outcome::Exhausted => {
                                return Outcome::Exhausted;
                            },
                        }
                    }
                },
            }
            i = i + 1;
        }
        Outcome::Failed
    }
}

/// Proves a body under given bindings. One goal is proved with the bindings
/// substituted into it, from the cursor on; a conjunction is proved left
/// operand first, backtracking into the left operand while the right one has
/// no proof, unless the left operand is the cut.
pub fn solve_expression(
    db: &Database,
    init_bindings: &Bindings,
    expr: &Expr,
    at_rule: usize,
    runtime: &mut Runtime,
    depth: usize,
) -> (r: Outcome)
    ensures
        (r@, final(runtime)@) == solve_expression_spec(
            db@,
            init_bindings@,
            expr@,
            at_rule as nat,
            old(runtime)@,
            depth as nat,
        ),
    decreases depth, 2nat, 2 * expr_size(expr@) + 1, 0nat,
{
    match &**expr {
        ExprKind::Term(term) => {
            let goal = match init_bindings.substitute_in(term, depth) {
                Some(goal) => goal,
                None => {
                    return Outcome::Exhausted;
                },
            };
            let dependent = Query::new(goal);
            match dependent.solve_within(db, at_rule, runtime, depth) {
                Outcome::Solved(partial) => match init_bindings.merge(&partial.bindings) {
                    Some(merged) => Outcome::Solved(
                        Partial::new(partial.result, merged, partial.rule),
                    ),
                    None => Outcome::Failed,
                },
                other => other,
            }
        },
        ExprKind::Conjunct(expr1, expr2) => {
            let ghost expected = solve_expression_spec(
                db@,
                init_bindings@,
                expr@,
                at_rule as nat,
                old(runtime)@,
                depth as nat,
            );
            let ghost whole = expr@;
            let mut rule: usize = 0;
            let mut left_depth: usize = depth;
            assert(expr@ == ExprModel::Conjunct(Box::new(expr1@), Box::new(expr2@)));
            loop
                invariant
                    left_depth <= depth,
                    whole == expr@,
                    whole == ExprModel::Conjunct(Box::new(expr1@), Box::new(expr2@)),
                    expected == solve_expression_spec(
                        db@,
                        init_bindings@,
                        expr@,
                        at_rule as nat,
                        old(runtime)@,
                        depth as nat,
                    ),
                    expected == conjunction_spec(
                        db@,
                        init_bindings@,
                        whole,
                        rule as nat,
                        runtime@,
                        left_depth as nat,
                    ),
                decreases left_depth, remaining(db@, rule as nat),
            {
                match solve_expression(db, init_bindings, expr1, rule, runtime, left_depth) {
                    Outcome::Solved(partial) => {
                        let bindings = match init_bindings.merge(&partial.bindings) {
                            Some(bindings) => bindings,
                            None => {
                                return Outcome::Failed;
                            },
                        };
                        match solve_expression(db, &bindings, expr2, 0, runtime, left_depth) {
                            Outcome::Failed => {},
                            other => {
                                return other;
                            },
                        }
                        if is_atom_of(expr1, "!") {
                            return Outcome::Failed;
                        }
                        let total = db.len();
                        let next: usize = if partial.rule < usize::MAX {
                            partial.rule + 1
                        } else {
                            proof {
                                lemma_conjunction_past_end(
                                    db@,
                                    init_bindings@,
                                    whole,
                                    partial.rule as nat,
                                    (partial.rule + 1) as nat,
                                    runtime@,
                                    left_depth as nat,
                                );
                                if left_depth > 0 {
                                    lemma_conjunction_past_end(
                                        db@,
                                        init_bindings@,
                                        whole,
                                        partial.rule as nat,
                                        (partial.rule + 1) as nat,
                                        runtime@,
                                        (left_depth - 1) as nat,
                                    );
                                }
                            }
                            partial.rule
                        };
                        if rule < total && partial.rule >= rule {
                            rule = next;
                        } else if left_depth == 0 {
                            return Outcome::Exhausted;
                        } else {
                            rule = next;
                            left_depth = left_depth - 1;
                        }
                    },
                    other => {
                        return other;
                    },
                }
            }
        },
    }
}

} // verus!
