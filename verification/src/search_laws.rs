//! Laws of the resolver.

use vstd::prelude::*;
use crate::bindings::{merge_spec, substitute_spec};
use crate::builtins::{
    builtin_spec, called_goal, lookup_spec, operands, simplify_spec, BuiltinPredicate,
};
use crate::laws::{
    extends, extends_transitive, lemma_unify_sound, merge_extends, substitutes_to,
    substitution_monotone,
};
use crate::rename::{rename_expr_spec, rename_spec};
use crate::solver::{
    activated, conjunction_spec, cut_name, found, fresh, is_atom_of_spec, remaining, scan_spec,
    solve_expression_spec, solve_from_spec, OutcomeModel, PartialModel, RuntimeModel,
};
use crate::tree::{expr_size, ClauseModel, ExprModel, TermModel};
use crate::unify::unify_spec;

verus! {

/// The head of a clause.
pub open spec fn head_of(clause: ClauseModel) -> TermModel {
    match clause {
        ClauseModel::Fact(head) => head,
        ClauseModel::Rule(head, _) => head,
    }
}

/// A proof found by trying the clauses from a position on is the proof of a
/// clause at or after that position, whose head, renamed for some
/// generation, unifies with the goal.
pub proof fn lemma_scan_position(
    db: Seq<ClauseModel>,
    goal: TermModel,
    i: nat,
    rt: RuntimeModel,
    depth: nat,
)
    ensures
        match scan_spec(db, goal, i, rt, depth).0 {
            OutcomeModel::Solved(p) => i <= p.rule < db.len() && exists|generation: u64|
                #[trigger] unify_spec(
                    goal,
                    rename_spec(head_of(db[p.rule as int]), generation),
                ) is Some,
            _ => true,
        },
    decreases db.len() - i,
{
    if i < db.len() && rt.generation != u64::MAX {
        let generation = rt.generation;
        let rt1 = activated(rt);
        let head = rename_spec(head_of(db[i as int]), generation);
        match unify_spec(goal, head) {
            Some((_, bindings)) => {
                match db[i as int] {
                    ClauseModel::Fact(_) => {},
                    ClauseModel::Rule(_, body) => {
                        let (outcome, rt2) = solve_expression_spec(
                            db,
                            bindings,
                            rename_expr_spec(body, generation),
                            0,
                            rt1,
                            depth,
                        );
                        if outcome is Failed {
                            lemma_scan_position(db, goal, i + 1, rt2, depth);
                        }
                    },
                }
            },
            None => {
                lemma_scan_position(db, goal, i + 1, rt1, depth);
            },
        }
    }
}

/// The position of an answer: a proof of a goal that is no meta-call names
/// a position at or after the cursor. For a goal that names no built-in it
/// is the position of a clause whose head, renamed for some generation,
/// unifies with the goal; for a built-in it is the position past the last
/// clause.
pub proof fn answer_position(
    db: Seq<ClauseModel>,
    goal: TermModel,
    cursor: nat,
    rt: RuntimeModel,
    depth: nat,
)
    requires
        lookup_spec(goal) != Some(BuiltinPredicate::Call),
    ensures
        match solve_from_spec(db, goal, cursor, rt, depth).0 {
            OutcomeModel::Solved(p) => {
                &&& cursor < db.len()
                &&& cursor <= p.rule <= db.len()
                &&& lookup_spec(goal) is Some ==> p.rule == db.len()
                &&& lookup_spec(goal) is None ==> p.rule < db.len() && exists|generation: u64|
                    #[trigger] unify_spec(
                        goal,
                        rename_spec(head_of(db[p.rule as int]), generation),
                    ) is Some
            },
            _ => true,
        },
{
    if cursor < db.len() && depth > 0 {
        match lookup_spec(goal) {
            Some(which) => {},
            None => {
                lemma_scan_position(db, goal, cursor, rt, (depth - 1) as nat);
            },
        }
    }
}

/// An answer is the goal instantiated: the result of a proof of a goal that
/// names no built-in is the full substitution of the goal under the bindings
/// of the proof.
pub proof fn answer_instantiates_goal(
    db: Seq<ClauseModel>,
    goal: TermModel,
    cursor: nat,
    rt: RuntimeModel,
    depth: nat,
)
    requires
        lookup_spec(goal) is None,
    ensures
        match solve_from_spec(db, goal, cursor, rt, depth).0 {
            OutcomeModel::Solved(p) => substitutes_to(p.bindings, goal, p.result),
            _ => true,
        },
{
    if cursor < db.len() && depth > 0 {
        lemma_scan_instantiates(db, goal, cursor, rt, (depth - 1) as nat);
    }
}

/// A proof found by trying the clauses from a position on has as its result
/// the full substitution of the goal under its bindings.
pub proof fn lemma_scan_instantiates(
    db: Seq<ClauseModel>,
    goal: TermModel,
    i: nat,
    rt: RuntimeModel,
    depth: nat,
)
    ensures
        match scan_spec(db, goal, i, rt, depth).0 {
            OutcomeModel::Solved(p) => substitutes_to(p.bindings, goal, p.result),
            _ => true,
        },
    decreases db.len() - i,
{
    if i < db.len() && rt.generation != u64::MAX {
        let generation = rt.generation;
        let rt1 = activated(rt);
        let head = rename_spec(head_of(db[i as int]), generation);
        match unify_spec(goal, head) {
            Some((unified, bindings)) => {
                match db[i as int] {
                    ClauseModel::Fact(_) => {
                        match substitute_spec(bindings, unified, depth) {
                            Some(result) => {
                                lemma_unify_sound(goal, head, bindings, depth, result);
                                assert(substitute_spec(bindings, goal, depth + 1) == Some(result));
                            },
                            None => {},
                        }
                    },
                    ClauseModel::Rule(_, body) => {
                        let (outcome, rt2) = solve_expression_spec(
                            db,
                            bindings,
                            rename_expr_spec(body, generation),
                            0,
                            rt1,
                            depth,
                        );
                        match outcome {
                            OutcomeModel::Solved(partial) => {
                                match merge_spec(bindings, partial.bindings) {
                                    Some(merged) => {
                                        merge_extends(bindings, partial.bindings);
                                        match substitute_spec(merged, head, depth) {
                                            Some(result) => {
                                                lemma_unify_sound(
                                                    goal,
                                                    head,
                                                    merged,
                                                    depth,
                                                    result,
                                                );
                                                assert(substitute_spec(merged, goal, depth + 1)
                                                    == Some(result));
                                            },
                                            None => {},
                                        }
                                    },
                                    None => {},
                                }
                            },
                            OutcomeModel::Failed => {
                                lemma_scan_instantiates(db, goal, i + 1, rt2, depth);
                            },
                            OutcomeModel::Exhausted => {},
                        }
                    },
                }
            },
            None => {
                lemma_scan_instantiates(db, goal, i + 1, rt1, depth);
            },
        }
    }
}

/// The state in which a search that started at position `i` comes to
/// position `j`, every clause between them having given no proof.
pub open spec fn state_at(
    db: Seq<ClauseModel>,
    goal: TermModel,
    i: nat,
    rt: RuntimeModel,
    depth: nat,
    j: nat,
) -> RuntimeModel
    decreases j - i,
{
    if i >= j || i >= db.len() {
        rt
    } else {
        let generation = rt.generation;
        let rt1 = activated(rt);
        let after = match db[i as int] {
            ClauseModel::Fact(_) => rt1,
            ClauseModel::Rule(head, body) => match unify_spec(
                goal,
                rename_spec(head, generation),
            ) {
                Some((_, bindings)) => solve_expression_spec(
                    db,
                    bindings,
                    rename_expr_spec(body, generation),
                    0,
                    rt1,
                    depth,
                ).1,
                None => rt1,
            },
        };
        state_at(db, goal, i + 1, after, depth, j)
    }
}

/// No answer is passed over: where the clauses from a position on give a
/// proof by the clause at `p.rule`, every clause before that one was tried
/// and gave none, so that the search from any position between the two, in
/// the state in which the first search came there, gives the same proof.
pub proof fn no_answer_skipped(
    db: Seq<ClauseModel>,
    goal: TermModel,
    i: nat,
    rt: RuntimeModel,
    depth: nat,
    j: nat,
)
    requires
        scan_spec(db, goal, i, rt, depth).0 is Solved,
        i <= j <= scan_spec(db, goal, i, rt, depth).0->Solved_0.rule,
    ensures
        scan_spec(db, goal, j, state_at(db, goal, i, rt, depth, j), depth) == scan_spec(
            db,
            goal,
            i,
            rt,
            depth,
        ),
    decreases j - i,
{
    if i < j {
        lemma_scan_position(db, goal, i, rt, depth);
        let generation = rt.generation;
        let rt1 = activated(rt);
        let head = rename_spec(head_of(db[i as int]), generation);
        match unify_spec(goal, head) {
            Some((_, bindings)) => {
                match db[i as int] {
                    ClauseModel::Fact(_) => {},
                    ClauseModel::Rule(_, body) => {
                        let (outcome, rt2) = solve_expression_spec(
                            db,
                            bindings,
                            rename_expr_spec(body, generation),
                            0,
                            rt1,
                            depth,
                        );
                        no_answer_skipped(db, goal, i + 1, rt2, depth, j);
                    },
                }
            },
            None => {
                no_answer_skipped(db, goal, i + 1, rt1, depth, j);
            },
        }
    }
}

/// The proof of a body keeps the bindings it was given: the bindings of its
/// answer extend them, so that merging the two gives the answer's own.
pub proof fn body_keeps_bindings(
    db: Seq<ClauseModel>,
    bindings: Map<Seq<char>, TermModel>,
    expr: ExprModel,
    cursor: nat,
    rt: RuntimeModel,
    depth: nat,
)
    ensures
        match solve_expression_spec(db, bindings, expr, cursor, rt, depth).0 {
            OutcomeModel::Solved(p) => extends(p.bindings, bindings) && merge_spec(
                bindings,
                p.bindings,
            ) == Some(p.bindings),
            _ => true,
        },
    decreases depth, 2 * expr_size(expr) + 1, 0nat,
{
    match expr {
        ExprModel::Term(term) => {
            match substitute_spec(bindings, term, depth) {
                Some(goal) => {
                    match solve_from_spec(db, goal, cursor, rt, depth).0 {
                        OutcomeModel::Solved(partial) => {
                            if merge_spec(bindings, partial.bindings) is Some {
                                merge_extends(bindings, partial.bindings);
                            }
                        },
                        _ => {},
                    }
                },
                None => {},
            }
        },
        ExprModel::Conjunct(_, _) => {
            lemma_conjunction_keeps_bindings(db, bindings, expr, 0, rt, depth);
        },
    }
    match solve_expression_spec(db, bindings, expr, cursor, rt, depth).0 {
        OutcomeModel::Solved(p) => {
            assert(bindings.union_prefer_right(p.bindings) =~= p.bindings);
        },
        _ => {},
    }
}

/// The proof of a conjunction keeps the bindings it was given.
pub proof fn lemma_conjunction_keeps_bindings(
    db: Seq<ClauseModel>,
    bindings: Map<Seq<char>, TermModel>,
    expr: ExprModel,
    cursor: nat,
    rt: RuntimeModel,
    depth: nat,
)
    ensures
        match conjunction_spec(db, bindings, expr, cursor, rt, depth).0 {
            OutcomeModel::Solved(p) => extends(p.bindings, bindings),
            _ => true,
        },
    decreases depth, 2 * expr_size(expr), remaining(db, cursor),
{
    match expr {
        ExprModel::Conjunct(left, right) => {
            let (first, rt1) = solve_expression_spec(db, bindings, *left, cursor, rt, depth);
            match first {
                OutcomeModel::Solved(partial) => match merge_spec(bindings, partial.bindings) {
                    Some(merged) => {
                        merge_extends(bindings, partial.bindings);
                        let (second, rt2) = solve_expression_spec(
                            db,
                            merged,
                            *right,
                            0,
                            rt1,
                            depth,
                        );
                        match second {
                            OutcomeModel::Solved(p) => {
                                body_keeps_bindings(db, merged, *right, 0, rt1, depth);
                                extends_transitive(p.bindings, merged, bindings);
                            },
                            OutcomeModel::Failed => {
                                if is_atom_of_spec(*left, cut_name()) {
                                } else if cursor < db.len() && partial.rule >= cursor {
                                    lemma_conjunction_keeps_bindings(
                                        db,
                                        bindings,
                                        expr,
                                        partial.rule + 1,
                                        rt2,
                                        depth,
                                    );
                                } else if depth > 0 {
                                    lemma_conjunction_keeps_bindings(
                                        db,
                                        bindings,
                                        expr,
                                        partial.rule + 1,
                                        rt2,
                                        (depth - 1) as nat,
                                    );
                                }
                            },
                            OutcomeModel::Exhausted => {},
                        }
                    },
                    None => {},
                },
                _ => {},
            }
        },
        ExprModel::Term(_) => {},
    }
}

/// One state of a search comes after another: its generation is no
/// smaller, and its output starts with the other's.
pub open spec fn grows(before: RuntimeModel, after: RuntimeModel) -> bool {
    &&& before.generation <= after.generation
    &&& before.output.len() <= after.output.len()
    &&& after.output.subrange(0, before.output.len() as int) == before.output
}

/// What comes after a later state comes after an earlier one.
pub proof fn grows_transitive(a: RuntimeModel, b: RuntimeModel, c: RuntimeModel)
    requires
        grows(a, b),
        grows(b, c),
    ensures
        grows(a, c),
{
    assert(c.output.subrange(0, a.output.len() as int) =~= b.output.subrange(
        0,
        a.output.len() as int,
    ));
}

/// A state comes after itself.
pub proof fn grows_reflexive(a: RuntimeModel)
    ensures
        grows(a, a),
{
    assert(a.output.subrange(0, a.output.len() as int) =~= a.output);
}

/// A search only moves on: whatever its outcome, the generations it leaves
/// are no smaller than those it found, and it has only added to the output.
pub proof fn search_moves_on(
    db: Seq<ClauseModel>,
    goal: TermModel,
    cursor: nat,
    rt: RuntimeModel,
    depth: nat,
)
    ensures
        grows(rt, solve_from_spec(db, goal, cursor, rt, depth).1),
    decreases depth, 1nat, 0nat, 0nat,
{
    grows_reflexive(rt);
    if cursor < db.len() && depth > 0 {
        match lookup_spec(goal) {
            Some(which) => {
                lemma_builtin_moves_on(
                    which,
                    db,
                    goal,
                    Map::empty(),
                    db.len(),
                    rt,
                    (depth - 1) as nat,
                );
            },
            None => {
                lemma_scan_moves_on(db, goal, cursor, rt, (depth - 1) as nat);
            },
        }
    }
}

/// Trying the clauses from a position on only moves on.
pub proof fn lemma_scan_moves_on(
    db: Seq<ClauseModel>,
    goal: TermModel,
    i: nat,
    rt: RuntimeModel,
    depth: nat,
)
    ensures
        grows(rt, scan_spec(db, goal, i, rt, depth).1),
    decreases depth, 5nat, db.len() - i, 0nat,
{
    grows_reflexive(rt);
    if i < db.len() && rt.generation != u64::MAX {
        let generation = rt.generation;
        let rt1 = activated(rt);
        assert(grows(rt, rt1)) by {
            assert(rt1.output.subrange(0, rt.output.len() as int) =~= rt.output);
        }
        let head = rename_spec(head_of(db[i as int]), generation);
        match unify_spec(goal, head) {
            Some((_, bindings)) => {
                match db[i as int] {
                    ClauseModel::Fact(_) => {},
                    ClauseModel::Rule(_, body) => {
                        let renamed = rename_expr_spec(body, generation);
                        let (outcome, rt2) = solve_expression_spec(
                            db,
                            bindings,
                            renamed,
                            0,
                            rt1,
                            depth,
                        );
                        lemma_body_moves_on(db, bindings, renamed, 0, rt1, depth);
                        grows_transitive(rt, rt1, rt2);
                        if outcome is Failed {
                            lemma_scan_moves_on(db, goal, i + 1, rt2, depth);
                            grows_transitive(rt, rt2, scan_spec(db, goal, i + 1, rt2, depth).1);
                        }
                    },
                }
            },
            None => {
                lemma_scan_moves_on(db, goal, i + 1, rt1, depth);
                grows_transitive(rt, rt1, scan_spec(db, goal, i + 1, rt1, depth).1);
            },
        }
    }
}

/// The proof of a body only moves on.
pub proof fn lemma_body_moves_on(
    db: Seq<ClauseModel>,
    bindings: Map<Seq<char>, TermModel>,
    expr: ExprModel,
    cursor: nat,
    rt: RuntimeModel,
    depth: nat,
)
    ensures
        grows(rt, solve_expression_spec(db, bindings, expr, cursor, rt, depth).1),
    decreases depth, 2nat, 2 * expr_size(expr) + 1, 0nat,
{
    grows_reflexive(rt);
    match expr {
        ExprModel::Term(term) => {
            match substitute_spec(bindings, term, depth) {
                Some(goal) => {
                    search_moves_on(db, goal, cursor, rt, depth);
                },
                None => {},
            }
        },
        ExprModel::Conjunct(_, _) => {
            lemma_conjunction_moves_on(db, bindings, expr, 0, rt, depth);
        },
    }
}

/// The proof of a conjunction only moves on.
pub proof fn lemma_conjunction_moves_on(
    db: Seq<ClauseModel>,
    bindings: Map<Seq<char>, TermModel>,
    expr: ExprModel,
    cursor: nat,
    rt: RuntimeModel,
    depth: nat,
)
    ensures
        grows(rt, conjunction_spec(db, bindings, expr, cursor, rt, depth).1),
    decreases depth, 2nat, 2 * expr_size(expr), remaining(db, cursor),
{
    grows_reflexive(rt);
    match expr {
        ExprModel::Conjunct(left, right) => {
            let (first, rt1) = solve_expression_spec(db, bindings, *left, cursor, rt, depth);
            lemma_body_moves_on(db, bindings, *left, cursor, rt, depth);
            match first {
                OutcomeModel::Solved(partial) => match merge_spec(bindings, partial.bindings) {
                    Some(merged) => {
                        let (second, rt2) = solve_expression_spec(
                            db,
                            merged,
                            *right,
                            0,
                            rt1,
                            depth,
                        );
                        lemma_body_moves_on(db, merged, *right, 0, rt1, depth);
                        grows_transitive(rt, rt1, rt2);
                        if second is Failed && !is_atom_of_spec(*left, cut_name()) {
                            if cursor < db.len() && partial.rule >= cursor {
                                lemma_conjunction_moves_on(
                                    db,
                                    bindings,
                                    expr,
                                    partial.rule + 1,
                                    rt2,
                                    depth,
                                );
                                grows_transitive(
                                    rt,
                                    rt2,
                                    conjunction_spec(
                                        db,
                                        bindings,
                                        expr,
                                        partial.rule + 1,
                                        rt2,
                                        depth,
                                    ).1,
                                );
                            } else if depth > 0 {
                                lemma_conjunction_moves_on(
                                    db,
                                    bindings,
                                    expr,
                                    partial.rule + 1,
                                    rt2,
                                    (depth - 1) as nat,
                                );
                                grows_transitive(
                                    rt,
                                    rt2,
                                    conjunction_spec(
                                        db,
                                        bindings,
                                        expr,
                                        partial.rule + 1,
                                        rt2,
                                        (depth - 1) as nat,
                                    ).1,
                                );
                            }
                        }
                    },
                    None => {},
                },
                _ => {},
            }
        },
        ExprModel::Term(_) => {},
    }
}

/// A built-in only moves on.
pub proof fn lemma_builtin_moves_on(
    which: BuiltinPredicate,
    db: Seq<ClauseModel>,
    term: TermModel,
    bindings: Map<Seq<char>, TermModel>,
    at_rule: nat,
    rt: RuntimeModel,
    depth: nat,
)
    ensures
        grows(rt, builtin_spec(which, db, term, bindings, at_rule, rt, depth).1),
    decreases depth, 3nat, 0nat, 0nat,
{
    grows_reflexive(rt);
    let after = builtin_spec(which, db, term, bindings, at_rule, rt, depth).1;
    match which {
        BuiltinPredicate::Nl => {
            assert(after.output.subrange(0, rt.output.len() as int) =~= rt.output);
        },
        BuiltinPredicate::Write => {
            assert(after.output.subrange(0, rt.output.len() as int) =~= rt.output);
        },
        BuiltinPredicate::Is => {
            match operands(term) {
                Some((_, rhs)) => {
                    if depth > 0 {
                        lemma_simplify_moves_on(db, rhs, bindings, at_rule, rt, (depth - 1) as nat);
                    }
                },
                None => {},
            }
        },
        BuiltinPredicate::Call => {
            match called_goal(term) {
                Some(goal) => {
                    search_moves_on(db, goal, 0, rt, depth);
                },
                None => {},
            }
        },
        _ => {},
    }
}

/// Simplifying a term only moves on.
pub proof fn lemma_simplify_moves_on(
    db: Seq<ClauseModel>,
    term: TermModel,
    bindings: Map<Seq<char>, TermModel>,
    at_rule: nat,
    rt: RuntimeModel,
    depth: nat,
)
    ensures
        grows(rt, simplify_spec(db, term, bindings, at_rule, rt, depth).1),
    decreases depth, 4nat, 0nat, 0nat,
{
    grows_reflexive(rt);
    match lookup_spec(term) {
        Some(which) => {
            let (outcome, rt1) = builtin_spec(which, db, term, bindings, at_rule, rt, depth);
            lemma_builtin_moves_on(which, db, term, bindings, at_rule, rt, depth);
            match outcome {
                OutcomeModel::Solved(partial) => {
                    if depth > 0 {
                        lemma_simplify_moves_on(
                            db,
                            partial.result,
                            partial.bindings,
                            partial.rule,
                            rt1,
                            (depth - 1) as nat,
                        );
                        grows_transitive(
                            rt,
                            rt1,
                            simplify_spec(
                                db,
                                partial.result,
                                partial.bindings,
                                partial.rule,
                                rt1,
                                (depth - 1) as nat,
                            ).1,
                        );
                    }
                },
                _ => {},
            }
        },
        None => {},
    }
}

/// Every clause of the database is a fact.
pub open spec fn facts_only(db: Seq<ClauseModel>) -> bool {
    forall|i: int| 0 <= i < db.len() ==> (#[trigger] db[i]) is Fact
}

/// The head of the clause at position `i` unifies with the goal, renamed for
/// the generation that a search gives it which starts at position `start`
/// in the state `rt`: one generation further on for each clause tried.
pub open spec fn head_matches(
    db: Seq<ClauseModel>,
    goal: TermModel,
    start: nat,
    rt: RuntimeModel,
    i: nat,
) -> bool {
    unify_spec(
        goal,
        rename_spec(head_of(db[i as int]), (rt.generation + (i - start)) as u64),
    ) is Some
}

/// A search among facts that started at position `start` in the state `rt`
/// is given up at position `k`: no generation is left for the clause there,
/// or its head unifies with the goal and the unified term does not
/// substitute within the depth.
pub open spec fn gives_up_at(
    db: Seq<ClauseModel>,
    goal: TermModel,
    start: nat,
    rt: RuntimeModel,
    depth: nat,
    k: nat,
) -> bool {
    rt.generation + (k - start) == u64::MAX || match unify_spec(
        goal,
        rename_spec(head_of(db[k as int]), (rt.generation + (k - start)) as u64),
    ) {
        Some((unified, bindings)) => substitute_spec(bindings, unified, depth) is None,
        None => false,
    }
}

/// No head from one position up to another unifies with the goal.
pub open spec fn none_matches(
    db: Seq<ClauseModel>,
    goal: TermModel,
    start: nat,
    rt: RuntimeModel,
    from: nat,
    to: nat,
) -> bool {
    forall|j: nat| from <= j < to ==> !#[trigger] head_matches(db, goal, start, rt, j)
}

/// What a search among facts from position `start` on, in the state `rt`,
/// comes to: the answer of the first position whose head unifies with the
/// goal; no answer where no head unifies; and it is given up only at a
/// position before which no head unifies.
pub open spec fn first_match(
    db: Seq<ClauseModel>,
    goal: TermModel,
    start: nat,
    rt: RuntimeModel,
    depth: nat,
    outcome: OutcomeModel,
) -> bool {
    match outcome {
        OutcomeModel::Solved(p) => {
            &&& start <= p.rule < db.len()
            &&& head_matches(db, goal, start, rt, p.rule)
            &&& none_matches(db, goal, start, rt, start, p.rule)
        },
        OutcomeModel::Failed => none_matches(db, goal, start, rt, start, db.len()),
        OutcomeModel::Exhausted => exists|k: nat|
            start <= k < db.len() && #[trigger] gives_up_at(db, goal, start, rt, depth, k)
                && none_matches(db, goal, start, rt, start, k),
    }
}

/// Among facts, trying the clauses from a position on finds the first whose
/// head unifies with the goal, and fails exactly when there is none, unless
/// the search is given up on the way.
pub proof fn lemma_scan_first_fact(
    db: Seq<ClauseModel>,
    goal: TermModel,
    i: nat,
    rt: RuntimeModel,
    depth: nat,
)
    requires
        facts_only(db),
    ensures
        first_match(db, goal, i, rt, depth, scan_spec(db, goal, i, rt, depth).0),
    decreases db.len() - i,
{
    if i < db.len() {
        if rt.generation == u64::MAX {
            assert(gives_up_at(db, goal, i, rt, depth, i));
        } else {
            let generation = rt.generation;
            let rt1 = activated(rt);
            assert(db[i as int] is Fact);
            let head = rename_spec(head_of(db[i as int]), generation);
            assert(head_matches(db, goal, i, rt, i) == (unify_spec(goal, head) is Some));
            match unify_spec(goal, head) {
                Some((unified, bindings)) => {
                    if substitute_spec(bindings, unified, depth) is None {
                        assert(gives_up_at(db, goal, i, rt, depth, i));
                    }
                },
                None => {
                    lemma_scan_first_fact(db, goal, i + 1, rt1, depth);
                    assert forall|j: nat| i + 1 <= j < db.len() implies head_matches(
                        db,
                        goal,
                        i,
                        rt,
                        j,
                    ) == head_matches(db, goal, i + 1, rt1, j) && gives_up_at(
                        db,
                        goal,
                        i,
                        rt,
                        depth,
                        j,
                    ) == gives_up_at(db, goal, i + 1, rt1, depth, j) by {
                        assert(rt.generation + (j - i) == rt1.generation + (j - (i + 1)));
                    }
                    match scan_spec(db, goal, i + 1, rt1, depth).0 {
                        OutcomeModel::Solved(p) => {
                            assert forall|j: nat| i <= j < p.rule implies !#[trigger] head_matches(
                                db,
                                goal,
                                i,
                                rt,
                                j,
                            ) by {
                                if j > i {
                                    assert(!head_matches(db, goal, i + 1, rt1, j));
                                }
                            }
                        },
                        OutcomeModel::Failed => {
                            assert forall|j: nat|
                                i <= j < db.len() implies !#[trigger] head_matches(
                                db,
                                goal,
                                i,
                                rt,
                                j,
                            ) by {
                                if j > i {
                                    assert(!head_matches(db, goal, i + 1, rt1, j));
                                }
                            }
                        },
                        OutcomeModel::Exhausted => {
                            let k = choose|k: nat|
                                i + 1 <= k < db.len() && #[trigger] gives_up_at(
                                    db,
                                    goal,
                                    i + 1,
                                    rt1,
                                    depth,
                                    k,
                                ) && none_matches(db, goal, i + 1, rt1, i + 1, k);
                            assert forall|j: nat| i <= j < k implies !#[trigger] head_matches(
                                db,
                                goal,
                                i,
                                rt,
                                j,
                            ) by {
                                if j > i {
                                    assert(!head_matches(db, goal, i + 1, rt1, j));
                                }
                            }
                            assert(gives_up_at(db, goal, i, rt, depth, k));
                        },
                    }
                },
            }
        }
    }
}

/// Among facts the first match answers: for a goal that names no built-in,
/// against a database of facts, a search answers with the first position
/// from the cursor on whose head unifies with the goal, and has no answer
/// where no head from the cursor on does. It is given up only for want of
/// depth or generations at a position before which no head unifies.
pub proof fn first_matching_fact(
    db: Seq<ClauseModel>,
    goal: TermModel,
    cursor: nat,
    rt: RuntimeModel,
    depth: nat,
)
    requires
        facts_only(db),
        lookup_spec(goal) is None,
    ensures
        cursor < db.len() && depth == 0 ==> solve_from_spec(db, goal, cursor, rt, depth).0
            is Exhausted,
        cursor >= db.len() || depth > 0 ==> first_match(
            db,
            goal,
            cursor,
            rt,
            (depth - 1) as nat,
            solve_from_spec(db, goal, cursor, rt, depth).0,
        ),
{
    if cursor < db.len() && depth > 0 {
        lemma_scan_first_fact(db, goal, cursor, rt, (depth - 1) as nat);
    }
}

/// The answers that asking again gives: the proof from the cursor on, then
/// the proof from one past its clause on, and so forth, until there is no
/// proof or the given number of rounds is spent.
pub open spec fn enumeration(
    db: Seq<ClauseModel>,
    goal: TermModel,
    cursor: nat,
    depth: nat,
    rounds: nat,
) -> Seq<PartialModel>
    decreases rounds,
{
    if rounds == 0 {
        Seq::empty()
    } else {
        match found(solve_from_spec(db, goal, cursor, fresh(), depth).0) {
            Some(p) => seq![p] + enumeration(db, goal, p.rule + 1, depth, (rounds - 1) as nat),
            None => Seq::empty(),
        }
    }
}

/// Asking again comes to an end: for a goal that is no meta-call, the
/// answers name positions at or after the cursor, each further on than the
/// one before, so that no clause answers twice and there are no more
/// answers than clauses from the cursor on, however many rounds are asked.
pub proof fn enumeration_ends(
    db: Seq<ClauseModel>,
    goal: TermModel,
    cursor: nat,
    depth: nat,
    rounds: nat,
)
    requires
        lookup_spec(goal) != Some(BuiltinPredicate::Call),
    ensures
        enumeration(db, goal, cursor, depth, rounds).len() <= remaining(db, cursor),
        forall|j: int|
            0 <= j < enumeration(db, goal, cursor, depth, rounds).len() ==> cursor <= (
            #[trigger] enumeration(db, goal, cursor, depth, rounds)[j]).rule <= db.len(),
        forall|j: int, k: int|
            0 <= j < k < enumeration(db, goal, cursor, depth, rounds).len() ==> (
            #[trigger] enumeration(db, goal, cursor, depth, rounds)[j]).rule < (
            #[trigger] enumeration(db, goal, cursor, depth, rounds)[k]).rule,
    decreases rounds,
{
    if rounds > 0 {
        answer_position(db, goal, cursor, fresh(), depth);
        match found(solve_from_spec(db, goal, cursor, fresh(), depth).0) {
            Some(p) => {
                let rest = enumeration(db, goal, p.rule + 1, depth, (rounds - 1) as nat);
                enumeration_ends(db, goal, p.rule + 1, depth, (rounds - 1) as nat);
                let all = enumeration(db, goal, cursor, depth, rounds);
                assert(all =~= seq![p] + rest);
                assert forall|j: int| 0 <= j < all.len() implies cursor <= (#[trigger] all[j]).rule
                    <= db.len() by {
                    if j > 0 {
                        assert(all[j] == rest[j - 1]);
                    }
                }
                assert forall|j: int, k: int| 0 <= j < k < all.len() implies (#[trigger] all[j]).rule
                    < (#[trigger] all[k]).rule by {
                    assert(all[k] == rest[k - 1]);
                    if j > 0 {
                        assert(all[j] == rest[j - 1]);
                    }
                }
            },
            None => {},
        }
    }
}

/// Past the last clause there is no answer.
pub proof fn enumeration_stops_at_end(
    db: Seq<ClauseModel>,
    goal: TermModel,
    cursor: nat,
    rt: RuntimeModel,
    depth: nat,
)
    requires
        cursor >= db.len(),
    ensures
        solve_from_spec(db, goal, cursor, rt, depth) == (OutcomeModel::Failed, rt),
{
}

/// What a conjunction comes to when its left operand is tried once: the
/// proof of the right operand under the bindings of the left one.
pub open spec fn once(
    db: Seq<ClauseModel>,
    bindings: Map<Seq<char>, TermModel>,
    left: ExprModel,
    right: ExprModel,
    cursor: nat,
    rt: RuntimeModel,
    depth: nat,
) -> (OutcomeModel, RuntimeModel) {
    let (first, rt1) = solve_expression_spec(db, bindings, left, cursor, rt, depth);
    match first {
        OutcomeModel::Solved(partial) => match merge_spec(bindings, partial.bindings) {
            Some(merged) => solve_expression_spec(db, merged, right, 0, rt1, depth),
            None => (OutcomeModel::Failed, rt1),
        },
        other => (other, rt1),
    }
}

/// The cut commits: a conjunction whose left operand is the cut tries its
/// right operand once. Where the right operand has no proof the conjunction
/// has none, and no alternative of the left operand is tried.
pub proof fn cut_commits(
    db: Seq<ClauseModel>,
    bindings: Map<Seq<char>, TermModel>,
    left: ExprModel,
    right: ExprModel,
    cursor: nat,
    rt: RuntimeModel,
    depth: nat,
)
    requires
        is_atom_of_spec(left, cut_name()),
    ensures
        conjunction_spec(
            db,
            bindings,
            ExprModel::Conjunct(Box::new(left), Box::new(right)),
            cursor,
            rt,
            depth,
        ) == once(db, bindings, left, right, cursor, rt, depth),
        solve_expression_spec(
            db,
            bindings,
            ExprModel::Conjunct(Box::new(left), Box::new(right)),
            cursor,
            rt,
            depth,
        ) == once(db, bindings, left, right, 0, rt, depth),
{
}

/// In a body `L, !, R` whose first goal `L` is itself a cut, once `R` has
/// no proof the body has none: every conjunction on the way commits.
pub proof fn cut_prunes_left(
    db: Seq<ClauseModel>,
    bindings: Map<Seq<char>, TermModel>,
    left: ExprModel,
    cut: ExprModel,
    right: ExprModel,
    cursor: nat,
    rt: RuntimeModel,
    depth: nat,
)
    requires
        is_atom_of_spec(left, cut_name()),
        is_atom_of_spec(cut, cut_name()),
    ensures
        ({
            let inner = ExprModel::Conjunct(Box::new(cut), Box::new(right));
            let body = ExprModel::Conjunct(Box::new(left), Box::new(inner));
            let (first, rt1) = solve_expression_spec(db, bindings, left, 0, rt, depth);
            match first {
                OutcomeModel::Solved(p) => match merge_spec(bindings, p.bindings) {
                    Some(merged) => solve_expression_spec(db, bindings, body, cursor, rt, depth)
                        == once(db, merged, cut, right, 0, rt1, depth),
                    None => true,
                },
                _ => true,
            }
        }),
{
    let inner = ExprModel::Conjunct(Box::new(cut), Box::new(right));
    cut_commits(db, bindings, left, inner, 0, rt, depth);
    let (first, rt1) = solve_expression_spec(db, bindings, left, 0, rt, depth);
    match first {
        OutcomeModel::Solved(p) => match merge_spec(bindings, p.bindings) {
            Some(merged) => {
                cut_commits(db, merged, cut, right, 0, rt1, depth);
            },
            None => {},
        },
        _ => {},
    }
}

/// Depth decides nothing but whether a search is given up: a search that
/// comes to an end within one depth comes to the same end, in the same
/// state, within every greater one.
pub proof fn depth_suffices(
    db: Seq<ClauseModel>,
    goal: TermModel,
    cursor: nat,
    rt: RuntimeModel,
    depth: nat,
    more: nat,
)
    requires
        depth <= more,
        !(solve_from_spec(db, goal, cursor, rt, depth).0 is Exhausted),
    ensures
        solve_from_spec(db, goal, cursor, rt, more) == solve_from_spec(
            db,
            goal,
            cursor,
            rt,
            depth,
        ),
    decreases depth, 1nat, 0nat, 0nat,
{
    if cursor < db.len() {
        match lookup_spec(goal) {
            Some(which) => {
                lemma_builtin_stable(
                    which,
                    db,
                    goal,
                    Map::empty(),
                    db.len(),
                    rt,
                    (depth - 1) as nat,
                    (more - 1) as nat,
                );
            },
            None => {
                lemma_scan_stable(db, goal, cursor, rt, (depth - 1) as nat, (more - 1) as nat);
            },
        }
    }
}

/// Trying the clauses from a position on comes to the same end within
/// every greater depth.
pub proof fn lemma_scan_stable(
    db: Seq<ClauseModel>,
    goal: TermModel,
    i: nat,
    rt: RuntimeModel,
    depth: nat,
    more: nat,
)
    requires
        depth <= more,
        !(scan_spec(db, goal, i, rt, depth).0 is Exhausted),
    ensures
        scan_spec(db, goal, i, rt, more) == scan_spec(db, goal, i, rt, depth),
    decreases depth, 5nat, db.len() - i, 0nat,
{
    if i < db.len() && rt.generation != u64::MAX {
        let generation = rt.generation;
        let rt1 = activated(rt);
        let head = rename_spec(head_of(db[i as int]), generation);
        match unify_spec(goal, head) {
            Some((unified, bindings)) => {
                match db[i as int] {
                    ClauseModel::Fact(_) => {
                        substitution_monotone(bindings, unified, depth, more);
                    },
                    ClauseModel::Rule(_, body) => {
                        let renamed = rename_expr_spec(body, generation);
                        let (outcome, rt2) = solve_expression_spec(
                            db,
                            bindings,
                            renamed,
                            0,
                            rt1,
                            depth,
                        );
                        lemma_body_stable(db, bindings, renamed, 0, rt1, depth, more);
                        match outcome {
                            OutcomeModel::Solved(partial) => {
                                match merge_spec(bindings, partial.bindings) {
                                    Some(merged) => {
                                        substitution_monotone(merged, head, depth, more);
                                    },
                                    None => {},
                                }
                            },
                            OutcomeModel::Failed => {
                                lemma_scan_stable(db, goal, i + 1, rt2, depth, more);
                            },
                            OutcomeModel::Exhausted => {},
                        }
                    },
                }
            },
            None => {
                lemma_scan_stable(db, goal, i + 1, rt1, depth, more);
            },
        }
    }
}

/// The proof of a body comes to the same end within every greater depth.
pub proof fn lemma_body_stable(
    db: Seq<ClauseModel>,
    bindings: Map<Seq<char>, TermModel>,
    expr: ExprModel,
    cursor: nat,
    rt: RuntimeModel,
    depth: nat,
    more: nat,
)
    requires
        depth <= more,
        !(solve_expression_spec(db, bindings, expr, cursor, rt, depth).0 is Exhausted),
    ensures
        solve_expression_spec(db, bindings, expr, cursor, rt, more) == solve_expression_spec(
            db,
            bindings,
            expr,
            cursor,
            rt,
            depth,
        ),
    decreases depth, 2nat, 2 * expr_size(expr) + 1, 0nat,
{
    match expr {
        ExprModel::Term(term) => {
            match substitute_spec(bindings, term, depth) {
                Some(goal) => {
                    substitution_monotone(bindings, term, depth, more);
                    depth_suffices(db, goal, cursor, rt, depth, more);
                },
                None => {},
            }
        },
        ExprModel::Conjunct(_, _) => {
            lemma_conjunction_stable(db, bindings, expr, 0, rt, depth, more);
        },
    }
}

/// The proof of a conjunction comes to the same end within every greater
/// depth.
pub proof fn lemma_conjunction_stable(
    db: Seq<ClauseModel>,
    bindings: Map<Seq<char>, TermModel>,
    expr: ExprModel,
    cursor: nat,
    rt: RuntimeModel,
    depth: nat,
    more: nat,
)
    requires
        depth <= more,
        !(conjunction_spec(db, bindings, expr, cursor, rt, depth).0 is Exhausted),
    ensures
        conjunction_spec(db, bindings, expr, cursor, rt, more) == conjunction_spec(
            db,
            bindings,
            expr,
            cursor,
            rt,
            depth,
        ),
    decreases depth, 2nat, 2 * expr_size(expr), remaining(db, cursor),
{
    match expr {
        ExprModel::Conjunct(left, right) => {
            let (first, rt1) = solve_expression_spec(db, bindings, *left, cursor, rt, depth);
            lemma_body_stable(db, bindings, *left, cursor, rt, depth, more);
            match first {
                OutcomeModel::Solved(partial) => match merge_spec(bindings, partial.bindings) {
                    Some(merged) => {
                        let (second, rt2) = solve_expression_spec(
                            db,
                            merged,
                            *right,
                            0,
                            rt1,
                            depth,
                        );
                        lemma_body_stable(db, merged, *right, 0, rt1, depth, more);
                        if second is Failed && !is_atom_of_spec(*left, cut_name()) {
                            if cursor < db.len() && partial.rule >= cursor {
                                lemma_conjunction_stable(
                                    db,
                                    bindings,
                                    expr,
                                    partial.rule + 1,
                                    rt2,
                                    depth,
                                    more,
                                );
                            } else {
                                lemma_conjunction_stable(
                                    db,
                                    bindings,
                                    expr,
                                    partial.rule + 1,
                                    rt2,
                                    (depth - 1) as nat,
                                    (more - 1) as nat,
                                );
                            }
                        }
                    },
                    None => {},
                },
                _ => {},
            }
        },
        ExprModel::Term(_) => {},
    }
}

/// A built-in comes to the same end within every greater depth.
pub proof fn lemma_builtin_stable(
    which: BuiltinPredicate,
    db: Seq<ClauseModel>,
    term: TermModel,
    bindings: Map<Seq<char>, TermModel>,
    at_rule: nat,
    rt: RuntimeModel,
    depth: nat,
    more: nat,
)
    requires
        depth <= more,
        !(builtin_spec(which, db, term, bindings, at_rule, rt, depth).0 is Exhausted),
    ensures
        builtin_spec(which, db, term, bindings, at_rule, rt, more) == builtin_spec(
            which,
            db,
            term,
            bindings,
            at_rule,
            rt,
            depth,
        ),
    decreases depth, 3nat, 0nat, 0nat,
{
    match which {
        BuiltinPredicate::Is => {
            match operands(term) {
                Some((_, rhs)) => {
                    lemma_simplify_stable(
                        db,
                        rhs,
                        bindings,
                        at_rule,
                        rt,
                        (depth - 1) as nat,
                        (more - 1) as nat,
                    );
                },
                None => {},
            }
        },
        BuiltinPredicate::Call => {
            match called_goal(term) {
                Some(goal) => {
                    depth_suffices(db, goal, 0, rt, depth, more);
                },
                None => {},
            }
        },
        _ => {},
    }
}

/// Simplifying a term comes to the same end within every greater depth.
pub proof fn lemma_simplify_stable(
    db: Seq<ClauseModel>,
    term: TermModel,
    bindings: Map<Seq<char>, TermModel>,
    at_rule: nat,
    rt: RuntimeModel,
    depth: nat,
    more: nat,
)
    requires
        depth <= more,
        !(simplify_spec(db, term, bindings, at_rule, rt, depth).0 is Exhausted),
    ensures
        simplify_spec(db, term, bindings, at_rule, rt, more) == simplify_spec(
            db,
            term,
            bindings,
            at_rule,
            rt,
            depth,
        ),
    decreases depth, 4nat, 0nat, 0nat,
{
    match lookup_spec(term) {
        Some(which) => {
            let (outcome, rt1) = builtin_spec(which, db, term, bindings, at_rule, rt, depth);
            lemma_builtin_stable(which, db, term, bindings, at_rule, rt, depth, more);
            match outcome {
                OutcomeModel::Solved(partial) => {
                    lemma_simplify_stable(
                        db,
                        partial.result,
                        partial.bindings,
                        partial.rule,
                        rt1,
                        (depth - 1) as nat,
                        (more - 1) as nat,
                    );
                },
                _ => {},
            }
        },
        None => {},
    }
}

} // verus!
