//! The evaluable built-ins: arithmetic, comparison, output, meta-call, cut
//! and fail.

use vstd::prelude::*;
use crate::bindings::{compare_term, merge_spec, Bindings};
use crate::printer::{print_spec, write_term};
use crate::solver::{
    solve_from_spec, Database, Outcome, OutcomeModel, Partial, PartialModel, Query, Runtime,
    RuntimeModel,
};
use crate::text::same_text;
use crate::tree::{
    atom, copy_term, integer, lemma_compound_model, models, ClauseModel, Term, TermKind, TermModel,
};
use crate::unify::{unify_spec, unify_term};

verus! {

/// The built-in predicates.
#[derive(Debug, Clone, Copy, PartialEq, Eq, Structural)]
pub enum BuiltinPredicate {
    Call,
    Cut,
    Fail,
    Nl,
    Write,
    Is,
    Equal,
    NotEqual,
    LessThan,
    GreaterThan,
    LessThanOrEqual,
    GreaterThanOrEqual,
    Add,
    Subtract,
    Multiply,
    Divide,
}

/// The built-in of a name and arity, if there is one. `call` is a built-in
/// at every arity.
pub open spec fn builtin_named(name: Seq<char>, arity: nat) -> Option<BuiltinPredicate> {
    if name == "call"@ {
        Some(BuiltinPredicate::Call)
    } else if arity == 0 {
        if name == "!"@ {
            Some(BuiltinPredicate::Cut)
        } else if name == "fail"@ {
            Some(BuiltinPredicate::Fail)
        } else if name == "nl"@ {
            Some(BuiltinPredicate::Nl)
        } else {
            None
        }
    } else if arity == 1 {
        if name == "write"@ {
            Some(BuiltinPredicate::Write)
        } else {
            None
        }
    } else if arity == 2 {
        if name == "is"@ {
            Some(BuiltinPredicate::Is)
        } else if name == "="@ {
            Some(BuiltinPredicate::Equal)
        } else if name == "\\="@ {
            Some(BuiltinPredicate::NotEqual)
        } else if name == "<"@ {
            Some(BuiltinPredicate::LessThan)
        } else if name == ">"@ {
            Some(BuiltinPredicate::GreaterThan)
        } else if name == "<="@ {
            Some(BuiltinPredicate::LessThanOrEqual)
        } else if name == ">="@ {
            Some(BuiltinPredicate::GreaterThanOrEqual)
        } else if name == "+"@ {
            Some(BuiltinPredicate::Add)
        } else if name == "-"@ {
            Some(BuiltinPredicate::Subtract)
        } else if name == "*"@ {
            Some(BuiltinPredicate::Multiply)
        } else if name == "/"@ {
            Some(BuiltinPredicate::Divide)
        } else {
            None
        }
    } else {
        None
    }
}

/// The built-in that a goal names, if any: an atom by its name at arity
/// zero, a compound term by its name and the number of its arguments.
pub open spec fn lookup_spec(t: TermModel) -> Option<BuiltinPredicate> {
    match t {
        TermModel::Atom(s) => builtin_named(s, 0),
        TermModel::Compound(s, args) => builtin_named(s, args.len()),
        _ => None,
    }
}

/// The proof that a built-in without a result of its own returns.
pub open spec fn truth(bindings: Map<Seq<char>, TermModel>, at_rule: nat) -> PartialModel {
    PartialModel { result: TermModel::Atom("true"@), bindings, rule: at_rule }
}

/// The two integers that a term has as its first two arguments.
pub open spec fn integer_operands(t: TermModel) -> Option<(i64, i64)> {
    match t {
        TermModel::Compound(_, args) => if args.len() >= 2 {
            match (args[0], args[1]) {
                (TermModel::Integer(n), TermModel::Integer(m)) => Some((n, m)),
                _ => None,
            }
        } else {
            None
        },
        _ => None,
    }
}

/// The first two arguments of a term.
pub open spec fn operands(t: TermModel) -> Option<(TermModel, TermModel)> {
    match t {
        TermModel::Compound(_, args) => if args.len() >= 2 {
            Some((args[0], args[1]))
        } else {
            None
        },
        _ => None,
    }
}

/// The quotient of integer division, rounded toward zero.
pub open spec fn quotient(x: int, d: int) -> int
    recommends
        d != 0,
{
    if x >= 0 && d > 0 {
        x / d
    } else if x < 0 && d < 0 {
        (-x) / (-d)
    } else if x < 0 {
        -((-x) / d)
    } else {
        -(x / (-d))
    }
}

/// The result of an arithmetic built-in on two integers, where it is a
/// 64-bit signed integer; nothing on overflow and on division by zero.
pub open spec fn arithmetic(which: BuiltinPredicate, n: i64, m: i64) -> Option<i64> {
    let value = match which {
        BuiltinPredicate::Add => Some(n + m),
        BuiltinPredicate::Subtract => Some(n - m),
        BuiltinPredicate::Multiply => Some(n * m),
        BuiltinPredicate::Divide => if m == 0 {
            None
        } else {
            Some(quotient(n as int, m as int))
        },
        _ => None,
    };
    match value {
        Some(v) => if i64::MIN <= v <= i64::MAX {
            Some(v as i64)
        } else {
            None
        },
        None => None,
    }
}

/// Whether a comparison built-in holds of two integers.
pub open spec fn comparison(which: BuiltinPredicate, n: i64, m: i64) -> bool {
    match which {
        BuiltinPredicate::LessThan => n < m,
        BuiltinPredicate::GreaterThan => n > m,
        BuiltinPredicate::LessThanOrEqual => n <= m,
        BuiltinPredicate::GreaterThanOrEqual => n >= m,
        _ => false,
    }
}

/// The goal that a meta-call builds: the first argument, an atom or a
/// compound term, extended by the remaining arguments.
pub open spec fn called_goal(t: TermModel) -> Option<TermModel> {
    match t {
        TermModel::Compound(_, args) => if args.len() >= 1 {
            let rest = args.subrange(1, args.len() as int);
            match args[0] {
                TermModel::Atom(x) => if rest.len() == 0 {
                    Some(TermModel::Atom(x))
                } else {
                    Some(TermModel::Compound(x, rest))
                },
                TermModel::Compound(x, first_args) => Some(
                    TermModel::Compound(x, first_args + rest),
                ),
                _ => None,
            }
        } else {
            None
        },
        _ => None,
    }
}

/// What a built-in does with a goal.
///
/// - the cut succeeds once, with the atom `true`;
/// - `fail` never succeeds;
/// - `nl` writes a newline, `write` the written form of its argument;
/// - `is` simplifies its second argument and unifies the first with it;
/// - `=` and `\=` compare their arguments structurally, binding nothing;
/// - the comparisons hold of two integers only;
/// - the arithmetic built-ins give an integer for two integers, and fail on
///   overflow and division by zero;
/// - `call` builds a goal and proves it against the database from the start.
pub open spec fn builtin_spec(
    which: BuiltinPredicate,
    db: Seq<ClauseModel>,
    term: TermModel,
    bindings: Map<Seq<char>, TermModel>,
    at_rule: nat,
    rt: RuntimeModel,
    depth: nat,
) -> (OutcomeModel, RuntimeModel)
    decreases depth, 3nat, 2nat,
{
    match which {
        BuiltinPredicate::Cut => (OutcomeModel::Solved(truth(bindings, at_rule)), rt),
        BuiltinPredicate::Fail => (OutcomeModel::Failed, rt),
        BuiltinPredicate::Nl => (
            OutcomeModel::Solved(truth(bindings, at_rule)),
            RuntimeModel { generation: rt.generation, output: rt.output.push('\n') },
        ),
        BuiltinPredicate::Write => match term {
            TermModel::Compound(_, args) => if args.len() >= 1 {
                (
                    OutcomeModel::Solved(truth(bindings, at_rule)),
                    RuntimeModel {
                        generation: rt.generation,
                        output: rt.output + print_spec(args[0]),
                    },
                )
            } else {
                (OutcomeModel::Failed, rt)
            },
            _ => (OutcomeModel::Failed, rt),
        },
        BuiltinPredicate::Is => match operands(term) {
            Some((lhs, rhs)) => if depth == 0 {
                (OutcomeModel::Exhausted, rt)
            } else {
                let (outcome, rt1) = simplify_spec(
                    db,
                    rhs,
                    bindings,
                    at_rule,
                    rt,
                    (depth - 1) as nat,
                );
                match outcome {
                    OutcomeModel::Solved(value) => match unify_spec(lhs, value.result) {
                        Some((result, more)) => match merge_spec(more, bindings) {
                            Some(merged) => (
                                OutcomeModel::Solved(
                                    PartialModel { result, bindings: merged, rule: at_rule },
                                ),
                                rt1,
                            ),
                            None => (OutcomeModel::Failed, rt1),
                        },
                        None => (OutcomeModel::Failed, rt1),
                    },
                    other => (other, rt1),
                }
            },
            None => (OutcomeModel::Failed, rt),
        },
        BuiltinPredicate::Equal => match operands(term) {
            Some((lhs, rhs)) => if lhs == rhs {
                (OutcomeModel::Solved(truth(bindings, at_rule)), rt)
            } else {
                (OutcomeModel::Failed, rt)
            },
            None => (OutcomeModel::Failed, rt),
        },
        BuiltinPredicate::NotEqual => match operands(term) {
            Some((lhs, rhs)) => if lhs != rhs {
                (OutcomeModel::Solved(truth(bindings, at_rule)), rt)
            } else {
                (OutcomeModel::Failed, rt)
            },
            None => (OutcomeModel::Failed, rt),
        },
        BuiltinPredicate::LessThan
        | BuiltinPredicate::GreaterThan
        | BuiltinPredicate::LessThanOrEqual
        | BuiltinPredicate::GreaterThanOrEqual => match integer_operands(term) {
            Some((n, m)) => if comparison(which, n, m) {
                (OutcomeModel::Solved(truth(bindings, at_rule)), rt)
            } else {
                (OutcomeModel::Failed, rt)
            },
            None => (OutcomeModel::Failed, rt),
        },
        BuiltinPredicate::Add
        | BuiltinPredicate::Subtract
        | BuiltinPredicate::Multiply
        | BuiltinPredicate::Divide => match integer_operands(term) {
            Some((n, m)) => match arithmetic(which, n, m) {
                Some(v) => (
                    OutcomeModel::Solved(
                        PartialModel { result: TermModel::Integer(v), bindings, rule: at_rule },
                    ),
                    rt,
                ),
                None => (OutcomeModel::Failed, rt),
            },
            None => (OutcomeModel::Failed, rt),
        },
        BuiltinPredicate::Call => match called_goal(term) {
            Some(goal) => solve_from_spec(db, goal, 0, rt, depth),
            None => (OutcomeModel::Failed, rt),
        },
    }
}

/// The simplification of a term: while the term names a built-in, the
/// built-in is applied and its result simplified in turn; a term that names
/// none is returned unchanged.
pub open spec fn simplify_spec(
    db: Seq<ClauseModel>,
    term: TermModel,
    bindings: Map<Seq<char>, TermModel>,
    at_rule: nat,
    rt: RuntimeModel,
    depth: nat,
) -> (OutcomeModel, RuntimeModel)
    decreases depth, 4nat, 0nat,
{
    match lookup_spec(term) {
        Some(which) => {
            let (outcome, rt1) = builtin_spec(which, db, term, bindings, at_rule, rt, depth);
            match outcome {
                OutcomeModel::Solved(partial) => if depth == 0 {
                    (OutcomeModel::Exhausted, rt1)
                } else {
                    simplify_spec(
                        db,
                        partial.result,
                        partial.bindings,
                        partial.rule,
                        rt1,
                        (depth - 1) as nat,
                    )
                },
                other => (other, rt1),
            }
        },
        None => (OutcomeModel::Solved(PartialModel { result: term, bindings, rule: at_rule }), rt),
    }
}

/// Looks up the built-in that a goal names, by name and arity.
pub fn lookup_builtin(term: &Term) -> (r: Option<BuiltinPredicate>)
    ensures
        r == lookup_spec(term@),
{
    let (name, arity): (&String, usize) = match &**term {
        TermKind::Atom(s) => (s, 0),
        TermKind::Compound(s, args) => {
            proof {
                lemma_compound_model(&**term);
            }
            (s, args.len())
        },
        _ => {
            return None;
        },
    };
    let name = name.as_str();
    if same_text(name, "call") {
        return Some(BuiltinPredicate::Call);
    }
    if arity == 0 {
        if same_text(name, "!") {
            Some(BuiltinPredicate::Cut)
        } else if same_text(name, "fail") {
            Some(BuiltinPredicate::Fail)
        } else if same_text(name, "nl") {
            Some(BuiltinPredicate::Nl)
        } else {
            None
        }
    } else if arity == 1 {
        if same_text(name, "write") {
            Some(BuiltinPredicate::Write)
        } else {
            None
        }
    } else if arity == 2 {
        if same_text(name, "is") {
            Some(BuiltinPredicate::Is)
        } else if same_text(name, "=") {
            Some(BuiltinPredicate::Equal)
        } else if same_text(name, "\\=") {
            Some(BuiltinPredicate::NotEqual)
        } else if same_text(name, "<") {
            Some(BuiltinPredicate::LessThan)
        } else if same_text(name, ">") {
            Some(BuiltinPredicate::GreaterThan)
        } else if same_text(name, "<=") {
            Some(BuiltinPredicate::LessThanOrEqual)
        } else if same_text(name, ">=") {
            Some(BuiltinPredicate::GreaterThanOrEqual)
        } else if same_text(name, "+") {
            Some(BuiltinPredicate::Add)
        } else if same_text(name, "-") {
            Some(BuiltinPredicate::Subtract)
        } else if same_text(name, "*") {
            Some(BuiltinPredicate::Multiply)
        } else if same_text(name, "/") {
            Some(BuiltinPredicate::Divide)
        } else {
            None
        }
    } else {
        None
    }
}

/// The proof that a built-in without a result of its own returns.
fn truth_of(bindings: &Bindings, at_rule: usize) -> (r: Partial)
    ensures
        r@ == truth(bindings@, at_rule as nat),
{
    Partial::new(atom("true"), bindings.clone(), at_rule)
}

/// The first two arguments of a term, where it has them.
fn operands_of(term: &Term) -> (r: Option<(&Term, &Term)>)
    ensures
        match r {
            Some((lhs, rhs)) => operands(term@) == Some((lhs@, rhs@)),
            None => operands(term@) is None,
        },
{
    match (&**term).get_args() {
        Some(args) => {
            if args.len() >= 2 {
                assert(models(args@)[0] == args@[0]@);
                assert(models(args@)[1] == args@[1]@);
                Some((&args[0], &args[1]))
            } else {
                None
            }
        },
        None => None,
    }
}

/// The two integers that a term has as its first two arguments.
fn integer_operands_of(term: &Term) -> (r: Option<(i64, i64)>)
    ensures
        r == integer_operands(term@),
{
    match operands_of(term) {
        Some((lhs, rhs)) => match (&**lhs, &**rhs) {
            (TermKind::Integer(n), TermKind::Integer(m)) => Some((*n, *m)),
            _ => None,
        },
        None => None,
    }
}

/// The view of a proof that may be missing.
pub open spec fn partial_view(r: Option<Partial>) -> Option<PartialModel> {
    match r {
        Some(p) => Some(p@),
        None => None,
    }
}

/// The cut: succeeds once. That it commits is the resolver's part.
pub fn builtin_cut_0(_term: &Term, bindings: &Bindings, at_rule: usize) -> (r: Option<Partial>)
    ensures
        partial_view(r) == Some(truth(bindings@, at_rule as nat)),
{
    Some(truth_of(bindings, at_rule))
}

/// `fail`: never succeeds.
pub fn builtin_fail_0(_term: &Term, _bindings: &Bindings, _at_rule: usize) -> (r: Option<Partial>)
    ensures
        r is None,
{
    None
}

/// `nl`: writes a newline and succeeds.
pub fn builtin_nl_0(_term: &Term, bindings: &Bindings, at_rule: usize, runtime: &mut Runtime) -> (r:
    Option<Partial>)
    ensures
        partial_view(r) == Some(truth(bindings@, at_rule as nat)),
        final(runtime)@ == (RuntimeModel {
            generation: old(runtime)@.generation,
            output: old(runtime)@.output.push('\n'),
        }),
{
    runtime.output.push('\n');
    Some(truth_of(bindings, at_rule))
}

/// `write`: writes its argument in the canonical form and succeeds.
pub fn builtin_write_1(term: &Term, bindings: &Bindings, at_rule: usize, runtime: &mut Runtime) -> (r:
    Option<Partial>)
    ensures
        match term@ {
            TermModel::Compound(_, args) if args.len() >= 1 => partial_view(r) == Some(
                truth(bindings@, at_rule as nat),
            ) && final(runtime)@ == (RuntimeModel {
                generation: old(runtime)@.generation,
                output: old(runtime)@.output + print_spec(args[0]),
            }),
            _ => r is None && final(runtime)@ == old(runtime)@,
        },
{
    match (&**term).get_args() {
        Some(args) => {
            if args.len() >= 1 {
                assert(models(args@)[0] == args@[0]@);
                write_term(&*args[0], &mut runtime.output);
                Some(truth_of(bindings, at_rule))
            } else {
                None
            }
        },
        None => None,
    }
}

/// `=`: succeeds when its arguments are structurally equal; binds nothing.
pub fn builtin_equal_2(term: &Term, bindings: &Bindings, at_rule: usize) -> (r: Option<Partial>)
    ensures
        partial_view(r) == match operands(term@) {
            Some((lhs, rhs)) if lhs == rhs => Some(truth(bindings@, at_rule as nat)),
            _ => None,
        },
{
    match operands_of(term) {
        Some((lhs, rhs)) => {
            if compare_term(lhs, rhs) {
                Some(truth_of(bindings, at_rule))
            } else {
                None
            }
        },
        None => None,
    }
}

/// `\\=`: succeeds when its arguments are not structurally equal.
pub fn builtin_not_equal_2(term: &Term, bindings: &Bindings, at_rule: usize) -> (r: Option<Partial>)
    ensures
        partial_view(r) == match operands(term@) {
            Some((lhs, rhs)) if lhs != rhs => Some(truth(bindings@, at_rule as nat)),
            _ => None,
        },
{
    match operands_of(term) {
        Some((lhs, rhs)) => {
            if !compare_term(lhs, rhs) {
                Some(truth_of(bindings, at_rule))
            } else {
                None
            }
        },
        None => None,
    }
}

/// What a comparison returns: success where both arguments are integers of
/// which it holds.
pub open spec fn compared(
    which: BuiltinPredicate,
    term: TermModel,
    bindings: Map<Seq<char>, TermModel>,
    at_rule: nat,
) -> Option<PartialModel> {
    match integer_operands(term) {
        Some((n, m)) if comparison(which, n, m) => Some(truth(bindings, at_rule)),
        _ => None,
    }
}

/// `<`: succeeds when both arguments are integers and the first is less.
pub fn builtin_less_than_2(term: &Term, bindings: &Bindings, at_rule: usize) -> (r: Option<Partial>)
    ensures
        partial_view(r) == compared(BuiltinPredicate::LessThan, term@, bindings@, at_rule as nat),
{
    match integer_operands_of(term) {
        Some((n, m)) if n < m => Some(truth_of(bindings, at_rule)),
        _ => None,
    }
}

/// `>`: succeeds when both arguments are integers and the first is
/// greater.
pub fn builtin_greater_than_2(term: &Term, bindings: &Bindings, at_rule: usize) -> (r: Option<
    Partial,
>)
    ensures
        partial_view(r) == compared(
            BuiltinPredicate::GreaterThan,
            term@,
            bindings@,
            at_rule as nat,
        ),
{
    match integer_operands_of(term) {
        Some((n, m)) if n > m => Some(truth_of(bindings, at_rule)),
        _ => None,
    }
}

/// `<=`: succeeds when both arguments are integers and the first is not
/// greater.
pub fn builtin_less_than_or_equal_2(term: &Term, bindings: &Bindings, at_rule: usize) -> (r: Option<
    Partial,
>)
    ensures
        partial_view(r) == compared(
            BuiltinPredicate::LessThanOrEqual,
            term@,
            bindings@,
            at_rule as nat,
        ),
{
    match integer_operands_of(term) {
        Some((n, m)) if n <= m => Some(truth_of(bindings, at_rule)),
        _ => None,
    }
}

/// `>=`: succeeds when both arguments are integers and the first is not
/// less.
pub fn builtin_greater_than_or_equal_2(term: &Term, bindings: &Bindings, at_rule: usize) -> (r:
    Option<Partial>)
    ensures
        partial_view(r) == compared(
            BuiltinPredicate::GreaterThanOrEqual,
            term@,
            bindings@,
            at_rule as nat,
        ),
{
    match integer_operands_of(term) {
        Some((n, m)) if n >= m => Some(truth_of(bindings, at_rule)),
        _ => None,
    }
}

/// What an arithmetic built-in returns: the integer result where both
/// arguments are integers and the result is a 64-bit signed integer.
pub open spec fn computed(
    which: BuiltinPredicate,
    term: TermModel,
    bindings: Map<Seq<char>, TermModel>,
    at_rule: nat,
) -> Option<PartialModel> {
    match integer_operands(term) {
        Some((n, m)) => match arithmetic(which, n, m) {
            Some(v) => Some(
                PartialModel { result: TermModel::Integer(v), bindings, rule: at_rule },
            ),
            None => None,
        },
        None => None,
    }
}

/// The proof that an arithmetic built-in returns for a value.
fn value_of(value: Option<i64>, bindings: &Bindings, at_rule: usize) -> (r: Option<Partial>)
    ensures
        partial_view(r) == match value {
            Some(v) => Some(
                PartialModel { result: TermModel::Integer(v), bindings: bindings@, rule: at_rule as nat },
            ),
            None => None,
        },
{
    match value {
        Some(v) => Some(Partial::new(integer(v), bindings.clone(), at_rule)),
        None => None,
    }
}

/// `+`: the sum of two integers; fails on overflow.
pub fn builtin_add_2(term: &Term, bindings: &Bindings, at_rule: usize) -> (r: Option<Partial>)
    ensures
        partial_view(r) == computed(BuiltinPredicate::Add, term@, bindings@, at_rule as nat),
{
    match integer_operands_of(term) {
        Some((n, m)) => value_of(n.checked_add(m), bindings, at_rule),
        None => None,
    }
}

/// `-`: the difference of two integers; fails on overflow.
pub fn builtin_subtract_2(term: &Term, bindings: &Bindings, at_rule: usize) -> (r: Option<Partial>)
    ensures
        partial_view(r) == computed(BuiltinPredicate::Subtract, term@, bindings@, at_rule as nat),
{
    match integer_operands_of(term) {
        Some((n, m)) => value_of(n.checked_sub(m), bindings, at_rule),
        None => None,
    }
}

/// `*`: the product of two integers; fails on overflow.
pub fn builtin_multiply_2(term: &Term, bindings: &Bindings, at_rule: usize) -> (r: Option<Partial>)
    ensures
        partial_view(r) == computed(BuiltinPredicate::Multiply, term@, bindings@, at_rule as nat),
{
    match integer_operands_of(term) {
        Some((n, m)) => value_of(n.checked_mul(m), bindings, at_rule),
        None => None,
    }
}

/// `/`: the quotient of two integers, rounded toward zero; fails on
/// division by zero and on overflow.
pub fn builtin_divide_2(term: &Term, bindings: &Bindings, at_rule: usize) -> (r: Option<Partial>)
    ensures
        partial_view(r) == computed(BuiltinPredicate::Divide, term@, bindings@, at_rule as nat),
{
    match integer_operands_of(term) {
        Some((n, m)) => value_of(n.checked_div(m), bindings, at_rule),
        None => None,
    }
}

/// `is`: simplifies its second argument, then unifies the first with the
/// result and merges the bindings of that into the given ones.
pub fn builtin_is_2(
    db: &Database,
    term: &Term,
    bindings: &Bindings,
    at_rule: usize,
    runtime: &mut Runtime,
    depth: usize,
) -> (r: Outcome)
    ensures
        (r@, final(runtime)@) == builtin_spec(
            BuiltinPredicate::Is,
            db@,
            term@,
            bindings@,
            at_rule as nat,
            old(runtime)@,
            depth as nat,
        ),
    decreases depth, 3nat, 0nat,
{
    let (lhs, rhs) = match operands_of(term) {
        Some(found) => found,
        None => {
            return Outcome::Failed;
        },
    };
    if depth == 0 {
        return Outcome::Exhausted;
    }
    match simplify_term(db, rhs, bindings, at_rule, runtime, depth - 1) {
        Outcome::Solved(value) => match unify_term(lhs, &value.result) {
            Some((result, more)) => match more.merge(bindings) {
                Some(merged) => Outcome::Solved(Partial::new(result, merged, at_rule)),
                None => Outcome::Failed,
            },
            None => Outcome::Failed,
        },
        other => other,
    }
}

/// The goal that a meta-call builds from its arguments.
fn called_goal_of(term: &Term) -> (r: Option<Term>)
    ensures
        match r {
            Some(goal) => called_goal(term@) == Some(goal@),
            None => called_goal(term@) is None,
        },
{
    let args = match (&**term).get_args() {
        Some(args) => args,
        None => {
            return None;
        },
    };
    if args.len() < 1 {
        return None;
    }
    let ghost all = models(args@);
    assert(all[0] == args@[0]@);
    let mut extended: Vec<Term> = Vec::new();
    let name = match &*args[0] {
        TermKind::Atom(x) => x,
        TermKind::Compound(x, first_args) => {
            proof {
                lemma_compound_model(&*args[0]);
            }
            let mut j: usize = 0;
            while j < first_args.len()
                invariant
                    j <= first_args.len(),
                    extended@.len() == j,
                    forall|k: int| 0 <= k < j ==> extended@[k]@ == first_args@[k]@,
                decreases first_args.len() - j,
            {
                extended.push(copy_term(&first_args[j]));
                j = j + 1;
            }
            x
        },
        _ => {
            return None;
        },
    };
    let ghost front = models(extended@);
    let ghost rest = all.subrange(1, all.len() as int);
    let mut i: usize = 1;
    while i < args.len()
        invariant
            1 <= i <= args.len(),
            all == models(args@),
            extended@.len() == front.len() + i - 1,
            forall|k: int| 0 <= k < front.len() ==> extended@[k]@ == front[k],
            forall|k: int| 1 <= k < i ==> extended@[front.len() + k - 1]@ == args@[k]@,
        decreases args.len() - i,
    {
        extended.push(copy_term(&args[i]));
        i = i + 1;
    }
    assert(models(extended@) =~= front + rest);
    match &*args[0] {
        TermKind::Atom(_) => {
            assert(front =~= Seq::<TermModel>::empty());
            assert(front + rest =~= rest);
            if extended.len() == 0 {
                Some(Box::new(TermKind::Atom(name.clone())))
            } else {
                let goal = Box::new(TermKind::Compound(name.clone(), extended));
                proof {
                    lemma_compound_model(&*goal);
                }
                Some(goal)
            }
        },
        _ => {
            let goal = Box::new(TermKind::Compound(name.clone(), extended));
            proof {
                lemma_compound_model(&*goal);
                assert(front =~= args@[0]@->Compound_1);
            }
            Some(goal)
        },
    }
}

/// `call`: builds a goal from its arguments and proves it against the
/// database from the start.
pub fn builtin_call(
    db: &Database,
    term: &Term,
    _bindings: &Bindings,
    _at_rule: usize,
    runtime: &mut Runtime,
    depth: usize,
) -> (r: Outcome)
    ensures
        (r@, final(runtime)@) == builtin_spec(
            BuiltinPredicate::Call,
            db@,
            term@,
            _bindings@,
            _at_rule as nat,
            old(runtime)@,
            depth as nat,
        ),
    decreases depth, 3nat, 0nat,
{
    match called_goal_of(term) {
        Some(goal) => Query::new(goal).solve_within(db, 0, runtime, depth),
        None => Outcome::Failed,
    }
}

/// The outcome of a built-in that neither searches nor fails for want of
/// depth.
fn outcome_of(r: Option<Partial>) -> (o: Outcome)
    ensures
        o@ == match r {
            Some(p) => OutcomeModel::Solved(p@),
            None => OutcomeModel::Failed,
        },
{
    match r {
        Some(p) => Outcome::Solved(p),
        None => Outcome::Failed,
    }
}

/// Applies a built-in to a goal.
pub fn apply_builtin(
    which: BuiltinPredicate,
    db: &Database,
    term: &Term,
    bindings: &Bindings,
    at_rule: usize,
    runtime: &mut Runtime,
    depth: usize,
) -> (r: Outcome)
    ensures
        (r@, final(runtime)@) == builtin_spec(
            which,
            db@,
            term@,
            bindings@,
            at_rule as nat,
            old(runtime)@,
            depth as nat,
        ),
    decreases depth, 3nat, 1nat,
{
    match which {
        BuiltinPredicate::Call => builtin_call(db, term, bindings, at_rule, runtime, depth),
        BuiltinPredicate::Cut => outcome_of(builtin_cut_0(term, bindings, at_rule)),
        BuiltinPredicate::Fail => outcome_of(builtin_fail_0(term, bindings, at_rule)),
        BuiltinPredicate::Nl => outcome_of(builtin_nl_0(term, bindings, at_rule, runtime)),
        BuiltinPredicate::Write => outcome_of(builtin_write_1(term, bindings, at_rule, runtime)),
        BuiltinPredicate::Is => builtin_is_2(db, term, bindings, at_rule, runtime, depth),
        BuiltinPredicate::Equal => outcome_of(builtin_equal_2(term, bindings, at_rule)),
        BuiltinPredicate::NotEqual => outcome_of(builtin_not_equal_2(term, bindings, at_rule)),
        BuiltinPredicate::LessThan => outcome_of(builtin_less_than_2(term, bindings, at_rule)),
        BuiltinPredicate::GreaterThan => outcome_of(
            builtin_greater_than_2(term, bindings, at_rule),
        ),
        BuiltinPredicate::LessThanOrEqual => outcome_of(
            builtin_less_than_or_equal_2(term, bindings, at_rule),
        ),
        BuiltinPredicate::GreaterThanOrEqual => outcome_of(
            builtin_greater_than_or_equal_2(term, bindings, at_rule),
        ),
        BuiltinPredicate::Add => outcome_of(builtin_add_2(term, bindings, at_rule)),
        BuiltinPredicate::Subtract => outcome_of(builtin_subtract_2(term, bindings, at_rule)),
        BuiltinPredicate::Multiply => outcome_of(builtin_multiply_2(term, bindings, at_rule)),
        BuiltinPredicate::Divide => outcome_of(builtin_divide_2(term, bindings, at_rule)),
    }
}

/// Simplifies a term: while it names a built-in, the built-in is applied and
/// its result simplified in turn; a term that names none is returned as it
/// is, with the given bindings and cursor.
pub fn simplify_term(
    db: &Database,
    term: &Term,
    bindings: &Bindings,
    at_rule: usize,
    runtime: &mut Runtime,
    depth: usize,
) -> (r: Outcome)
    ensures
        (r@, final(runtime)@) == simplify_spec(
            db@,
            term@,
            bindings@,
            at_rule as nat,
            old(runtime)@,
            depth as nat,
        ),
    decreases depth, 4nat, 0nat,
{
    match lookup_builtin(term) {
        Some(which) => match apply_builtin(which, db, term, bindings, at_rule, runtime, depth) {
            Outcome::Solved(partial) => {
                if depth == 0 {
                    Outcome::Exhausted
                } else {
                    simplify_term(
                        db,
                        &partial.result,
                        &partial.bindings,
                        partial.rule,
                        runtime,
                        depth - 1,
                    )
                }
            },
            other => other,
        },
        None => Outcome::Solved(Partial::new(copy_term(term), bindings.clone(), at_rule)),
    }
}

} // verus!
