//! The query facade over source texts.

use vstd::prelude::*;
use crate::parser::{parse, parse_query, parse_query_spec, parse_spec};
use crate::solver::{
    found, fresh, solve_from_spec, Database, Partial, PartialModel, Query, DEFAULT_DEPTH,
};

verus! {

/// The first proof of a query against a program, both given as source
/// text, if there is one within the default depth.
pub open spec fn first_answer(program: Seq<char>, query: Seq<char>) -> Option<PartialModel> {
    match (parse_spec(program), parse_query_spec(query)) {
        (Ok(clauses), Ok(goal)) => found(
            solve_from_spec(clauses, goal, 0, fresh(), DEFAULT_DEPTH as nat).0,
        ),
        _ => None,
    }
}

/// Parses a program and a query and returns the first proof of the query.
/// Both texts must parse and the query must have a proof.
pub fn solve_program_with_query(program: &str, query: &str) -> (r: Partial)
    requires
        first_answer(program@, query@) is Some,
    ensures
        Some(r@) == first_answer(program@, query@),
{
    let db = Database::new(parse(program).unwrap());
    let query = Query::new(parse_query(query).unwrap());
    query.solve(&db).unwrap()
}

} // verus!
