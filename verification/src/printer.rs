//! The canonical written form of a term.

use vstd::prelude::*;
use crate::text::{push_signed_decimal, push_text, signed_decimal};
use crate::tree::{lemma_compound_model, models, TermKind, TermModel};

verus! {

/// The written forms of a sequence of terms, separated by a comma and a
/// space.
pub open spec fn print_args(args: Seq<TermModel>) -> Seq<char>
    decreases args, 2nat,
{
    if args.len() == 0 {
        Seq::empty()
    } else if args.len() == 1 {
        print_spec(args.last())
    } else {
        print_args(args.drop_last()) + seq![',', ' '] + print_spec(args.last())
    }
}

/// What stands between the square brackets of a list cell: the elements
/// separated by a comma and a space, and, where the list does not end in the
/// empty list, a vertical bar and its last tail.
pub open spec fn print_cell(cell: TermModel) -> Seq<char>
    decreases cell, 0nat,
{
    match cell {
        TermModel::List(head, tail) => print_spec(*head) + (match *tail {
            TermModel::EmptyList => Seq::empty(),
            TermModel::List(_, _) => seq![',', ' '] + print_cell(*tail),
            _ => seq![' ', '|', ' '] + print_spec(*tail),
        }),
        _ => Seq::empty(),
    }
}

/// The canonical written form of a term: an atom or a variable is its name,
/// an integer its decimal notation, a string its text between double quotes
/// with no escaping, a compound term its name and its arguments in round
/// brackets, a list its elements in square brackets.
pub open spec fn print_spec(t: TermModel) -> Seq<char>
    decreases t, 1nat,
{
    match t {
        TermModel::EmptyList => seq!['[', ']'],
        TermModel::Atom(n) => n,
        TermModel::Var(n) => n,
        TermModel::Integer(i) => signed_decimal(i as int),
        TermModel::Text(s) => seq!['"'] + s + seq!['"'],
        TermModel::Compound(n, args) => n + seq!['('] + print_args(args) + seq![')'],
        TermModel::List(_, _) => seq!['['] + print_cell(t) + seq![']'],
    }
}

/// Appends what stands between the square brackets of a list cell.
fn write_cell(cell: &TermKind, out: &mut String)
    requires
        cell is List,
    ensures
        final(out)@ == old(out)@ + print_cell(cell@),
    decreases cell, 0nat,
{
    match cell {
        TermKind::List(head, tail) => {
            assert(cell@ == TermModel::List(Box::new(head@), Box::new(tail@)));
            write_term(head, out);
            match &**tail {
                TermKind::EmptyList => {
                    assert(out@ =~= old(out)@ + print_cell(cell@));
                },
                TermKind::List(_, _) => {
                    out.push(',');
                    out.push(' ');
                    write_cell(tail, out);
                    assert(out@ =~= old(out)@ + print_cell(cell@));
                },
                _ => {
                    out.push(' ');
                    out.push('|');
                    out.push(' ');
                    write_term(tail, out);
                    assert(out@ =~= old(out)@ + print_cell(cell@));
                },
            }
        },
        _ => {},
    }
}

/// Appends the canonical written form of a term.
pub fn write_term(term: &TermKind, out: &mut String)
    ensures
        final(out)@ == old(out)@ + print_spec(term@),
    decreases term, 1nat,
{
    match term {
        TermKind::EmptyList => {
            out.push('[');
            out.push(']');
            assert(out@ =~= old(out)@ + print_spec(term@));
        },
        TermKind::Atom(n) => {
            push_text(out, n);
        },
        TermKind::Var(n) => {
            push_text(out, n);
        },
        TermKind::Integer(i) => {
            push_signed_decimal(out, *i);
        },
        TermKind::String(s) => {
            out.push('"');
            push_text(out, s);
            out.push('"');
            assert(out@ =~= old(out)@ + print_spec(term@));
        },
        TermKind::Compound(n, args) => {
            proof {
                lemma_compound_model(term);
            }
            push_text(out, n);
            out.push('(');
            let ghost start = out@;
            let ghost all = models(args@);
            let mut i: usize = 0;
            assert(all.take(0) =~= Seq::<TermModel>::empty());
            assert(start + print_args(all.take(0)) =~= start);
            while i < args.len()
                invariant
                    i <= args.len(),
                    all == models(args@),
                    term is Compound,
                    term->Compound_1 == *args,
                    out@ == start + print_args(all.take(i as int)),
                decreases args.len() - i,
            {
                let ghost before = out@;
                if i > 0 {
                    out.push(',');
                    out.push(' ');
                }
                write_term(&args[i], out);
                proof {
                    let longer = all.take(i + 1);
                    assert(longer.drop_last() =~= all.take(i as int));
                    assert(longer.last() == args@[i as int]@);
                    if i > 0 {
                        assert(out@ =~= start + print_args(longer));
                    } else {
                        assert(all.take(0) =~= Seq::<TermModel>::empty());
                        assert(print_args(all.take(0)) =~= Seq::<char>::empty());
                        assert(out@ =~= start + print_args(longer));
                    }
                }
                i = i + 1;
            }
            out.push(')');
            assert(all.take(i as int) =~= all);
            assert(out@ =~= old(out)@ + print_spec(term@));
        },
        TermKind::List(head, tail) => {
            out.push('[');
            write_cell(term, out);
            out.push(']');
            assert(out@ =~= old(out)@ + print_spec(term@));
        },
    }
}

impl TermKind {
    /// The canonical written form of this term.
    pub fn to_string(&self) -> (r: String)
        ensures
            r@ == print_spec(self@),
    {
        let mut out = String::new();
        write_term(self, &mut out);
        assert(out@ =~= print_spec(self@));
        out
    }
}

} // verus!
