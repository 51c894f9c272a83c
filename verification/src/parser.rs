//! The parser: from the tokens of a source text to terms and clauses.
//!
//! ```text
//! program   ::= clause*
//! clause    ::= term "." | term ":-" expr "."
//! expr      ::= term ("," term)*
//! term      ::= word ( "(" term ("," term)* ")" )?
//!             | list | integer | term binop term
//! list      ::= "[" "]" | "[" term ("," term)* ( "|" term )? "]"
//! ```
//!
//! A word that starts with an upper-case letter is a variable, one that
//! starts with a digit or a minus sign an integer, any other an atom. Binary
//! operators associate to the right and have no precedence among them.

use vstd::prelude::*;
use vstd::string::*;
use crate::lexer::{token_models, tokenize, tokens_spec, Token, TokenModel};
use crate::text::{chars_of, push_text, same_text};
use crate::tree::{
    clause_models, lemma_compound_model, models, Clause, ClauseModel, Expr, ExprKind, ExprModel,
    Term, TermKind, TermModel,
};

verus! {

/// Why a text does not parse.
#[derive(Debug)]
pub enum ParseError {
    /// The text ends where a token is needed.
    UnexpectedEof,
    /// A token stands where another is needed.
    UnexpectedToken(Token),
}

/// The model of a parse error.
pub enum ParseErrorModel {
    UnexpectedEof,
    UnexpectedToken(TokenModel),
}

impl View for ParseError {
    type V = ParseErrorModel;

    open spec fn view(&self) -> ParseErrorModel {
        match self {
            ParseError::UnexpectedEof => ParseErrorModel::UnexpectedEof,
            ParseError::UnexpectedToken(t) => ParseErrorModel::UnexpectedToken(t@),
        }
    }
}

impl Clone for ParseError {
    /// A copy with the same model.
    fn clone(&self) -> (r: Self)
        ensures
            r@ == self@,
    {
        match self {
            ParseError::UnexpectedEof => ParseError::UnexpectedEof,
            ParseError::UnexpectedToken(t) => ParseError::UnexpectedToken(t.clone()),
        }
    }
}

/// What a parser returns: a value and the position after it, or an error.
pub type Parsed<T> = Result<(T, nat), ParseErrorModel>;

/// The token at a position, if there is one.
pub open spec fn peek_spec(toks: Seq<TokenModel>, pos: nat) -> Option<TokenModel> {
    if pos < toks.len() {
        Some(toks[pos as int])
    } else {
        None
    }
}

/// The position after a given token, where that token is next.
pub open spec fn expect_token_spec(toks: Seq<TokenModel>, pos: nat, token: TokenModel) -> Result<
    nat,
    ParseErrorModel,
> {
    match peek_spec(toks, pos) {
        Some(next) => if next == token {
            Ok(pos + 1)
        } else {
            Err(ParseErrorModel::UnexpectedToken(next))
        },
        None => Err(ParseErrorModel::UnexpectedEof),
    }
}

/// The words that are binary operators.
pub open spec fn is_binary_operator(name: Seq<char>) -> bool {
    name == "="@ || name == "\\="@ || name == ">"@ || name == ">="@ || name == "<"@ || name
        == "<="@ || name == "+"@ || name == "-"@ || name == "is"@
}

/// Whether a character is a decimal digit.
pub open spec fn is_digit(c: char) -> bool {
    '0' <= c && c <= '9'
}

/// Whether a character is an upper-case letter.
pub open spec fn is_upper(c: char) -> bool {
    'A' <= c && c <= 'Z'
}

/// The value of a digit.
pub open spec fn digit_value(c: char) -> nat {
    (c as u32 - '0' as u32) as nat
}

/// The number that a sequence of digits writes.
pub open spec fn digits_value(s: Seq<char>) -> nat
    decreases s.len(),
{
    if s.len() == 0 {
        0
    } else {
        digits_value(s.drop_last()) * 10 + digit_value(s.last())
    }
}

/// Whether a text consists of decimal digits.
pub open spec fn all_digits(s: Seq<char>) -> bool {
    forall|i: int| 0 <= i < s.len() ==> is_digit(#[trigger] s[i])
}

/// The integer that a word writes: an optional minus sign and one or more
/// digits, whose value is a 64-bit signed integer.
pub open spec fn number_spec(name: Seq<char>) -> Option<i64> {
    if name.len() > 0 && name[0] == '-' {
        let digits = name.subrange(1, name.len() as int);
        if digits.len() > 0 && all_digits(digits) && digits_value(digits) <= -(i64::MIN as int) {
            Some((-(digits_value(digits) as int)) as i64)
        } else {
            None
        }
    } else if name.len() > 0 && all_digits(name) && digits_value(name) <= i64::MAX {
        Some(digits_value(name) as i64)
    } else {
        None
    }
}

/// The term that a word stands for.
pub open spec fn atom_or_variable_spec(name: Seq<char>) -> Result<TermModel, ParseErrorModel> {
    if name.len() > 0 && (is_digit(name[0]) || name[0] == '-') {
        match number_spec(name) {
            Some(n) => Ok(TermModel::Integer(n)),
            None => Err(ParseErrorModel::UnexpectedToken(TokenModel::Word(name))),
        }
    } else if name.len() > 0 && is_upper(name[0]) {
        Ok(TermModel::Var(name))
    } else {
        Ok(TermModel::Atom(name))
    }
}

/// Whether a word starts with a digit.
pub open spec fn starts_with_digit(token: Option<TokenModel>) -> bool {
    match token {
        Some(TokenModel::Word(w)) => w.len() > 0 && is_digit(w[0]),
        _ => false,
    }
}

/// A term that is no application of a binary operator: a word, possibly
/// with arguments; a minus sign and the digits of a negative integer; or a
/// list.
pub open spec fn primary_spec(toks: Seq<TokenModel>, pos: nat) -> Parsed<TermModel>
    decreases toks.len() - pos, 2nat,
{
    if pos >= toks.len() {
        Err(ParseErrorModel::UnexpectedEof)
    } else {
        match toks[pos as int] {
            TokenModel::Word(name) => if peek_spec(toks, pos + 1) == Some(
                TokenModel::OpenBracket,
            ) {
                compound_spec(toks, pos + 1, name)
            } else if name == "-"@ && starts_with_digit(peek_spec(toks, pos + 1)) {
                match atom_or_variable_spec(name + toks[pos as int + 1]->Word_0) {
                    Ok(t) => Ok((t, pos + 2)),
                    Err(e) => Err(e),
                }
            } else {
                match atom_or_variable_spec(name) {
                    Ok(t) => Ok((t, pos + 1)),
                    Err(e) => Err(e),
                }
            },
            TokenModel::OpenSquare => list_spec(toks, pos + 1),
            token => Err(ParseErrorModel::UnexpectedToken(token)),
        }
    }
}

/// The arguments of a compound term in round brackets, from the opening
/// bracket on.
pub open spec fn compound_spec(toks: Seq<TokenModel>, pos: nat, name: Seq<char>) -> Parsed<
    TermModel,
>
    decreases toks.len() - pos, 1nat,
{
    match peek_spec(toks, pos) {
        Some(TokenModel::OpenBracket) => match arguments_spec(toks, pos + 1) {
            Ok((args, after)) => match expect_token_spec(toks, after, TokenModel::CloseBracket) {
                Ok(end) => Ok((TermModel::Compound(name, args), end)),
                Err(e) => Err(e),
            },
            Err(e) => Err(e),
        },
        Some(token) => Err(ParseErrorModel::UnexpectedToken(token)),
        None => Err(ParseErrorModel::UnexpectedEof),
    }
}

/// One or more terms separated by commas.
pub open spec fn arguments_spec(toks: Seq<TokenModel>, pos: nat) -> Parsed<Seq<TermModel>>
    decreases toks.len() - pos, 4nat,
{
    match parse_term_spec(toks, pos) {
        Ok((first, after)) => if peek_spec(toks, after) == Some(TokenModel::Comma) && pos
            < after {
            match arguments_spec(toks, after + 1) {
                Ok((rest, end)) => Ok((seq![first] + rest, end)),
                Err(e) => Err(e),
            }
        } else {
            Ok((seq![first], after))
        },
        Err(e) => Err(e),
    }
}

/// A list, after its opening bracket.
pub open spec fn list_spec(toks: Seq<TokenModel>, pos: nat) -> Parsed<TermModel>
    decreases toks.len() - pos, 5nat,
{
    if peek_spec(toks, pos) == Some(TokenModel::CloseSquare) {
        Ok((TermModel::EmptyList, pos + 1))
    } else {
        list_items_spec(toks, pos)
    }
}

/// The elements of a list up to its closing bracket: terms separated by
/// commas, and after a vertical bar the tail, which is the empty list where
/// none is written.
pub open spec fn list_items_spec(toks: Seq<TokenModel>, pos: nat) -> Parsed<TermModel>
    decreases toks.len() - pos, 4nat,
{
    match parse_term_spec(toks, pos) {
        Ok((item, after)) => match peek_spec(toks, after) {
            Some(TokenModel::Comma) => if pos < after {
                match list_items_spec(toks, after + 1) {
                    Ok((rest, end)) => Ok((TermModel::List(Box::new(item), Box::new(rest)), end)),
                    Err(e) => Err(e),
                }
            } else {
                Err(ParseErrorModel::UnexpectedEof)
            },
            Some(TokenModel::CloseSquare) => Ok(
                (TermModel::List(Box::new(item), Box::new(TermModel::EmptyList)), after + 1),
            ),
            Some(TokenModel::VerticalBar) => if pos < after {
                match parse_term_spec(toks, after + 1) {
                    Ok((tail, close)) => match expect_token_spec(
                        toks,
                        close,
                        TokenModel::CloseSquare,
                    ) {
                        Ok(end) => Ok((TermModel::List(Box::new(item), Box::new(tail)), end)),
                        Err(e) => Err(e),
                    },
                    Err(e) => Err(e),
                }
            } else {
                Err(ParseErrorModel::UnexpectedEof)
            },
            Some(token) => Err(ParseErrorModel::UnexpectedToken(token)),
            None => Err(ParseErrorModel::UnexpectedEof),
        },
        Err(e) => Err(e),
    }
}

/// A term: a primary term, and where a binary operator follows it, the
/// compound term of the operator, the primary term and the term after the
/// operator.
pub open spec fn parse_term_spec(toks: Seq<TokenModel>, pos: nat) -> Parsed<TermModel>
    decreases toks.len() - pos, 3nat,
{
    match primary_spec(toks, pos) {
        Ok((first, after)) => match peek_spec(toks, after) {
            Some(TokenModel::Word(name)) => if is_binary_operator(name) && pos < after {
                match parse_term_spec(toks, after + 1) {
                    Ok((second, end)) => Ok(
                        (TermModel::Compound(name, seq![first, second]), end),
                    ),
                    Err(e) => Err(e),
                }
            } else {
                Ok((first, after))
            },
            _ => Ok((first, after)),
        },
        Err(e) => Err(e),
    }
}

/// A rule body: terms separated by commas, as a conjunction that
/// associates to the right.
pub open spec fn expression_spec(toks: Seq<TokenModel>, pos: nat) -> Parsed<ExprModel>
    decreases toks.len() - pos, 4nat,
{
    match parse_term_spec(toks, pos) {
        Ok((term, after)) => if peek_spec(toks, after) == Some(TokenModel::Comma) && pos < after {
            match expression_spec(toks, after + 1) {
                Ok((rest, end)) => Ok(
                    (ExprModel::Conjunct(Box::new(ExprModel::Term(term)), Box::new(rest)), end),
                ),
                Err(e) => Err(e),
            }
        } else {
            Ok((ExprModel::Term(term), after))
        },
        Err(e) => Err(e),
    }
}

/// A clause: a term and a period, or a term, the horn, a body and a period.
pub open spec fn clause_spec(toks: Seq<TokenModel>, pos: nat) -> Parsed<ClauseModel> {
    match parse_term_spec(toks, pos) {
        Ok((head, after)) => match peek_spec(toks, after) {
            Some(TokenModel::Period) => Ok((ClauseModel::Fact(head), after + 1)),
            Some(TokenModel::Horn) => match expression_spec(toks, after + 1) {
                Ok((body, close)) => match expect_token_spec(toks, close, TokenModel::Period) {
                    Ok(end) => Ok((ClauseModel::Rule(head, body), end)),
                    Err(e) => Err(e),
                },
                Err(e) => Err(e),
            },
            Some(token) => Err(ParseErrorModel::UnexpectedToken(token)),
            None => Err(ParseErrorModel::UnexpectedEof),
        },
        Err(e) => Err(e),
    }
}

/// The clauses from a position to the end of the tokens.
pub open spec fn program_spec(toks: Seq<TokenModel>, pos: nat) -> Result<
    Seq<ClauseModel>,
    ParseErrorModel,
>
    decreases toks.len() - pos,
{
    if pos >= toks.len() {
        Ok(Seq::empty())
    } else {
        match clause_spec(toks, pos) {
            Ok((clause, after)) => if pos < after {
                match program_spec(toks, after) {
                    Ok(rest) => Ok(seq![clause] + rest),
                    Err(e) => Err(e),
                }
            } else {
                Err(ParseErrorModel::UnexpectedEof)
            },
            Err(e) => Err(e),
        }
    }
}

/// The program that a source text writes.
pub open spec fn parse_spec(text: Seq<char>) -> Result<Seq<ClauseModel>, ParseErrorModel> {
    program_spec(tokens_spec(text, 0), 0)
}

/// The query that a source text writes: one term and a period.
pub open spec fn parse_query_spec(text: Seq<char>) -> Result<TermModel, ParseErrorModel> {
    let toks = tokens_spec(text, 0);
    match parse_term_spec(toks, 0) {
        Ok((term, after)) => match peek_spec(toks, after) {
            Some(TokenModel::Period) => Ok(term),
            Some(token) => Err(ParseErrorModel::UnexpectedToken(token)),
            None => Err(ParseErrorModel::UnexpectedEof),
        },
        Err(e) => Err(e),
    }
}

/// The model of what a parser of terms returns.
pub open spec fn term_result(r: Result<(Term, usize), ParseError>) -> Parsed<TermModel> {
    match r {
        Ok((t, p)) => Ok((t@, p as nat)),
        Err(e) => Err(e@),
    }
}

/// The model of what a parser of argument lists returns.
pub open spec fn args_result(r: Result<(Vec<Term>, usize), ParseError>) -> Parsed<Seq<TermModel>> {
    match r {
        Ok((v, p)) => Ok((models(v@), p as nat)),
        Err(e) => Err(e@),
    }
}

/// The model of what a parser of bodies returns.
pub open spec fn expr_result(r: Result<(Expr, usize), ParseError>) -> Parsed<ExprModel> {
    match r {
        Ok((x, p)) => Ok((x@, p as nat)),
        Err(e) => Err(e@),
    }
}

/// The model of what a parser of clauses returns.
pub open spec fn clause_result(r: Result<(Clause, usize), ParseError>) -> Parsed<ClauseModel> {
    match r {
        Ok((c, p)) => Ok((c@, p as nat)),
        Err(e) => Err(e@),
    }
}

/// A parser that succeeds reads at least one token and stays within the
/// tokens.
pub open spec fn advances<T>(r: Result<(T, usize), ParseError>, pos: usize, len: nat) -> bool {
    match r {
        Ok((_, p)) => pos < p <= len,
        Err(_) => true,
    }
}

/// The arguments so far before what the rest of an argument list gives.
pub open spec fn prepend_args(prefix: Seq<TermModel>, r: Parsed<Seq<TermModel>>) -> Parsed<
    Seq<TermModel>,
> {
    match r {
        Ok((rest, end)) => Ok((prefix + rest, end)),
        Err(e) => Err(e),
    }
}

/// The list of the given elements before a tail.
pub open spec fn cons_all(items: Seq<TermModel>, tail: TermModel) -> TermModel
    decreases items.len(),
{
    if items.len() == 0 {
        tail
    } else {
        cons_all(items.drop_last(), TermModel::List(Box::new(items.last()), Box::new(tail)))
    }
}

/// The elements so far before what the rest of a list gives.
pub open spec fn prepend_items(prefix: Seq<TermModel>, r: Parsed<TermModel>) -> Parsed<TermModel> {
    match r {
        Ok((rest, end)) => Ok((cons_all(prefix, rest), end)),
        Err(e) => Err(e),
    }
}

/// The clauses so far before what the rest of a program gives.
pub open spec fn prepend_clauses(
    prefix: Seq<ClauseModel>,
    r: Result<Seq<ClauseModel>, ParseErrorModel>,
) -> Result<Seq<ClauseModel>, ParseErrorModel> {
    match r {
        Ok(rest) => Ok(prefix + rest),
        Err(e) => Err(e),
    }
}

/// The digits of a front part write no more than all the digits.
pub proof fn lemma_digits_prefix(s: Seq<char>, k: int)
    requires
        0 <= k <= s.len(),
    ensures
        digits_value(s.take(k)) <= digits_value(s),
    decreases s.len() - k,
{
    if k < s.len() {
        assert(s.take(k + 1).drop_last() =~= s.take(k));
        lemma_digits_prefix(s, k + 1);
    } else {
        assert(s.take(k) =~= s);
    }
}

/// The next token and the position after it.
pub fn expect_next(tokens: &Vec<Token>, pos: usize) -> (r: Result<(Token, usize), ParseError>)
    ensures
        match peek_spec(token_models(tokens@), pos as nat) {
            Some(token) => r is Ok && r.unwrap().0@ == token && r.unwrap().1 == pos + 1,
            None => r is Err && r.unwrap_err()@ == ParseErrorModel::UnexpectedEof,
        },
{
    if pos < tokens.len() {
        Ok((tokens[pos].clone(), pos + 1))
    } else {
        Err(ParseError::UnexpectedEof)
    }
}

/// The position after the next token, which must be the given one.
pub fn expect_token(tokens: &Vec<Token>, pos: usize, token: Token) -> (r: Result<
    usize,
    ParseError,
>)
    ensures
        match expect_token_spec(token_models(tokens@), pos as nat, token@) {
            Ok(end) => r is Ok && r.unwrap() == end,
            Err(e) => r is Err && r.unwrap_err()@ == e,
        },
{
    let (next, after) = match expect_next(tokens, pos) {
        Ok(found) => found,
        Err(e) => {
            return Err(e);
        },
    };
    if next == token {
        Ok(after)
    } else {
        Err(ParseError::UnexpectedToken(next))
    }
}

/// The integer that a word writes, if it writes one.
pub fn parse_number(name: &str) -> (r: Option<i64>)
    ensures
        r == number_spec(name@),
{
    let chars = chars_of(name);
    let n = chars.len();
    if n == 0 {
        return None;
    }
    let negative = chars[0] == '-';
    let first: usize = if negative {
        1
    } else {
        0
    };
    let ghost digits = chars@.subrange(first as int, n as int);
    if first >= n {
        return None;
    }
    let limit: u64 = if negative {
        9223372036854775808
    } else {
        9223372036854775807
    };
    let mut acc: u64 = 0;
    let mut i: usize = first;
    assert(digits.take(0) =~= Seq::<char>::empty());
    while i < n
        invariant
            first <= i <= n,
            n == chars@.len(),
            digits == chars@.subrange(first as int, n as int),
            chars@ == name@,
            negative == (chars@[0] == '-'),
            first == if negative { 1usize } else { 0usize },
            limit == if negative { 9223372036854775808u64 } else { 9223372036854775807u64 },
            acc == digits_value(digits.take(i - first)),
            acc <= limit,
            limit <= 9223372036854775808,
            all_digits(digits.take(i - first)),
        decreases n - i,
    {
        let c = chars[i];
        let ghost j = i - first;
        proof {
            assert(digits.take(j + 1).drop_last() =~= digits.take(j));
            assert(digits.take(j + 1).last() == c);
            assert(digits[j] == c);
            lemma_digits_prefix(digits, j + 1);
        }
        if !('0' <= c && c <= '9') {
            assert(!all_digits(digits));
            assert(!negative ==> digits =~= name@);
            return None;
        }
        let d: u64 = (c as u32 - '0' as u32) as u64;
        if acc > (limit - d) / 10 {
            assert(digits_value(digits.take(j + 1)) > limit);
            assert(!negative ==> digits =~= name@);
            return None;
        }
        acc = acc * 10 + d;
        i = i + 1;
        assert(all_digits(digits.take(j + 1))) by {
            assert forall|k: int| 0 <= k < j + 1 implies is_digit(
                #[trigger] digits.take(j + 1)[k],
            ) by {
                if k < j {
                    assert(digits.take(j + 1)[k] == digits.take(j)[k]);
                }
            }
        }
    }
    assert(digits.take(n - first) =~= digits);
    assert(!negative ==> digits =~= name@);
    if negative {
        if acc == 9223372036854775808 {
            Some(i64::MIN)
        } else {
            Some(-(acc as i64))
        }
    } else {
        Some(acc as i64)
    }
}

/// The term that a word stands for: an integer where it starts with a digit
/// or a minus sign, a variable where it starts with an upper-case letter,
/// else an atom. A word that starts like an integer and writes none is an
/// unexpected token.
pub fn parse_atom_or_variable(name: String) -> (r: Result<Term, ParseError>)
    ensures
        match atom_or_variable_spec(name@) {
            Ok(t) => r is Ok && r.unwrap()@ == t,
            Err(e) => r is Err && r.unwrap_err()@ == e,
        },
{
    if name.as_str().is_empty() {
        return Ok(Box::new(TermKind::Atom(name)));
    }
    let ch = name.as_str().get_char(0);
    if ('0' <= ch && ch <= '9') || ch == '-' {
        match parse_number(name.as_str()) {
            Some(n) => Ok(Box::new(TermKind::Integer(n))),
            None => Err(ParseError::UnexpectedToken(Token::Word(name))),
        }
    } else if 'A' <= ch && ch <= 'Z' {
        Ok(Box::new(TermKind::Var(name)))
    } else {
        Ok(Box::new(TermKind::Atom(name)))
    }
}

/// Whether a word is a binary operator.
fn binary_operator(name: &str) -> (r: bool)
    ensures
        r == is_binary_operator(name@),
{
    same_text(name, "=") || same_text(name, "\\=") || same_text(name, ">") || same_text(
        name,
        ">=",
    ) || same_text(name, "<") || same_text(name, "<=") || same_text(name, "+") || same_text(
        name,
        "-",
    ) || same_text(name, "is")
}

/// Whether the token at a position is a word that starts with a digit.
fn digits_follow(tokens: &Vec<Token>, pos: usize) -> (r: bool)
    ensures
        r == starts_with_digit(peek_spec(token_models(tokens@), pos as nat)),
{
    if pos < tokens.len() {
        match &tokens[pos] {
            Token::Word(w) => {
                if w.as_str().is_empty() {
                    false
                } else {
                    let c = w.as_str().get_char(0);
                    '0' <= c && c <= '9'
                }
            },
            _ => false,
        }
    } else {
        false
    }
}

/// Parses a term that is no application of a binary operator.
fn parse_primary(tokens: &Vec<Token>, pos: usize) -> (r: Result<(Term, usize), ParseError>)
    ensures
        term_result(r) == primary_spec(token_models(tokens@), pos as nat),
        advances(r, pos, tokens@.len()),
    decreases tokens@.len() - pos, 2nat,
{
    if pos >= tokens.len() {
        return Err(ParseError::UnexpectedEof);
    }
    match &tokens[pos] {
        Token::Word(name) => {
            let bracket = pos + 1 < tokens.len() && match &tokens[pos + 1] {
                Token::OpenBracket => true,
                _ => false,
            };
            if bracket {
                parse_compound(tokens, pos + 1, name.clone())
            } else if same_text(name.as_str(), "-") && digits_follow(tokens, pos + 1) {
                let mut text = name.clone();
                match &tokens[pos + 1] {
                    Token::Word(w) => {
                        push_text(&mut text, w);
                    },
                    _ => {},
                }
                match parse_atom_or_variable(text) {
                    Ok(t) => Ok((t, pos + 2)),
                    Err(e) => Err(e),
                }
            } else {
                match parse_atom_or_variable(name.clone()) {
                    Ok(t) => Ok((t, pos + 1)),
                    Err(e) => Err(e),
                }
            }
        },
        Token::OpenSquare => parse_list(tokens, pos + 1),
        token => Err(ParseError::UnexpectedToken(token.clone())),
    }
}

/// Parses the arguments of a compound term, from the opening bracket on.
pub fn parse_compound(tokens: &Vec<Token>, pos: usize, name: String) -> (r: Result<
    (Term, usize),
    ParseError,
>)
    ensures
        term_result(r) == compound_spec(token_models(tokens@), pos as nat, name@),
        advances(r, pos, tokens@.len()),
    decreases tokens@.len() - pos, 1nat,
{
    let (token, after) = match expect_next(tokens, pos) {
        Ok(found) => found,
        Err(e) => {
            return Err(e);
        },
    };
    match token {
        Token::OpenBracket => {
            let (args, close) = match parse_comma_separated(tokens, after) {
                Ok(found) => found,
                Err(e) => {
                    return Err(e);
                },
            };
            let end = match expect_token(tokens, close, Token::CloseBracket) {
                Ok(end) => end,
                Err(e) => {
                    return Err(e);
                },
            };
            let term = Box::new(TermKind::Compound(name, args));
            proof {
                lemma_compound_model(&*term);
            }
            Ok((term, end))
        },
        token => Err(ParseError::UnexpectedToken(token)),
    }
}

/// The list of the given elements before a tail.
fn build_list(items: Vec<Term>, tail: Term) -> (r: Term)
    ensures
        r@ == cons_all(models(items@), tail@),
{
    let mut items = items;
    let mut terms = tail;
    let ghost target = cons_all(models(items@), tail@);
    while items.len() > 0
        invariant
            cons_all(models(items@), terms@) == target,
        decreases items@.len(),
    {
        let ghost before = models(items@);
        let item = items.pop().unwrap();
        assert(models(items@) =~= before.drop_last());
        assert(item@ == before.last());
        terms = Box::new(TermKind::List(item, terms));
    }
    terms
}

/// Parses a list, after its opening bracket.
pub fn parse_list(tokens: &Vec<Token>, pos: usize) -> (r: Result<(Term, usize), ParseError>)
    ensures
        term_result(r) == list_spec(token_models(tokens@), pos as nat),
        advances(r, pos, tokens@.len()),
    decreases tokens@.len() - pos, 5nat,
{
    let ghost toks = token_models(tokens@);
    if pos < tokens.len() {
        if let Token::CloseSquare = &tokens[pos] {
            return Ok((Box::new(TermKind::EmptyList), pos + 1));
        }
    }
    if pos > tokens.len() {
        return Err(ParseError::UnexpectedEof);
    }
    let mut new_list: Vec<Term> = Vec::new();
    let mut at: usize = pos;
    assert(models(new_list@) =~= Seq::<TermModel>::empty());
    loop
        invariant
            toks == token_models(tokens@),
            pos <= at <= tokens@.len(),
            list_spec(toks, pos as nat) == prepend_items(
                models(new_list@),
                list_items_spec(toks, at as nat),
            ),
        decreases tokens@.len() - at,
    {
        let ghost prefix = models(new_list@);
        let (item, after) = match parse_term(tokens, at) {
            Ok(found) => found,
            Err(e) => {
                return Err(e);
            },
        };
        new_list.push(item);
        proof {
            assert(models(new_list@) =~= prefix.push(item@));
            assert(models(new_list@).drop_last() =~= prefix);
        }
        let (token, next) = match expect_next(tokens, after) {
            Ok(found) => found,
            Err(e) => {
                return Err(e);
            },
        };
        match token {
            Token::Comma => {
                at = next;
            },
            Token::CloseSquare => {
                return Ok((build_list(new_list, Box::new(TermKind::EmptyList)), next));
            },
            Token::VerticalBar => {
                let (tail, close) = match parse_term(tokens, next) {
                    Ok(found) => found,
                    Err(e) => {
                        return Err(e);
                    },
                };
                let end = match expect_token(tokens, close, Token::CloseSquare) {
                    Ok(end) => end,
                    Err(e) => {
                        return Err(e);
                    },
                };
                return Ok((build_list(new_list, tail), end));
            },
            token => {
                return Err(ParseError::UnexpectedToken(token));
            },
        }
    }
}

/// Parses one or more terms separated by commas.
pub fn parse_comma_separated(tokens: &Vec<Token>, pos: usize) -> (r: Result<
    (Vec<Term>, usize),
    ParseError,
>)
    ensures
        args_result(r) == arguments_spec(token_models(tokens@), pos as nat),
        advances(r, pos, tokens@.len()),
    decreases tokens@.len() - pos, 4nat,
{
    let ghost toks = token_models(tokens@);
    if pos > tokens.len() {
        assert(primary_spec(toks, pos as nat) is Err);
        assert(parse_term_spec(toks, pos as nat) is Err);
        return Err(ParseError::UnexpectedEof);
    }
    let mut list: Vec<Term> = Vec::new();
    let mut at: usize = pos;
    assert(models(list@) =~= Seq::<TermModel>::empty());
    assert(prepend_args(models(list@), arguments_spec(toks, at as nat)) == arguments_spec(
        toks,
        at as nat,
    )) by {
        match arguments_spec(toks, at as nat) {
            Ok((rest, end)) => {
                assert(models(list@) + rest =~= rest);
            },
            Err(_) => {},
        }
    }
    loop
        invariant
            toks == token_models(tokens@),
            pos <= at <= tokens@.len(),
            arguments_spec(toks, pos as nat) == prepend_args(
                models(list@),
                arguments_spec(toks, at as nat),
            ),
        decreases tokens@.len() - at,
    {
        let ghost prefix = models(list@);
        let (term, after) = match parse_term(tokens, at) {
            Ok(found) => found,
            Err(e) => {
                return Err(e);
            },
        };
        list.push(term);
        assert(models(list@) =~= prefix + seq![term@]);
        let comma = after < tokens.len() && match &tokens[after] {
            Token::Comma => true,
            _ => false,
        };
        if comma {
            proof {
                match arguments_spec(toks, (after + 1) as nat) {
                    Ok((rest, end)) => {
                        assert(prefix + (seq![term@] + rest) =~= models(list@) + rest);
                    },
                    Err(_) => {},
                }
            }
            at = after + 1;
        } else {
            return Ok((list, after));
        }
    }
}

/// Parses a term.
pub fn parse_term(tokens: &Vec<Token>, pos: usize) -> (r: Result<(Term, usize), ParseError>)
    ensures
        term_result(r) == parse_term_spec(token_models(tokens@), pos as nat),
        advances(r, pos, tokens@.len()),
    decreases tokens@.len() - pos, 3nat,
{
    let (first, after) = match parse_primary(tokens, pos) {
        Ok(found) => found,
        Err(e) => {
            return Err(e);
        },
    };
    if after < tokens.len() {
        if let Token::Word(name) = &tokens[after] {
            if binary_operator(name.as_str()) {
                let (second, end) = match parse_term(tokens, after + 1) {
                    Ok(found) => found,
                    Err(e) => {
                        return Err(e);
                    },
                };
                let mut args: Vec<Term> = Vec::new();
                args.push(first);
                args.push(second);
                let term = Box::new(TermKind::Compound(name.clone(), args));
                proof {
                    lemma_compound_model(&*term);
                    assert(models(args@) =~= seq![first@, second@]);
                }
                return Ok((term, end));
            }
        }
    }
    Ok((first, after))
}

/// Parses a rule body.
pub fn parse_expression(tokens: &Vec<Token>, pos: usize) -> (r: Result<(Expr, usize), ParseError>)
    ensures
        expr_result(r) == expression_spec(token_models(tokens@), pos as nat),
        advances(r, pos, tokens@.len()),
    decreases tokens@.len() - pos, 4nat,
{
    let (term, after) = match parse_term(tokens, pos) {
        Ok(found) => found,
        Err(e) => {
            return Err(e);
        },
    };
    let ghost goal = term@;
    let term: Expr = Box::new(ExprKind::Term(term));
    assert(term@ == ExprModel::Term(goal));
    let comma = after < tokens.len() && match &tokens[after] {
        Token::Comma => true,
        _ => false,
    };
    if comma {
        match parse_expression(tokens, after + 1) {
            Ok((rest, end)) => {
                let both: Expr = Box::new(ExprKind::Conjunct(term, rest));
                assert(both@ == ExprModel::Conjunct(Box::new(term@), Box::new(rest@)));
                Ok((both, end))
            },
            Err(e) => Err(e),
        }
    } else {
        Ok((term, after))
    }
}

/// Parses a clause.
pub fn parse_clause(tokens: &Vec<Token>, pos: usize) -> (r: Result<(Clause, usize), ParseError>)
    ensures
        clause_result(r) == clause_spec(token_models(tokens@), pos as nat),
        advances(r, pos, tokens@.len()),
{
    let (term, after) = match parse_term(tokens, pos) {
        Ok(found) => found,
        Err(e) => {
            return Err(e);
        },
    };
    let (token, next) = match expect_next(tokens, after) {
        Ok(found) => found,
        Err(e) => {
            return Err(e);
        },
    };
    match token {
        Token::Period => Ok((Clause::Fact(term), next)),
        Token::Horn => {
            let (expr, close) = match parse_expression(tokens, next) {
                Ok(found) => found,
                Err(e) => {
                    return Err(e);
                },
            };
            match expect_token(tokens, close, Token::Period) {
                Ok(end) => Ok((Clause::Rule(term, expr), end)),
                Err(e) => Err(e),
            }
        },
        token => Err(ParseError::UnexpectedToken(token)),
    }
}

/// Parses a program: the clauses of a source text, in order.
pub fn parse(text: &str) -> (r: Result<Vec<Clause>, ParseError>)
    ensures
        match r {
            Ok(clauses) => parse_spec(text@) == Ok::<Seq<ClauseModel>, ParseErrorModel>(
                clause_models(clauses@),
            ),
            Err(e) => parse_spec(text@) == Err::<Seq<ClauseModel>, ParseErrorModel>(e@),
        },
{
    let tokens = tokenize(text);
    let ghost toks = token_models(tokens@);
    let mut clauses: Vec<Clause> = Vec::new();
    let mut at: usize = 0;
    assert(clause_models(clauses@) =~= Seq::<ClauseModel>::empty());
    assert(prepend_clauses(clause_models(clauses@), program_spec(toks, 0)) == program_spec(
        toks,
        0,
    )) by {
        match program_spec(toks, 0) {
            Ok(rest) => {
                assert(clause_models(clauses@) + rest =~= rest);
            },
            Err(_) => {},
        }
    }
    while at < tokens.len()
        invariant
            toks == token_models(tokens@),
            toks == tokens_spec(text@, 0),
            at <= tokens@.len(),
            program_spec(toks, 0) == prepend_clauses(
                clause_models(clauses@),
                program_spec(toks, at as nat),
            ),
        decreases tokens@.len() - at,
    {
        let ghost prefix = clause_models(clauses@);
        let (clause, after) = match parse_clause(&tokens, at) {
            Ok(found) => found,
            Err(e) => {
                return Err(e);
            },
        };
        clauses.push(clause);
        proof {
            assert(clause_models(clauses@) =~= prefix + seq![clause@]);
            match program_spec(toks, after as nat) {
                Ok(rest) => {
                    assert(prefix + (seq![clause@] + rest) =~= clause_models(clauses@) + rest);
                },
                Err(_) => {},
            }
        }
        at = after;
    }
    assert(clause_models(clauses@) + Seq::<ClauseModel>::empty() =~= clause_models(clauses@));
    Ok(clauses)
}

/// Parses a query: one term and a period.
pub fn parse_query(text: &str) -> (r: Result<Term, ParseError>)
    ensures
        match r {
            Ok(term) => parse_query_spec(text@) == Ok::<TermModel, ParseErrorModel>(term@),
            Err(e) => parse_query_spec(text@) == Err::<TermModel, ParseErrorModel>(e@),
        },
{
    let tokens = tokenize(text);
    let (term, after) = match parse_term(&tokens, 0) {
        Ok(found) => found,
        Err(e) => {
            return Err(e);
        },
    };
    match expect_next(&tokens, after) {
        Ok((Token::Period, _)) => Ok(term),
        Ok((token, _)) => Err(ParseError::UnexpectedToken(token)),
        Err(e) => Err(e),
    }
}

} // verus!
