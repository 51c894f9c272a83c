use prolog::lexer::{is_operator, is_whitespace, is_word, tokenize, Lexer, Token};
use prolog::parser::{parse, parse_atom_or_variable, parse_number, parse_query, ParseError};
use prolog::tree::Clause;

fn word(s: &str) -> Token {
    Token::Word(s.to_string())
}

#[test]
fn character_classes() {
    for ch in ['a', 'z', 'A', 'Z', '0', '5', '9', '_'] {
        assert!(is_word(ch));
        assert!(!is_operator(ch));
        assert!(!is_whitespace(ch));
    }
    for ch in [';', ':', '=', '>', '<', '+', '-', '*', '\\', '/', '!', '#', '$', '?', '@', '^'] {
        assert!(is_operator(ch));
        assert!(!is_word(ch));
    }
    for ch in [' ', '\n', '\t'] {
        assert!(is_whitespace(ch));
    }
    for ch in ['(', ')', '[', ']', '|', '.', ',', '%', '"', '\r'] {
        assert!(!is_word(ch) && !is_operator(ch) && !is_whitespace(ch));
    }
}

#[test]
fn lexer_gives_the_tokens_in_order() {
    let mut lexer = Lexer::new("foo(X, [a|T]) :- bar_2 .");
    let expected = vec![
        word("foo"),
        Token::OpenBracket,
        word("X"),
        Token::Comma,
        Token::OpenSquare,
        word("a"),
        Token::VerticalBar,
        word("T"),
        Token::CloseSquare,
        Token::CloseBracket,
        Token::Horn,
        word("bar_2"),
        Token::Period,
    ];
    for token in expected {
        assert_eq!(lexer.get_token(), Some(token));
    }
    assert_eq!(lexer.get_token(), None);
    assert_eq!(lexer.get_token(), None);
}

#[test]
fn lexer_reads_numbers_as_one_word() {
    assert_eq!(tokenize("904 42,0"), vec![word("904"), word("42"), Token::Comma, word("0")]);
}

#[test]
fn lexer_reads_operators_as_far_as_they_go() {
    assert_eq!(
        tokenize("X\\=Y >= <= :- : - :-- !"),
        vec![
            word("X"),
            word("\\="),
            word("Y"),
            word(">="),
            word("<="),
            Token::Horn,
            word(":"),
            word("-"),
            word(":--"),
            word("!"),
        ]
    );
    assert_eq!(tokenize("N-1"), vec![word("N"), word("-"), word("1")]);
}

#[test]
fn lexer_skips_whitespace_and_comments() {
    assert_eq!(tokenize(""), vec![]);
    assert_eq!(tokenize(" \n\t "), vec![]);
    assert_eq!(tokenize("% only a comment"), vec![]);
    assert_eq!(
        tokenize("a. % first\n  % second\n\tb."),
        vec![word("a"), Token::Period, word("b"), Token::Period]
    );
}

#[test]
fn lexer_makes_a_word_of_any_other_character() {
    assert_eq!(tokenize("\"a\""), vec![word("\""), word("a"), word("\"")]);
    assert_eq!(tokenize("&="), vec![word("&=")]);
}

#[test]
fn numbers_are_an_optional_sign_and_digits() {
    assert_eq!(parse_number("0"), Some(0));
    assert_eq!(parse_number("904"), Some(904));
    assert_eq!(parse_number("007"), Some(7));
    assert_eq!(parse_number("-5"), Some(-5));
    assert_eq!(parse_number("-0"), Some(0));
    assert_eq!(parse_number("9223372036854775807"), Some(i64::MAX));
    assert_eq!(parse_number("-9223372036854775808"), Some(i64::MIN));
    assert_eq!(parse_number("9223372036854775808"), None);
    assert_eq!(parse_number("-9223372036854775809"), None);
    assert_eq!(parse_number("99999999999999999999999"), None);
    assert_eq!(parse_number(""), None);
    assert_eq!(parse_number("-"), None);
    assert_eq!(parse_number("--5"), None);
    assert_eq!(parse_number("5-"), None);
    assert_eq!(parse_number("12ab"), None);
    assert_eq!(parse_number("a1"), None);
}

#[test]
fn words_are_integers_variables_or_atoms() {
    assert_eq!(parse_atom_or_variable("42".to_string()).unwrap().to_string(), "42");
    assert_eq!(parse_atom_or_variable("-42".to_string()).unwrap().to_string(), "-42");
    let is_var = |s: &str| matches!(&*parse_atom_or_variable(s.to_string()).unwrap(), prolog::tree::TermKind::Var(n) if n == s);
    let is_atom = |s: &str| matches!(&*parse_atom_or_variable(s.to_string()).unwrap(), prolog::tree::TermKind::Atom(n) if n == s);
    assert!(is_var("X"));
    assert!(is_var("Xs"));
    assert!(is_atom("_"));
    assert!(is_atom("_tail"));
    assert!(is_atom("_X"));
    assert!(is_atom("x"));
    assert!(is_atom("cat_2"));
    assert!(is_atom("!"));
    assert!(is_atom("="));
    assert!(is_atom(""));
    match parse_atom_or_variable("12ab".to_string()) {
        Err(ParseError::UnexpectedToken(t)) => assert_eq!(t, word("12ab")),
        other => panic!("{:?}", other),
    }
    match parse_atom_or_variable("-".to_string()) {
        Err(ParseError::UnexpectedToken(t)) => assert_eq!(t, word("-")),
        other => panic!("{:?}", other),
    }
}

fn query(text: &str) -> String {
    parse_query(text).unwrap().to_string()
}

#[test]
fn queries_parse_to_terms() {
    assert_eq!(query("foo."), "foo");
    assert_eq!(query("Foo."), "Foo");
    assert_eq!(query("42."), "42");
    assert_eq!(query("foo(a)."), "foo(a)");
    assert_eq!(query(" foo ( a , B , 3 ) . "), "foo(a, B, 3)");
    assert_eq!(query("foo(bar(baz(X)), [])."), "foo(bar(baz(X)), [])");
    assert_eq!(query("foo. and the rest is not read"), "foo");
}

#[test]
fn lists_parse_to_cons_cells() {
    assert_eq!(query("[]."), "[]");
    assert_eq!(query("[a]."), "[a]");
    assert_eq!(query("[a, b, c]."), "[a, b, c]");
    assert_eq!(query("[H|T]."), "[H | T]");
    assert_eq!(query("[a, b|T]."), "[a, b | T]");
    assert_eq!(query("[a|[b|[]]]."), "[a, b]");
    assert_eq!(query("[[1, 2], [], [x|Y]]."), "[[1, 2], [], [x | Y]]");
}

#[test]
fn binary_operators_associate_to_the_right() {
    assert_eq!(query("X = a."), "=(X, a)");
    assert_eq!(query("X \\= Y."), "\\=(X, Y)");
    assert_eq!(query("1 < 2."), "<(1, 2)");
    assert_eq!(query("1 <= 2."), "<=(1, 2)");
    assert_eq!(query("1 > 2."), ">(1, 2)");
    assert_eq!(query("1 >= 2."), ">=(1, 2)");
    assert_eq!(query("M is N - 1."), "is(M, -(N, 1))");
    assert_eq!(query("1 - 2 - 3."), "-(1, -(2, 3))");
    assert_eq!(query("X is 1 + 2."), "is(X, +(1, 2))");
    assert_eq!(query("f(N-1, [A+B])."), "f(-(N, 1), [+(A, B)])");
}

#[test]
fn a_minus_sign_before_digits_writes_a_negative_integer() {
    assert_eq!(query("-5."), "-5");
    assert_eq!(query("f(-5, - 7)."), "f(-5, -7)");
    assert_eq!(query("X is -1 + 2."), "is(X, +(-1, 2))");
    assert_eq!(query("3 - -1."), "-(3, -1)");
    assert!(matches!(&*parse_query("-5.").unwrap(), prolog::tree::TermKind::Integer(-5)));
}

#[test]
fn a_query_needs_its_period() {
    assert!(matches!(parse_query("foo"), Err(ParseError::UnexpectedEof)));
    assert!(matches!(parse_query(""), Err(ParseError::UnexpectedEof)));
    assert!(matches!(parse_query("foo("), Err(ParseError::UnexpectedEof)));
    assert!(matches!(parse_query("foo(a"), Err(ParseError::UnexpectedEof)));
    assert!(matches!(parse_query("[a, b"), Err(ParseError::UnexpectedEof)));
    assert!(matches!(parse_query("[a |"), Err(ParseError::UnexpectedEof)));
    assert!(matches!(parse_query("X is"), Err(ParseError::UnexpectedEof)));
}

#[test]
fn an_unexpected_token_is_captured() {
    let token_of = |text: &str| match parse_query(text) {
        Err(ParseError::UnexpectedToken(t)) => t,
        other => panic!("{:?}", other),
    };
    assert_eq!(token_of("foo bar."), word("bar"));
    assert_eq!(token_of("foo)."), Token::CloseBracket);
    assert_eq!(token_of("(foo)."), Token::OpenBracket);
    assert_eq!(token_of("foo(a ]"), Token::CloseSquare);
    assert_eq!(token_of("foo(a b)."), word("b"));
    assert_eq!(token_of("[a b]."), word("b"));
    assert_eq!(token_of("[a | b, c]."), Token::Comma);
    assert_eq!(token_of("[a | b c]."), word("c"));
    assert_eq!(token_of("."), Token::Period);
    assert_eq!(token_of(", a."), Token::Comma);
    assert_eq!(token_of(":- a."), Token::Horn);
    assert_eq!(token_of("| a."), Token::VerticalBar);
    assert_eq!(token_of("12ab."), word("12ab"));
    assert_eq!(token_of("99999999999999999999."), word("99999999999999999999"));
    assert_eq!(token_of("- a."), word("-"));
    assert_eq!(token_of("a :- b."), Token::Horn);
}

#[test]
fn programs_parse_to_clauses_in_order() {
    let clauses = parse(
        "
        % the family
        female(marge).
        father(X, Y) :- parent(X, Y), male(X).
        quiet :- a, b, c.
        thing.
        ",
    )
    .unwrap();
    assert_eq!(clauses.len(), 4);
    match &clauses[0] {
        Clause::Fact(t) => assert_eq!(t.to_string(), "female(marge)"),
        other => panic!("{:?}", other),
    }
    match &clauses[1] {
        Clause::Rule(head, body) => {
            assert_eq!(head.to_string(), "father(X, Y)");
            match &**body {
                prolog::tree::ExprKind::Conjunct(l, r) => {
                    assert!(matches!(&**l, prolog::tree::ExprKind::Term(t) if t.to_string() == "parent(X, Y)"));
                    assert!(matches!(&**r, prolog::tree::ExprKind::Term(t) if t.to_string() == "male(X)"));
                }
                other => panic!("{:?}", other),
            }
        }
        other => panic!("{:?}", other),
    }
    match &clauses[2] {
        Clause::Rule(_, body) => match &**body {
            prolog::tree::ExprKind::Conjunct(l, r) => {
                assert!(matches!(&**l, prolog::tree::ExprKind::Term(t) if t.to_string() == "a"));
                assert!(matches!(&**r, prolog::tree::ExprKind::Conjunct(_, _)));
            }
            other => panic!("{:?}", other),
        },
        other => panic!("{:?}", other),
    }
    assert!(matches!(&clauses[3], Clause::Fact(t) if t.to_string() == "thing"));
}

#[test]
fn an_empty_program_has_no_clauses() {
    assert_eq!(parse("").unwrap().len(), 0);
    assert_eq!(parse("  % nothing here\n").unwrap().len(), 0);
}

#[test]
fn programs_report_their_errors() {
    assert!(matches!(parse("foo"), Err(ParseError::UnexpectedEof)));
    assert!(matches!(parse("foo :- bar"), Err(ParseError::UnexpectedEof)));
    assert!(matches!(parse("foo :- "), Err(ParseError::UnexpectedEof)));
    assert!(matches!(parse("foo. bar(."), Err(ParseError::UnexpectedToken(Token::Period))));
    match parse("foo bar.") {
        Err(ParseError::UnexpectedToken(t)) => assert_eq!(t, word("bar")),
        other => panic!("{:?}", other),
    }
    match parse("foo :- bar baz.") {
        Err(ParseError::UnexpectedToken(t)) => assert_eq!(t, word("baz")),
        other => panic!("{:?}", other),
    }
    assert!(matches!(parse("foo, bar."), Err(ParseError::UnexpectedToken(Token::Comma))));
}
