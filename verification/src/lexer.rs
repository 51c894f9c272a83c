//! The lexer: from the characters of a source text to its tokens.

use vstd::prelude::*;
use crate::text::chars_of;

verus! {

/// A token of the source text.
#[derive(Debug)]
pub enum Token {
    Word(String),
    OpenBracket,
    CloseBracket,
    OpenSquare,
    CloseSquare,
    VerticalBar,
    Comma,
    Horn,
    Period,
}

/// The model of a token.
pub enum TokenModel {
    Word(Seq<char>),
    OpenBracket,
    CloseBracket,
    OpenSquare,
    CloseSquare,
    VerticalBar,
    Comma,
    Horn,
    Period,
}

impl View for Token {
    type V = TokenModel;

    open spec fn view(&self) -> TokenModel {
        match self {
            Token::Word(s) => TokenModel::Word(s@),
            Token::OpenBracket => TokenModel::OpenBracket,
            Token::CloseBracket => TokenModel::CloseBracket,
            Token::OpenSquare => TokenModel::OpenSquare,
            Token::CloseSquare => TokenModel::CloseSquare,
            Token::VerticalBar => TokenModel::VerticalBar,
            Token::Comma => TokenModel::Comma,
            Token::Horn => TokenModel::Horn,
            Token::Period => TokenModel::Period,
        }
    }
}

impl Clone for Token {
    /// A copy with the same model.
    fn clone(&self) -> (r: Self)
        ensures
            r@ == self@,
    {
        match self {
            Token::Word(s) => Token::Word(s.clone()),
            Token::OpenBracket => Token::OpenBracket,
            Token::CloseBracket => Token::CloseBracket,
            Token::OpenSquare => Token::OpenSquare,
            Token::CloseSquare => Token::CloseSquare,
            Token::VerticalBar => Token::VerticalBar,
            Token::Comma => Token::Comma,
            Token::Horn => Token::Horn,
            Token::Period => Token::Period,
        }
    }
}

/// Two tokens are equal when they are of one kind and, for words, of one
/// text.
impl PartialEq for Token {
    fn eq(&self, other: &Token) -> (r: bool) {
        match (self, other) {
            (Token::Word(a), Token::Word(b)) => *a == *b,
            (Token::OpenBracket, Token::OpenBracket) => true,
            (Token::CloseBracket, Token::CloseBracket) => true,
            (Token::OpenSquare, Token::OpenSquare) => true,
            (Token::CloseSquare, Token::CloseSquare) => true,
            (Token::VerticalBar, Token::VerticalBar) => true,
            (Token::Comma, Token::Comma) => true,
            (Token::Horn, Token::Horn) => true,
            (Token::Period, Token::Period) => true,
            _ => false,
        }
    }
}

impl vstd::std_specs::cmp::PartialEqSpecImpl for Token {
    open spec fn obeys_eq_spec() -> bool {
        true
    }

    open spec fn eq_spec(&self, other: &Token) -> bool {
        self@ == other@
    }
}

/// Blank, newline and tab separate tokens.
pub open spec fn is_whitespace_spec(ch: char) -> bool {
    ch == ' ' || ch == '\n' || ch == '\t'
}

/// Letters, digits and the underscore make up words.
pub open spec fn is_word_spec(ch: char) -> bool {
    ('a' <= ch && ch <= 'z') || ('A' <= ch && ch <= 'Z') || ('0' <= ch && ch <= '9') || ch == '_'
}

/// The characters that make up operators.
pub open spec fn is_operator_spec(ch: char) -> bool {
    ch == ';' || ch == ':' || ch == '=' || ch == '>' || ch == '<' || ch == '+' || ch == '-' || ch
        == '*' || ch == '\\' || ch == '/' || ch == '!' || ch == '#' || ch == '$' || ch == '?' || ch
        == '@' || ch == '^'
}

/// The classes of characters that a run is made of.
#[derive(Clone, Copy, PartialEq, Eq, Structural)]
pub enum CharClass {
    Whitespace,
    Word,
    Operator,
    /// Anything but a newline: the rest of a comment line.
    Comment,
}

/// Whether a character belongs to a class.
pub open spec fn in_class(class: CharClass, ch: char) -> bool {
    match class {
        CharClass::Whitespace => is_whitespace_spec(ch),
        CharClass::Word => is_word_spec(ch),
        CharClass::Operator => is_operator_spec(ch),
        CharClass::Comment => ch != '\n',
    }
}

/// The end of the longest run of characters of one class that starts at
/// `pos`.
pub open spec fn run_end(s: Seq<char>, pos: nat, class: CharClass) -> nat
    decreases s.len() - pos,
{
    if pos < s.len() && in_class(class, s[pos as int]) {
        run_end(s, pos + 1, class)
    } else {
        pos
    }
}

/// The token of a single punctuation character.
pub open spec fn punctuation(ch: char) -> Option<TokenModel> {
    if ch == '(' {
        Some(TokenModel::OpenBracket)
    } else if ch == ')' {
        Some(TokenModel::CloseBracket)
    } else if ch == '[' {
        Some(TokenModel::OpenSquare)
    } else if ch == ']' {
        Some(TokenModel::CloseSquare)
    } else if ch == '|' {
        Some(TokenModel::VerticalBar)
    } else if ch == '.' {
        Some(TokenModel::Period)
    } else if ch == ',' {
        Some(TokenModel::Comma)
    } else {
        None
    }
}

/// The first token at or after `pos`, and the position after it; nothing
/// where only whitespace and comments are left.
///
/// Whitespace is skipped. A `%` starts a comment that runs to the end of the
/// line. A word character starts a word, which runs as far as word
/// characters go. A punctuation character is a token by itself. Any other
/// character starts an operator, which runs as far as operator characters
/// go: `:-` is the horn, any other operator a word.
pub open spec fn next_token_spec(s: Seq<char>, pos: nat) -> Option<(TokenModel, nat)>
    decreases s.len() - pos,
{
    let start = run_end(s, pos, CharClass::Whitespace);
    if start >= s.len() {
        None
    } else {
        let ch = s[start as int];
        if ch == '%' {
            let after = run_end(s, start + 1, CharClass::Comment);
            if pos < after <= s.len() {
                next_token_spec(s, after)
            } else {
                None
            }
        } else if is_word_spec(ch) {
            let end = run_end(s, start + 1, CharClass::Word);
            Some((TokenModel::Word(s.subrange(start as int, end as int)), end))
        } else if punctuation(ch) is Some {
            Some((punctuation(ch).unwrap(), start + 1))
        } else {
            let end = run_end(s, start + 1, CharClass::Operator);
            let text = s.subrange(start as int, end as int);
            if text == seq![':', '-'] {
                Some((TokenModel::Horn, end))
            } else {
                Some((TokenModel::Word(text), end))
            }
        }
    }
}

/// All tokens from `pos` on, in order.
pub open spec fn tokens_spec(s: Seq<char>, pos: nat) -> Seq<TokenModel>
    decreases s.len() - pos,
{
    match next_token_spec(s, pos) {
        Some((token, after)) => if pos < after <= s.len() {
            seq![token] + tokens_spec(s, after)
        } else {
            seq![token]
        },
        None => Seq::empty(),
    }
}

/// A run ends at or after its start, and within the text.
pub proof fn lemma_run_end(s: Seq<char>, pos: nat, class: CharClass)
    requires
        pos <= s.len(),
    ensures
        pos <= run_end(s, pos, class) <= s.len(),
    decreases s.len() - pos,
{
    if pos < s.len() && in_class(class, s[pos as int]) {
        lemma_run_end(s, pos + 1, class);
    }
}

/// A token ends after the position it was looked for at, and within the
/// text.
pub proof fn lemma_next_token(s: Seq<char>, pos: nat)
    requires
        pos <= s.len(),
    ensures
        match next_token_spec(s, pos) {
            Some((_, after)) => pos < after <= s.len(),
            None => true,
        },
    decreases s.len() - pos,
{
    let start = run_end(s, pos, CharClass::Whitespace);
    lemma_run_end(s, pos, CharClass::Whitespace);
    if start < s.len() {
        let ch = s[start as int];
        if ch == '%' {
            let after = run_end(s, start + 1, CharClass::Comment);
            lemma_run_end(s, start + 1, CharClass::Comment);
            lemma_next_token(s, after);
        } else if is_word_spec(ch) {
            lemma_run_end(s, start + 1, CharClass::Word);
        } else if punctuation(ch) is Some {
        } else {
            lemma_run_end(s, start + 1, CharClass::Operator);
        }
    }
}

/// Whether a character separates tokens.
pub fn is_whitespace(ch: char) -> (r: bool)
    ensures
        r == is_whitespace_spec(ch),
{
    ch == ' ' || ch == '\n' || ch == '\t'
}

/// Whether a character is part of a word.
pub fn is_word(ch: char) -> (r: bool)
    ensures
        r == is_word_spec(ch),
{
    ('a' <= ch && ch <= 'z') || ('A' <= ch && ch <= 'Z') || ('0' <= ch && ch <= '9') || ch == '_'
}

/// Whether a character is part of an operator.
pub fn is_operator(ch: char) -> (r: bool)
    ensures
        r == is_operator_spec(ch),
{
    ch == ';' || ch == ':' || ch == '=' || ch == '>' || ch == '<' || ch == '+' || ch == '-' || ch
        == '*' || ch == '\\' || ch == '/' || ch == '!' || ch == '#' || ch == '$' || ch == '?' || ch
        == '@' || ch == '^'
}

/// Whether a character belongs to a class.
fn belongs(class: CharClass, ch: char) -> (r: bool)
    ensures
        r == in_class(class, ch),
{
    match class {
        CharClass::Whitespace => is_whitespace(ch),
        CharClass::Word => is_word(ch),
        CharClass::Operator => is_operator(ch),
        CharClass::Comment => ch != '\n',
    }
}

/// A lexer over the characters of a source text.
pub struct Lexer {
    chars: Vec<char>,
    pos: usize,
}

impl Lexer {
    #[verifier::type_invariant]
    spec fn well_formed(self) -> bool {
        self.pos <= self.chars@.len()
    }

    /// The characters of the source text.
    pub closed spec fn source(&self) -> Seq<char> {
        self.chars@
    }

    /// The position of the next character to read.
    pub closed spec fn position(&self) -> nat {
        self.pos as nat
    }

    /// A lexer at the start of a source text.
    pub fn new(input: &str) -> (r: Self)
        ensures
            r.source() == input@,
            r.position() == 0,
    {
        Lexer { chars: chars_of(input), pos: 0 }
    }

    /// The next token, or nothing at the end of the text.
    pub fn get_token(&mut self) -> (r: Option<Token>)
        ensures
            final(self).source() == old(self).source(),
            old(self).position() <= final(self).position() <= old(self).source().len(),
            match next_token_spec(old(self).source(), old(self).position()) {
                Some((token, after)) => r is Some && r.unwrap()@ == token && final(self).position()
                    == after,
                None => r is None,
            },
    {
        proof {
            use_type_invariant(&*self);
        }
        let ghost s = self.chars@;
        let ghost origin = self.pos as nat;
        let mut at: usize = self.pos;
        loop
            invariant
                s == self.chars@,
                s == old(self).source(),
                origin == old(self).position(),
                origin <= at <= s.len(),
                self.pos <= s.len(),
                next_token_spec(s, origin) == next_token_spec(s, at as nat),
            decreases s.len() - at,
        {
            let start = scan_run(&self.chars, at, CharClass::Whitespace);
            if start >= self.chars.len() {
                self.pos = start;
                return None;
            }
            let ch = self.chars[start];
            if ch == '%' {
                let after = scan_run(&self.chars, start + 1, CharClass::Comment);
                at = after;
            } else if is_word(ch) {
                let end = scan_run(&self.chars, start + 1, CharClass::Word);
                self.pos = end;
                return Some(Token::Word(text_of(&self.chars, start, end)));
            } else if ch == '(' {
                self.pos = start + 1;
                return Some(Token::OpenBracket);
            } else if ch == ')' {
                self.pos = start + 1;
                return Some(Token::CloseBracket);
            } else if ch == '[' {
                self.pos = start + 1;
                return Some(Token::OpenSquare);
            } else if ch == ']' {
                self.pos = start + 1;
                return Some(Token::CloseSquare);
            } else if ch == '|' {
                self.pos = start + 1;
                return Some(Token::VerticalBar);
            } else if ch == '.' {
                self.pos = start + 1;
                return Some(Token::Period);
            } else if ch == ',' {
                self.pos = start + 1;
                return Some(Token::Comma);
            } else {
                let end = scan_run(&self.chars, start + 1, CharClass::Operator);
                self.pos = end;
                let is_horn = end - start == 2 && self.chars[start] == ':' && self.chars[start + 1]
                    == '-';
                proof {
                    let text = s.subrange(start as int, end as int);
                    if is_horn {
                        assert(text =~= seq![':', '-']);
                    } else if text == seq![':', '-'] {
                        assert(text.len() == 2);
                        assert(text[0] == ':');
                        assert(text[1] == '-');
                    }
                }
                if is_horn {
                    return Some(Token::Horn);
                }
                return Some(Token::Word(text_of(&self.chars, start, end)));
            }
        }
    }
}

/// The end of the longest run of characters of one class that starts at
/// `pos`.
fn scan_run(chars: &Vec<char>, pos: usize, class: CharClass) -> (r: usize)
    requires
        pos <= chars@.len(),
    ensures
        r == run_end(chars@, pos as nat, class),
        pos <= r <= chars@.len(),
{
    let mut at: usize = pos;
    while at < chars.len() && belongs(class, chars[at])
        invariant
            pos <= at <= chars@.len(),
            run_end(chars@, pos as nat, class) == run_end(chars@, at as nat, class),
        decreases chars@.len() - at,
    {
        at = at + 1;
    }
    at
}

/// The characters between two positions, as a text.
fn text_of(chars: &Vec<char>, from: usize, to: usize) -> (r: String)
    requires
        from <= to <= chars@.len(),
    ensures
        r@ == chars@.subrange(from as int, to as int),
{
    let mut out = String::new();
    let mut i: usize = from;
    while i < to
        invariant
            from <= i <= to,
            to <= chars@.len(),
            out@ == chars@.subrange(from as int, i as int),
        decreases to - i,
    {
        out.push(chars[i]);
        assert(out@ =~= chars@.subrange(from as int, i + 1));
        i = i + 1;
    }
    out
}

/// The models of a sequence of tokens, in order.
pub open spec fn token_models(tokens: Seq<Token>) -> Seq<TokenModel> {
    Seq::new(tokens.len(), |i: int| tokens[i]@)
}

/// All tokens of a source text, in order.
pub fn tokenize(text: &str) -> (r: Vec<Token>)
    ensures
        token_models(r@) == tokens_spec(text@, 0),
{
    let mut lexer = Lexer::new(text);
    let mut tokens: Vec<Token> = Vec::new();
    let ghost s = text@;
    loop
        invariant
            lexer.source() == s,
            s == text@,
            lexer.position() <= s.len(),
            tokens_spec(s, 0) == token_models(tokens@) + tokens_spec(s, lexer.position()),
        decreases s.len() - lexer.position(),
    {
        let ghost before = lexer.position();
        let ghost so_far = token_models(tokens@);
        proof {
            lemma_next_token(s, before);
        }
        match lexer.get_token() {
            Some(token) => {
                tokens.push(token);
                assert(token_models(tokens@) =~= so_far + seq![token@]);
                assert(tokens_spec(s, 0) =~= token_models(tokens@) + tokens_spec(
                    s,
                    lexer.position(),
                ));
            },
            None => {
                assert(tokens_spec(s, 0) =~= token_models(tokens@));
                return tokens;
            },
        }
    }
}

} // verus!
