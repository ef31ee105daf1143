//! Tokens of the surface syntax and the tokenizer that produces them.

use std::str::Chars;
use vstd::prelude::*;
use vstd::std_specs::iter::IteratorSpec;

verus! {

/// One lexical unit of the surface syntax.
#[derive(Debug, PartialEq, Eq)]
pub enum Token {
    /// `(`
    LParen,
    /// `)`
    RParen,
    /// `\`, the binder symbol
    Lambda,
    /// `.`
    Dot,
    /// An identifier.
    Var(String),
    /// `:=`
    Define,
}

/// The mathematical value of a [`Token`]: the same tag, with the identifier
/// as a sequence of characters.
pub enum Lexeme {
    LParen,
    RParen,
    Lambda,
    Dot,
    Var(Seq<char>),
    Define,
}

impl View for Token {
    type V = Lexeme;

    open spec fn view(&self) -> Lexeme {
        match self {
            Token::LParen => Lexeme::LParen,
            Token::RParen => Lexeme::RParen,
            Token::Lambda => Lexeme::Lambda,
            Token::Dot => Lexeme::Dot,
            Token::Var(name) => Lexeme::Var(name@),
            Token::Define => Lexeme::Define,
        }
    }
}

impl Clone for Token {
    fn clone(&self) -> (copy: Self)
        ensures
            copy@ == self@,
    {
        match self {
            Token::LParen => Token::LParen,
            Token::RParen => Token::RParen,
            Token::Lambda => Token::Lambda,
            Token::Dot => Token::Dot,
            Token::Var(name) => Token::Var(name.clone()),
            Token::Define => Token::Define,
        }
    }
}

/// The lexemes of a sequence of tokens, in order.
pub open spec fn lexemes(tokens: Seq<Token>) -> Seq<Lexeme> {
    Seq::new(tokens.len(), |i: int| tokens[i]@)
}

/// The characters that separate tokens and produce none: the code points
/// with the Unicode property `White_Space`.
pub open spec fn is_whitespace(c: char) -> bool {
    let n = c as u32;
    ||| 0x09 <= n <= 0x0D
    ||| n == 0x20
    ||| n == 0x85
    ||| n == 0xA0
    ||| n == 0x1680
    ||| 0x2000 <= n <= 0x200A
    ||| n == 0x2028
    ||| n == 0x2029
    ||| n == 0x202F
    ||| n == 0x205F
    ||| n == 0x3000
}

/// The characters that end an identifier besides whitespace.
pub open spec fn is_reserved(c: char) -> bool {
    c == '(' || c == ')' || c == '\\' || c == '.' || c == ':'
}

/// The characters an identifier is made of.
pub open spec fn is_name_char(c: char) -> bool {
    !is_reserved(c) && !is_whitespace(c)
}

/// A non-empty run of identifier characters.
pub open spec fn is_name(s: Seq<char>) -> bool {
    s.len() > 0 && forall|i: int| 0 <= i < s.len() ==> is_name_char(#[trigger] s[i])
}

/// The length of the longest prefix of `s` that consists of identifier
/// characters.
pub open spec fn name_len(s: Seq<char>) -> nat
    decreases s.len(),
{
    if s.len() > 0 && is_name_char(s[0]) {
        1 + name_len(s.skip(1))
    } else {
        0
    }
}

/// The longest identifier prefix lies within the text and consists of
/// identifier characters.
pub proof fn lemma_name_len_bound(s: Seq<char>)
    ensures
        name_len(s) <= s.len(),
        forall|i: int| 0 <= i < name_len(s) ==> is_name_char(#[trigger] s[i]),
    decreases s.len(),
{
    if s.len() > 0 && is_name_char(s[0]) {
        lemma_name_len_bound(s.skip(1));
        assert forall|i: int| 0 <= i < name_len(s) implies is_name_char(#[trigger] s[i]) by {
            if i > 0 {
                assert(s[i] == s.skip(1)[i - 1]);
            }
        }
    }
}

/// The token sequence that a line of text stands for.
///
/// The text is read left to right.  Each of `(`, `)`, `.` and `\` is a token
/// of its own; `:=` is the definition marker and a `:` that no `=` follows
/// stands for nothing; whitespace separates and stands for nothing; any other
/// character starts an identifier, which extends as far as identifier
/// characters follow.
pub open spec fn lex(s: Seq<char>) -> Seq<Lexeme>
    decreases s.len(),
{
    if s.len() == 0 {
        Seq::empty()
    } else if s[0] == '(' {
        seq![Lexeme::LParen] + lex(s.skip(1))
    } else if s[0] == ')' {
        seq![Lexeme::RParen] + lex(s.skip(1))
    } else if s[0] == '.' {
        seq![Lexeme::Dot] + lex(s.skip(1))
    } else if s[0] == '\\' {
        seq![Lexeme::Lambda] + lex(s.skip(1))
    } else if s[0] == ':' {
        if s.len() >= 2 && s[1] == '=' {
            seq![Lexeme::Define] + lex(s.skip(2))
        } else {
            lex(s.skip(1))
        }
    } else if is_whitespace(s[0]) {
        lex(s.skip(1))
    } else {
        proof {
            lemma_name_len_bound(s);
        }
        seq![Lexeme::Var(s.take(name_len(s) as int))] + lex(s.skip(name_len(s) as int))
    }
}

/// Whether `c` separates tokens without being one.
pub fn whitespace(c: char) -> (b: bool)
    ensures
        b == is_whitespace(c),
{
    let n: u32 = c as u32;
    (0x09 <= n && n <= 0x0D) || n == 0x20 || n == 0x85 || n == 0xA0 || n == 0x1680 || (0x2000 <= n
        && n <= 0x200A) || n == 0x2028 || n == 0x2029 || n == 0x202F || n == 0x205F || n == 0x3000
}

/// The text that is still to be read: the character looked at, if there is
/// one, and what the iterator has left behind it.
spec fn unread(next: Option<char>, behind: Seq<char>) -> Seq<char> {
    match next {
        Some(c) => seq![c] + behind,
        None => Seq::empty(),
    }
}

/// Looks at the character after the one looked at, which is thereby read.
fn advance(chars: &mut Chars<'_>, Ghost(next): Ghost<Option<char>>) -> (after: Option<char>)
    requires
        next is Some,
    ensures
        unread(after, (*final(chars)).remaining()) == unread(next, (*old(chars)).remaining()).skip(
            1,
        ),
{
    broadcast use vstd::string::group_string_axioms;

    let after = chars.next();
    assert(old(chars).remaining().len() > 0 ==> old(chars).remaining() == seq![
        old(chars).remaining()[0],
    ] + old(chars).remaining().drop_first());
    after
}

/// Splits a line of text into its tokens.  Every text has a token sequence;
/// none is refused.
pub fn tokenize(input: &str) -> (tokens: Vec<Token>)
    ensures
        lexemes(tokens@) == lex(input@),
{
    broadcast use vstd::string::group_string_axioms;

    let mut tokens: Vec<Token> = Vec::new();
    let mut chars = input.chars();
    let mut next = chars.next();
    let ghost mut rest = input@;
    loop
        invariant
            rest == unread(next, chars.remaining()),
            lexemes(tokens@) + lex(rest) == lex(input@),
        decreases rest.len(),
    {
        let ghost line = rest;
        match next {
            None => {
                return tokens;
            },
            Some(c) => {
                next = advance(&mut chars, Ghost(next));
                proof {
                    rest = rest.skip(1);
                }
                if c == '(' {
                    tokens.push(Token::LParen);
                } else if c == ')' {
                    tokens.push(Token::RParen);
                } else if c == '.' {
                    tokens.push(Token::Dot);
                } else if c == '\\' {
                    tokens.push(Token::Lambda);
                } else if c == ':' {
                    if next == Some('=') {
                        next = advance(&mut chars, Ghost(next));
                        proof {
                            rest = rest.skip(1);
                            assert(rest == line.skip(2));
                        }
                        tokens.push(Token::Define);
                    }
                } else if whitespace(c) {
                } else {
                    let mut name = String::new();
                    name.push(c);
                    loop
                        invariant_except_break
                            rest == unread(next, chars.remaining()),
                            name@.len() >= 1,
                            name@ + rest == line,
                            name@.len() + name_len(rest) == name_len(line),
                        ensures
                            rest == unread(next, chars.remaining()),
                            name@.len() >= 1,
                            name@ + rest == line,
                            name@.len() == name_len(line),
                        decreases rest.len(),
                    {
                        match next {
                            Some(d) => {
                                if d == '(' || d == ')' || d == '\\' || d == '.' || d == ':'
                                    || whitespace(d) {
                                    break ;
                                }
                                name.push(d);
                                next = advance(&mut chars, Ghost(next));
                                proof {
                                    rest = rest.skip(1);
                                }
                            },
                            None => {
                                break ;
                            },
                        }
                    }
                    proof {
                        assert(line.take(name@.len() as int) == name@);
                        assert(line.skip(name@.len() as int) == rest);
                    }
                    tokens.push(Token::Var(name));
                }
            },
        }
    }
}

} // verus!
