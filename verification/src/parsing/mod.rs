//! The parser: from tokens to terms and to definitions.

pub mod grammar;

use vstd::prelude::*;
use crate::environment::Environment;
use crate::lambda::{names, terms, Lambda, Term};
use crate::parsing::grammar::{
    after,
    dot_index,
    group_len,
    juxtapose,
    parse_from,
    parse_spec,
    statement,
    var_names,
    variables,
    Statement,
};
use crate::tokens::{lex, lexemes, tokenize, Lexeme, Token};

verus! {

/// The term of a tree that may be absent.
pub open spec fn term_of(lambda: Option<Lambda>) -> Option<Term> {
    match lambda {
        Some(lambda) => Some(lambda@),
        None => None,
    }
}

/// The definitions in force: those of the environment, or none without one.
pub open spec fn definitions(env: Option<&Environment>) -> Map<Seq<char>, Term> {
    match env {
        Some(env) => env@,
        None => Map::empty(),
    }
}

/// A definition whose right-hand side stands for no term.
#[derive(Debug, PartialEq, Eq)]
pub struct MissingDefinition {
    /// The name that was to be bound.
    pub name: String,
}

impl MissingDefinition {
    /// The text that reports the error: `Missing definition for `, then the
    /// name.
    pub fn message(&self) -> (text: String)
        ensures
            text@ == "Missing definition for "@ + self.name@,
    {
        let mut text = "Missing definition for ".to_owned();
        text.append(self.name.as_str());
        text
    }
}

/// What reading a line as a statement comes to: a binding is recorded and
/// reported as `Ok(true)`; a line that is no definition changes nothing and
/// is reported as `Ok(false)`; a definition without a term changes nothing
/// and is reported as the error that names it.
pub open spec fn recorded(
    line: Statement,
    before: Map<Seq<char>, Term>,
    outcome: Result<bool, MissingDefinition>,
    after: Map<Seq<char>, Term>,
) -> bool {
    match line {
        Statement::Expression => outcome == Ok::<bool, MissingDefinition>(false) && after == before,
        Statement::Binding(name, term) => outcome == Ok::<bool, MissingDefinition>(true) && after
            == before.insert(name, term),
        Statement::Missing(name) => outcome is Err && outcome->Err_0.name@ == name && after
            == before,
    }
}

/// The index of the parenthesis that closes the group whose tokens start at
/// `start`, or `end` where none closes it before `end`.
fn group_end(tokens: &Vec<Token>, start: usize, end: usize) -> (close: usize)
    requires
        1 <= start <= end <= tokens.len(),
    ensures
        start <= close <= end,
        close - start == group_len(lexemes(tokens@).subrange(start as int, end as int), 1),
{
    let ghost ts = lexemes(tokens@);
    let mut j: usize = start;
    let mut depth: usize = 1;
    while j < end
        invariant
            1 <= start <= j <= end <= tokens.len(),
            ts == lexemes(tokens@),
            1 <= depth <= j - start + 1,
            (j - start) + group_len(ts.subrange(j as int, end as int), depth as nat) == group_len(
                ts.subrange(start as int, end as int),
                1,
            ),
        decreases end - j,
    {
        assert(ts.subrange(j as int, end as int).skip(1) == ts.subrange(j + 1, end as int));
        match &tokens[j] {
            Token::LParen => {
                depth = depth + 1;
            },
            Token::RParen => {
                if depth == 1 {
                    return j;
                }
                depth = depth - 1;
            },
            _ => {},
        }
        j = j + 1;
    }
    j
}

/// The index of the first dot from `start` on, or `end` where there is none
/// before `end`.
fn dot_position(tokens: &Vec<Token>, start: usize, end: usize) -> (dot: usize)
    requires
        start <= end <= tokens.len(),
    ensures
        start <= dot <= end,
        dot - start == dot_index(lexemes(tokens@).subrange(start as int, end as int)),
{
    let ghost ts = lexemes(tokens@);
    let mut j: usize = start;
    while j < end
        invariant
            start <= j <= end <= tokens.len(),
            ts == lexemes(tokens@),
            (j - start) + dot_index(ts.subrange(j as int, end as int)) == dot_index(
                ts.subrange(start as int, end as int),
            ),
        decreases end - j,
    {
        assert(ts.subrange(j as int, end as int).skip(1) == ts.subrange(j + 1, end as int));
        match &tokens[j] {
            Token::Dot => {
                return j;
            },
            _ => {},
        }
        j = j + 1;
    }
    j
}

/// The identifiers among the tokens from `start` up to `end`, in order.
fn names_between(tokens: &Vec<Token>, start: usize, end: usize) -> (found: Vec<&str>)
    requires
        start <= end <= tokens.len(),
    ensures
        names(found@) == var_names(lexemes(tokens@).subrange(start as int, end as int)),
{
    let ghost ts = lexemes(tokens@);
    let mut found: Vec<&str> = Vec::new();
    let mut j: usize = start;
    while j < end
        invariant
            start <= j <= end <= tokens.len(),
            ts == lexemes(tokens@),
            names(found@) == var_names(ts.subrange(start as int, j as int)),
        decreases end - j,
    {
        assert(ts.subrange(start as int, j + 1).drop_last() == ts.subrange(start as int, j as int));
        match &tokens[j] {
            Token::Var(name) => {
                found.push(name.as_str());
            },
            _ => {},
        }
        j = j + 1;
    }
    found
}

/// Parses the tokens from `start` up to `end`.
pub(crate) fn parse_range(
    tokens: &Vec<Token>,
    start: usize,
    end: usize,
    env: Option<&Environment>,
) -> (parsed: Option<Lambda>)
    requires
        start <= end <= tokens.len(),
    ensures
        term_of(parsed) == parse_spec(
            lexemes(tokens@).subrange(start as int, end as int),
            definitions(env),
        ),
    decreases end - start,
{
    let ghost ts = lexemes(tokens@);
    let ghost defs = definitions(env);
    let mut read: Option<Lambda> = None;
    let mut i: usize = start;
    while i < end
        invariant
            start <= i <= end <= tokens.len(),
            ts == lexemes(tokens@),
            defs == definitions(env),
            parse_from(ts.subrange(i as int, end as int), defs, term_of(read)) == parse_spec(
                ts.subrange(start as int, end as int),
                defs,
            ),
        decreases end - i,
    {
        let ghost rest = ts.subrange(i + 1, end as int);
        assert(ts.subrange(i as int, end as int).skip(1) == rest);
        match &tokens[i] {
            Token::Var(name) => {
                let bound = match env {
                    Some(env) => env.get(name.as_str()),
                    None => None,
                };
                let item = match bound {
                    Some(value) => value.clone(),
                    None => Lambda::Variable(name.clone()),
                };
                read = Some(extend(read, item));
                i = i + 1;
            },
            Token::LParen => {
                let close = group_end(tokens, i + 1, end);
                let next: usize = if close < end {
                    close + 1
                } else {
                    end
                };
                proof {
                    assert(rest.take(close - (i + 1)) == ts.subrange(i + 1, close as int));
                    assert(after(rest, (close - (i + 1)) as nat) == ts.subrange(
                        next as int,
                        end as int,
                    ));
                }
                match parse_range(tokens, i + 1, close, env) {
                    Some(group) => {
                        read = Some(extend(read, group));
                        i = next;
                    },
                    None => {
                        return None;
                    },
                }
            },
            Token::Lambda => {
                let dot = dot_position(tokens, i + 1, end);
                let params = names_between(tokens, i + 1, dot);
                assert(rest.take(dot - (i + 1)) == ts.subrange(i + 1, dot as int));
                if dot == end {
                    assert(parse_from(Seq::<Lexeme>::empty(), defs, None) is None);
                    return None;
                }
                assert(after(rest, (dot - (i + 1)) as nat) == ts.subrange(dot + 1, end as int));
                if params.len() == 0 {
                    return None;
                }
                return match parse_range(tokens, dot + 1, end, env) {
                    Some(body) => Some(Lambda::function(params, body)),
                    None => None,
                };
            },
            _ => {
                i = i + 1;
            },
        }
    }
    read
}

/// The tree read so far, extended by the next item.
fn extend(read: Option<Lambda>, item: Lambda) -> (lambda: Lambda)
    ensures
        lambda@ == juxtapose(term_of(read), item@),
{
    match read {
        Some(function) => Lambda::Application(Box::new(function), Box::new(item)),
        None => item,
    }
}

/// Reads `tokens` as a definition and, where it is one, binds the name in
/// `env`.
pub(crate) fn define(tokens: &Vec<Token>, env: &mut Environment) -> (outcome: Result<
    bool,
    MissingDefinition,
>)
    ensures
        recorded(statement(lexemes(tokens@), old(env)@), old(env)@, outcome, final(env)@),
{
    if tokens.len() < 2 {
        return Ok(false);
    }
    match (&tokens[0], &tokens[1]) {
        (Token::Var(name), Token::Define) => {
            match parse_range(tokens, 2, tokens.len(), Some(&*env)) {
                Some(value) => {
                    env.insert(name.clone(), value);
                    Ok(true)
                },
                None => Err(MissingDefinition { name: name.clone() }),
            }
        },
        _ => Ok(false),
    }
}

impl Lambda {
    /// The variables named by the identifiers among `tokens`, in order.
    pub fn parse_variables(tokens: Vec<Token>) -> (vars: Vec<Lambda>)
        ensures
            terms(vars@) == variables(lexemes(tokens@)),
    {
        let ghost ts = lexemes(tokens@);
        let mut vars: Vec<Lambda> = Vec::new();
        for token in iter: tokens
            invariant
                iter.seq() == tokens@,
                ts == lexemes(tokens@),
                terms(vars@) == variables(ts.take(iter.index() as int)),
        {
            assert(ts.take(iter.index() + 1).drop_last() == ts.take(iter.index() as int));
            let ghost before = terms(vars@);
            match token {
                Token::Var(name) => {
                    vars.push(Lambda::Variable(name));
                    assert(terms(vars@) == before.push(Term::Var(name@)));
                },
                _ => {},
            }
        }
        assert(ts.take(ts.len() as int) == ts);
        vars
    }

    /// Parses `tokens` into a term, with the definitions of `env` in force.
    ///
    /// Identifiers that `env` binds are replaced by a copy of the term bound
    /// to them.  The result is `None` where the tokens stand for no term.
    pub fn parse_tokens(tokens: Vec<Token>, env: Option<&Environment>) -> (parsed: Option<Lambda>)
        ensures
            term_of(parsed) == parse_spec(lexemes(tokens@), definitions(env)),
    {
        assert(lexemes(tokens@).subrange(0, tokens.len() as int) == lexemes(tokens@));
        parse_range(&tokens, 0, tokens.len(), env)
    }

    /// Reads `tokens` as a definition and, where it is one, binds the name
    /// in `env`.
    ///
    /// Returns `Ok(true)` where a name was bound and `Ok(false)` where the
    /// tokens are no definition.  Where they have the form of a definition
    /// whose right-hand side stands for no term, the error names the
    /// definition and `env` is left as it was.
    pub fn parse_definition(tokens: Vec<Token>, env: &mut Environment) -> (outcome: Result<
        bool,
        MissingDefinition,
    >)
        ensures
            recorded(statement(lexemes(tokens@), old(env)@), old(env)@, outcome, final(env)@),
    {
        define(&tokens, env)
    }

    /// Parses a line of text into a term, with no definitions in force.
    pub fn from_string(text: &str) -> (parsed: Option<Lambda>)
        ensures
            term_of(parsed) == parse_spec(lex(text@), Map::empty()),
    {
        Lambda::parse_tokens(tokenize(text), None)
    }
}

/// The variables named by the identifiers among `tokens`, in order.
pub fn parse_variables(tokens: Vec<Token>) -> (vars: Vec<Lambda>)
    ensures
        terms(vars@) == variables(lexemes(tokens@)),
{
    Lambda::parse_variables(tokens)
}

/// Parses tokens that stand for a term, with no definitions in force.
pub fn parse(tokens: Vec<Token>) -> (lambda: Lambda)
    requires
        parse_spec(lexemes(tokens@), Map::empty()) is Some,
    ensures
        Some(lambda@) == parse_spec(lexemes(tokens@), Map::empty()),
{
    Lambda::parse_tokens(tokens, None).unwrap()
}

} // verus!
