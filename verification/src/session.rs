//! One line of a session: a definition to record, or a term to reduce and
//! print.

use vstd::prelude::*;
use crate::environment::Environment;
use crate::lambda::Term;
use crate::parsing::grammar::{parse_spec, statement, Statement};
use crate::parsing::{define, parse_range, MissingDefinition};
use crate::printing::print;
use crate::reduction::{normal_form, normalizes};
use crate::tokens::{lex, lexemes, tokenize};

verus! {

/// What a line of input comes to.
#[derive(Debug, PartialEq, Eq)]
pub enum Outcome {
    /// The line was a definition and its name is bound now.
    Defined,
    /// The line was a term; this is the text of its normal form.
    Value(String),
    /// The line stands for nothing, and there is nothing to show.
    Nothing,
    /// The line had the form of a definition without a term to bind.
    Invalid(MissingDefinition),
}

/// Whether the line can be evaluated: where it is no definition and stands
/// for a term, the reduction of that term comes to an end.
pub open spec fn evaluates(line: Seq<char>, env: Map<Seq<char>, Term>) -> bool {
    statement(lex(line), env) is Expression ==> match parse_spec(lex(line), env) {
        Some(term) => normalizes(term),
        None => true,
    }
}

/// Processes one line of input against the definitions of the session.
///
/// The line is first read as a definition.  Where it is one, the name is
/// bound and nothing is shown; where its right-hand side stands for no term,
/// the definitions stay as they were and the error names the definition.  Any
/// other line is parsed with the definitions in force, reduced to normal
/// form and printed; a line that stands for no term gives nothing.
pub fn run(input: &str, env: &mut Environment) -> (outcome: Outcome)
    requires
        evaluates(input@, old(env)@),
    ensures
        match statement(lex(input@), old(env)@) {
            Statement::Binding(name, term) => {
                &&& outcome is Defined
                &&& final(env)@ == old(env)@.insert(name, term)
            },
            Statement::Missing(name) => {
                &&& outcome matches Outcome::Invalid(error)
                &&& error.name@ == name
                &&& final(env)@ == old(env)@
            },
            Statement::Expression => {
                &&& final(env)@ == old(env)@
                &&& match parse_spec(lex(input@), old(env)@) {
                    Some(term) => {
                        &&& outcome matches Outcome::Value(text)
                        &&& text@ == print(normal_form(term))
                    },
                    None => outcome is Nothing,
                }
            },
        },
{
    let tokens = tokenize(input);
    match define(&tokens, env) {
        Ok(true) => Outcome::Defined,
        Err(error) => Outcome::Invalid(error),
        Ok(false) => {
            assert(lexemes(tokens@).subrange(0, tokens.len() as int) == lexemes(tokens@));
            match parse_range(&tokens, 0, tokens.len(), Some(&*env)) {
                Some(lambda) => Outcome::Value(lambda.reduce().to_string()),
                None => Outcome::Nothing,
            }
        },
    }
}

} // verus!
