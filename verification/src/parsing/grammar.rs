//! What a token sequence means: the grammar of terms and of definitions,
//! stated on lexemes.

use vstd::prelude::*;
use crate::lambda::{curry, Term};
use crate::tokens::Lexeme;

verus! {

/// What an identifier stands for: the term it is bound to, if it is bound,
/// and else the variable of that name.
pub open spec fn resolve(env: Map<Seq<char>, Term>, name: Seq<char>) -> Term {
    if env.contains_key(name) {
        env[name]
    } else {
        Term::Var(name)
    }
}

/// The term read so far, extended by the next item: juxtaposition is
/// application and nests to the left.
pub open spec fn juxtapose(read: Option<Term>, item: Term) -> Term {
    match read {
        Some(function) => Term::App(Box::new(function), Box::new(item)),
        None => item,
    }
}

/// The number of tokens of `ts` that stand before the parenthesis that
/// closes the group, where `ts` follows an opening parenthesis and `depth`
/// groups are open.  Where nothing closes the group it is all of `ts`.
pub open spec fn group_len(ts: Seq<Lexeme>, depth: nat) -> nat
    decreases ts.len(),
{
    if ts.len() == 0 {
        0
    } else {
        match ts[0] {
            Lexeme::LParen => 1 + group_len(ts.skip(1), depth + 1),
            Lexeme::RParen => if depth <= 1 {
                0
            } else {
                1 + group_len(ts.skip(1), (depth - 1) as nat)
            },
            _ => 1 + group_len(ts.skip(1), depth),
        }
    }
}

/// The number of tokens of `ts` that stand before its first dot.  Where
/// there is no dot it is all of `ts`.
pub open spec fn dot_index(ts: Seq<Lexeme>) -> nat
    decreases ts.len(),
{
    if ts.len() == 0 || ts[0] is Dot {
        0
    } else {
        1 + dot_index(ts.skip(1))
    }
}

/// The identifiers among `ts`, in order; the other tokens are passed over.
pub open spec fn var_names(ts: Seq<Lexeme>) -> Seq<Seq<char>>
    decreases ts.len(),
{
    if ts.len() == 0 {
        Seq::empty()
    } else {
        match ts.last() {
            Lexeme::Var(name) => var_names(ts.drop_last()).push(name),
            _ => var_names(ts.drop_last()),
        }
    }
}

/// The variables named by the identifiers among `ts`, in order.
pub open spec fn variables(ts: Seq<Lexeme>) -> Seq<Term> {
    Seq::new(var_names(ts).len(), |i: int| Term::Var(var_names(ts)[i]))
}

/// What follows the token at index `n`; nothing where there is no such
/// token.
pub open spec fn after(ts: Seq<Lexeme>, n: nat) -> Seq<Lexeme> {
    if n < ts.len() {
        ts.skip((n + 1) as int)
    } else {
        Seq::empty()
    }
}

/// A group does not reach beyond the tokens.
pub proof fn lemma_group_len_bound(ts: Seq<Lexeme>, depth: nat)
    ensures
        group_len(ts, depth) <= ts.len(),
    decreases ts.len(),
{
    if ts.len() > 0 {
        lemma_group_len_bound(ts.skip(1), depth + 1);
        lemma_group_len_bound(ts.skip(1), depth);
        if depth > 1 {
            lemma_group_len_bound(ts.skip(1), (depth - 1) as nat);
        }
    }
}

/// The first dot is not beyond the tokens.
pub proof fn lemma_dot_index_bound(ts: Seq<Lexeme>)
    ensures
        dot_index(ts) <= ts.len(),
    decreases ts.len(),
{
    if ts.len() > 0 && !(ts[0] is Dot) {
        lemma_dot_index_bound(ts.skip(1));
    }
}

/// The term that `ts` stands for after the items that gave `read`, if it
/// stands for one.
///
/// The tokens are taken from the left.  An identifier is an item: what it
/// is bound to in `env`, or a variable.  An opening parenthesis starts a
/// group that reaches to the parenthesis closing it, or to the end where
/// none does; the group is an item, the term its tokens stand for, and
/// without such a term there is none for `ts` either.  A binder symbol takes
/// the identifiers before the next dot as parameters and all that follows
/// the dot as body; the term is the curried function over that body, the
/// items read before it are dropped, and without a parameter, a dot or a
/// body there is no term.  Any other token is passed over.  At the end the
/// term is what the items read amount to: each applied to the next, nested
/// to the left.
pub open spec fn parse_from(ts: Seq<Lexeme>, env: Map<Seq<char>, Term>, read: Option<Term>)
    -> Option<Term>
    decreases ts.len(),
{
    if ts.len() == 0 {
        read
    } else {
        let rest = ts.skip(1);
        match ts[0] {
            Lexeme::Var(name) => parse_from(rest, env, Some(juxtapose(read, resolve(env, name)))),
            Lexeme::LParen => {
                let n = group_len(rest, 1);
                proof {
                    lemma_group_len_bound(rest, 1);
                }
                match parse_from(rest.take(n as int), env, None) {
                    Some(group) => parse_from(after(rest, n), env, Some(juxtapose(read, group))),
                    None => None,
                }
            },
            Lexeme::Lambda => {
                let n = dot_index(rest);
                proof {
                    lemma_dot_index_bound(rest);
                }
                let params = var_names(rest.take(n as int));
                match parse_from(after(rest, n), env, None) {
                    Some(body) => if params.len() > 0 {
                        Some(curry(params, body))
                    } else {
                        None
                    },
                    None => None,
                }
            },
            _ => parse_from(rest, env, read),
        }
    }
}

/// The term that `ts` stands for, if it stands for one, with the
/// definitions of `env` in force.
pub open spec fn parse_spec(ts: Seq<Lexeme>, env: Map<Seq<char>, Term>) -> Option<Term> {
    parse_from(ts, env, None)
}

/// What a line of tokens says as a statement.
pub enum Statement {
    /// The line does not have the form of a definition.
    Expression,
    /// The line binds the name to the term.
    Binding(Seq<char>, Term),
    /// The line has the form of a definition of the name, and what follows
    /// the marker stands for no term.
    Missing(Seq<char>),
}

/// How `ts` reads as a statement: it is a definition where an identifier
/// comes first and the definition marker second, and then what follows the
/// marker is the term to bind, read with the definitions of `env` in force.
pub open spec fn statement(ts: Seq<Lexeme>, env: Map<Seq<char>, Term>) -> Statement {
    if ts.len() >= 2 && ts[0] is Var && ts[1] is Define {
        match parse_spec(ts.skip(2), env) {
            Some(term) => Statement::Binding(ts[0]->Var_0, term),
            None => Statement::Missing(ts[0]->Var_0),
        }
    } else {
        Statement::Expression
    }
}

} // verus!
