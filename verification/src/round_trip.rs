//! Printing and reading are inverse to each other: the text of a term, read
//! again with no definitions in force, is that term.

use vstd::prelude::*;
use crate::lambda::{curry, Term};
use crate::parsing::grammar::{
    after,
    dot_index,
    group_len,
    juxtapose,
    lemma_dot_index_bound,
    lemma_group_len_bound,
    parse_from,
    parse_spec,
    resolve,
    var_names,
};
use crate::printing::{operand, print};
use crate::tokens::{
    is_name,
    is_name_char,
    is_whitespace,
    lemma_name_len_bound,
    lex,
    name_len,
    Lexeme,
};

verus! {

/// Every name in the term, of a variable or of a parameter, is an
/// identifier of the surface syntax.
pub open spec fn well_named(term: Term) -> bool
    decreases term,
{
    match term {
        Term::Var(name) => is_name(name),
        Term::Fun(param, body) => is_name(param) && well_named(*body),
        Term::App(function, argument) => well_named(*function) && well_named(*argument),
    }
}

/// The tokens of a term as an operand of an application.
pub open spec fn spell_operand(term: Term, tokens: Seq<Lexeme>) -> Seq<Lexeme> {
    if term is Var {
        tokens
    } else {
        seq![Lexeme::LParen] + tokens + seq![Lexeme::RParen]
    }
}

/// The tokens that the text of a term consists of.
pub open spec fn spell(term: Term) -> Seq<Lexeme>
    decreases term,
{
    match term {
        Term::Var(name) => seq![Lexeme::Var(name)],
        Term::Fun(param, body) => seq![Lexeme::Lambda, Lexeme::Var(param), Lexeme::Dot] + spell(
            *body,
        ),
        Term::App(function, argument) => spell_operand(*function, spell(*function))
            + spell_operand(*argument, spell(*argument)),
    }
}

/// The tokens of a term close every group they open: in front of any
/// tokens, they add their own number to the length of the enclosing group.
proof fn lemma_group_len_spell(term: Term, tail: Seq<Lexeme>, depth: nat)
    requires
        depth >= 1,
    ensures
        group_len(spell(term) + tail, depth) == spell(term).len() + group_len(tail, depth),
    decreases term, 0int,
{
    match term {
        Term::Var(name) => {
            let ts = spell(term) + tail;
            assert(ts.skip(1) == tail);
        },
        Term::Fun(param, body) => {
            let ts = spell(term) + tail;
            let inner = spell(*body) + tail;
            assert(ts.skip(1).skip(1).skip(1) == inner);
            lemma_group_len_spell(*body, tail, depth);
            assert(group_len(ts.skip(1).skip(1), depth) == 1 + group_len(inner, depth));
            assert(group_len(ts.skip(1), depth) == 2 + group_len(inner, depth));
        },
        Term::App(function, argument) => {
            let second = spell_operand(*argument, spell(*argument));
            lemma_group_len_operand(*argument, tail, depth);
            lemma_group_len_operand(*function, second + tail, depth);
            assert(spell(term) + tail == spell_operand(*function, spell(*function)) + (second
                + tail));
        },
    }
}

/// The same of the tokens of a term as an operand.
proof fn lemma_group_len_operand(term: Term, tail: Seq<Lexeme>, depth: nat)
    requires
        depth >= 1,
    ensures
        group_len(spell_operand(term, spell(term)) + tail, depth) == spell_operand(
            term,
            spell(term),
        ).len() + group_len(tail, depth),
    decreases term, 1int,
{
    if term is Var {
        lemma_group_len_spell(term, tail, depth);
    } else {
        let ts = spell_operand(term, spell(term)) + tail;
        let closing = seq![Lexeme::RParen] + tail;
        assert(ts.skip(1) == spell(term) + closing);
        lemma_group_len_spell(term, closing, depth + 1);
        assert(closing.skip(1) == tail);
    }
}

/// Reading the tokens of a function gives the function, whatever was read
/// before it.
proof fn lemma_parse_function(
    param: Seq<char>,
    body: Seq<Lexeme>,
    env: Map<Seq<char>, Term>,
    read: Option<Term>,
)
    ensures
        parse_from(seq![Lexeme::Lambda, Lexeme::Var(param), Lexeme::Dot] + body, env, read)
            == match parse_from(body, env, None) {
            Some(term) => Some(Term::Fun(param, Box::new(term))),
            None => None,
        },
{
    let ts = seq![Lexeme::Lambda, Lexeme::Var(param), Lexeme::Dot] + body;
    let rest = ts.skip(1);
    assert(dot_index(rest.skip(1)) == 0);
    assert(after(rest, 1) == body);
    let head = rest.take(1);
    assert(var_names(head.drop_last()) == Seq::<Seq<char>>::empty());
    assert forall|term: Term| curry(seq![param], term) == Term::Fun(param, Box::new(term)) by {
        assert(curry(seq![param].skip(1), term) == term);
    }
}

/// Reading an operand adds its term to what was read, and goes on with what
/// follows.
proof fn lemma_parse_operand(term: Term, rest: Seq<Lexeme>, read: Option<Term>)
    requires
        parse_spec(spell(term), Map::empty()) == Some(term),
    ensures
        parse_from(spell_operand(term, spell(term)) + rest, Map::empty(), read) == parse_from(
            rest,
            Map::empty(),
            Some(juxtapose(read, term)),
        ),
{
    let env = Map::<Seq<char>, Term>::empty();
    let ts = spell_operand(term, spell(term)) + rest;
    match term {
        Term::Var(name) => {
            assert(ts.skip(1) == rest);
        },
        _ => {
            let inner = ts.skip(1);
            let closing = seq![Lexeme::RParen] + rest;
            assert(inner == spell(term) + closing);
            lemma_group_len_spell(term, closing, 1);
            let n = spell(term).len();
            assert(inner.take(n as int) == spell(term));
            assert(after(inner, n) == rest);
        },
    }
}

/// Reading the tokens of a term gives the term.
pub proof fn lemma_parse_spell(term: Term)
    ensures
        parse_spec(spell(term), Map::empty()) == Some(term),
    decreases term,
{
    let env = Map::<Seq<char>, Term>::empty();
    match term {
        Term::Var(name) => {
            let ts = spell(term);
            assert(parse_from(ts.skip(1), env, Some(term)) == Some(term));
        },
        Term::Fun(param, body) => {
            lemma_parse_spell(*body);
            lemma_parse_function(param, spell(*body), env, None);
        },
        Term::App(function, argument) => {
            lemma_parse_spell(*function);
            lemma_parse_spell(*argument);
            let second = spell_operand(*argument, spell(*argument));
            lemma_parse_operand(*function, second, None);
            lemma_parse_operand(*argument, Seq::empty(), Some(*function));
        },
    }
}

/// Whether an identifier that stands in front of `rest` ends there: nothing
/// follows, or what follows is no identifier character.
pub open spec fn ends_name(rest: Seq<char>) -> bool {
    rest.len() == 0 || !is_name_char(rest[0])
}

/// Identifier characters in front of a text add their number to the length
/// of the identifier that the text starts with.
proof fn lemma_name_len_prefix(name: Seq<char>, rest: Seq<char>)
    requires
        forall|i: int| 0 <= i < name.len() ==> is_name_char(#[trigger] name[i]),
    ensures
        name_len(name + rest) == name.len() + name_len(rest),
    decreases name.len(),
{
    if name.len() > 0 {
        assert((name + rest).skip(1) == name.skip(1) + rest);
        lemma_name_len_prefix(name.skip(1), rest);
    }
}

/// An identifier that ends where `rest` starts is one token.
proof fn lemma_lex_name(name: Seq<char>, rest: Seq<char>)
    requires
        is_name(name),
        ends_name(rest),
    ensures
        lex(name + rest) == seq![Lexeme::Var(name)] + lex(rest),
{
    let s = name + rest;
    lemma_name_len_prefix(name, rest);
    assert(s.take(name.len() as int) == name);
    assert(s.skip(name.len() as int) == rest);
}

/// The text of a well-named term, in front of a text that no identifier
/// runs into, is read as the tokens of the term.
proof fn lemma_lex_print(term: Term, rest: Seq<char>)
    requires
        well_named(term),
        ends_name(rest),
    ensures
        lex(print(term) + rest) == spell(term) + lex(rest),
    decreases term, 0int,
{
    match term {
        Term::Var(name) => {
            lemma_lex_name(name, rest);
        },
        Term::Fun(param, body) => {
            let s = print(term) + rest;
            let after_marker = param + (seq!['.'] + (print(*body) + rest));
            let after_param = seq!['.'] + (print(*body) + rest);
            assert(s.skip(1) == after_marker);
            lemma_lex_name(param, after_param);
            assert(after_param.skip(1) == print(*body) + rest);
            lemma_lex_print(*body, rest);
            assert(lex(s) == seq![Lexeme::Lambda] + (seq![Lexeme::Var(param)] + (seq![
                Lexeme::Dot,
            ] + (spell(*body) + lex(rest)))));
        },
        Term::App(function, argument) => {
            let s = print(term) + rest;
            let second = operand(*argument, print(*argument)) + rest;
            let spaced = seq![' '] + second;
            assert(s == operand(*function, print(*function)) + spaced);
            assert(spaced.skip(1) == second);
            lemma_lex_operand(*function, spaced);
            lemma_lex_operand(*argument, rest);
            assert(lex(s) == spell_operand(*function, spell(*function)) + (spell_operand(
                *argument,
                spell(*argument),
            ) + lex(rest)));
        },
    }
}

/// The same of the text of a term as an operand.
proof fn lemma_lex_operand(term: Term, rest: Seq<char>)
    requires
        well_named(term),
        ends_name(rest),
    ensures
        lex(operand(term, print(term)) + rest) == spell_operand(term, spell(term)) + lex(rest),
    decreases term, 1int,
{
    if term is Var {
        lemma_lex_print(term, rest);
    } else {
        let s = operand(term, print(term)) + rest;
        let closing = seq![')'] + rest;
        assert(s.skip(1) == print(term) + closing);
        assert(closing.skip(1) == rest);
        lemma_lex_print(term, closing);
        assert(lex(s) == seq![Lexeme::LParen] + (spell(term) + (seq![Lexeme::RParen] + lex(
            rest,
        ))));
    }
}

/// The text of a term whose names are identifiers, read with no
/// definitions in force, is that term.
pub proof fn lemma_round_trip(term: Term)
    requires
        well_named(term),
    ensures
        parse_spec(lex(print(term)), Map::empty()) == Some(term),
{
    lemma_lex_print(term, Seq::empty());
    lemma_parse_spell(term);
}

/// Every identifier among the tokens is an identifier of the surface
/// syntax.
pub open spec fn named(ts: Seq<Lexeme>) -> bool {
    forall|i: int| 0 <= i < ts.len() ==> ((#[trigger] ts[i]) matches Lexeme::Var(name) ==> is_name(
        name,
    ))
}

/// The tokenizer gives identifiers only.
pub proof fn lemma_lex_named(s: Seq<char>)
    ensures
        named(lex(s)),
    decreases s.len(),
{
    if s.len() == 0 {
    } else if s[0] == '(' || s[0] == ')' || s[0] == '.' || s[0] == '\\' {
        lemma_lex_named(s.skip(1));
    } else if s[0] == ':' {
        if s.len() >= 2 && s[1] == '=' {
            lemma_lex_named(s.skip(2));
        } else {
            lemma_lex_named(s.skip(1));
        }
    } else if is_whitespace(s[0]) {
        lemma_lex_named(s.skip(1));
    } else {
        lemma_name_len_bound(s);
        let n = name_len(s) as int;
        lemma_lex_named(s.skip(n));
    }
}

/// With no definitions in force, the names of a parsed term are those of
/// the tokens.
proof fn lemma_parse_well_named(ts: Seq<Lexeme>, read: Option<Term>)
    requires
        named(ts),
        read matches Some(term) ==> well_named(term),
        parse_from(ts, Map::empty(), read) is Some,
    ensures
        well_named(parse_from(ts, Map::empty(), read)->0),
    decreases ts.len(),
{
    let env = Map::<Seq<char>, Term>::empty();
    if ts.len() > 0 {
        let rest = ts.skip(1);
        assert(named(rest));
        match ts[0] {
            Lexeme::Var(name) => {
                assert(well_named(Term::Var(name)));
                lemma_parse_well_named(rest, Some(juxtapose(read, resolve(env, name))));
            },
            Lexeme::LParen => {
                let n = group_len(rest, 1);
                lemma_group_len_bound(rest, 1);
                let inner = rest.take(n as int);
                let tail = after(rest, n);
                assert(named(inner));
                assert(named(tail));
                lemma_parse_well_named(inner, None);
                let group = parse_from(inner, env, None)->0;
                lemma_parse_well_named(tail, Some(juxtapose(read, group)));
            },
            Lexeme::Lambda => {
                let n = dot_index(rest);
                lemma_dot_index_bound(rest);
                let head = rest.take(n as int);
                let tail = after(rest, n);
                assert(named(head));
                assert(named(tail));
                lemma_parse_well_named(tail, None);
                lemma_var_names_named(head);
                lemma_curry_well_named(var_names(head), parse_from(tail, env, None)->0);
            },
            _ => {
                lemma_parse_well_named(rest, read);
            },
        }
    }
}

/// The identifiers among tokens that hold identifiers only are identifiers.
proof fn lemma_var_names_named(ts: Seq<Lexeme>)
    requires
        named(ts),
    ensures
        forall|i: int| 0 <= i < var_names(ts).len() ==> is_name(#[trigger] var_names(ts)[i]),
    decreases ts.len(),
{
    if ts.len() > 0 {
        let front = ts.drop_last();
        assert(named(front));
        lemma_var_names_named(front);
        assert forall|i: int| 0 <= i < var_names(ts).len() implies is_name(
            #[trigger] var_names(ts)[i],
        ) by {
            if i == var_names(front).len() {
                assert(ts.last() == Lexeme::Var(var_names(ts)[i]));
            }
        }
    }
}

/// A function over identifiers and a well-named body is well-named.
proof fn lemma_curry_well_named(params: Seq<Seq<char>>, body: Term)
    requires
        forall|i: int| 0 <= i < params.len() ==> is_name(#[trigger] params[i]),
        well_named(body),
    ensures
        well_named(curry(params, body)),
    decreases params.len(),
{
    if params.len() > 0 {
        lemma_curry_well_named(params.skip(1), body);
    }
}

/// The names of a term parsed from text, with no definitions in force, are
/// identifiers.
pub proof fn lemma_parsed_is_well_named(text: Seq<char>)
    requires
        parse_spec(lex(text), Map::empty()) is Some,
    ensures
        well_named(parse_spec(lex(text), Map::empty())->0),
{
    lemma_lex_named(text);
    lemma_parse_well_named(lex(text), None);
}

/// Printing and reading are inverse on what the parser produces: the text of
/// a term that was parsed from text with no definitions in force, tokenized
/// and parsed again in the same way, gives that term.
pub proof fn lemma_round_trip_of_parsed(text: Seq<char>)
    requires
        parse_spec(lex(text), Map::empty()) is Some,
    ensures
        parse_spec(lex(print(parse_spec(lex(text), Map::empty())->0)), Map::empty()) == parse_spec(
            lex(text),
            Map::empty(),
        ),
{
    lemma_parsed_is_well_named(text);
    lemma_round_trip(parse_spec(lex(text), Map::empty())->0);
}

} // verus!
