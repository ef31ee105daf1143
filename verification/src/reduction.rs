//! Substitution and reduction to normal form.

use vstd::prelude::*;
use crate::lambda::{Lambda, Term};
use crate::text::same_text;

verus! {

/// `term` with `value` in place of the free occurrences of the variable
/// `var`.
///
/// A function whose own parameter is `var` is left as it is: inside it the
/// name belongs to that function.  No bound name is ever changed, so a name
/// that is free in `value` comes under any binder of that name it is put
/// beneath.
pub open spec fn substitute_spec(term: Term, var: Seq<char>, value: Term) -> Term
    decreases term,
{
    match term {
        Term::Var(name) => if name == var {
            value
        } else {
            term
        },
        Term::Fun(param, body) => if param == var {
            term
        } else {
            Term::Fun(param, Box::new(substitute_spec(*body, var, value)))
        },
        Term::App(function, argument) => Term::App(
            Box::new(substitute_spec(*function, var, value)),
            Box::new(substitute_spec(*argument, var, value)),
        ),
    }
}

/// What `term` reduces to, where that takes at most `fuel` substitutions
/// nested in one another; `None` where it takes more.
///
/// A variable is left as it is.  A function has its body reduced.  In an
/// application the function position is reduced first; where that gives a
/// function, the argument is reduced, put in place of the parameter in the
/// body, and the outcome reduced again; where it gives anything else, the
/// application of it to the reduced argument is the result.
pub open spec fn reduce_within(term: Term, fuel: nat) -> Option<Term>
    decreases fuel, term,
{
    match term {
        Term::Var(_) => Some(term),
        Term::Fun(param, body) => match reduce_within(*body, fuel) {
            Some(reduced) => Some(Term::Fun(param, Box::new(reduced))),
            None => None,
        },
        Term::App(function, argument) => match reduce_within(*function, fuel) {
            Some(Term::Fun(param, body)) => match reduce_within(*argument, fuel) {
                Some(value) => if fuel > 0 {
                    reduce_within(substitute_spec(*body, param, value), (fuel - 1) as nat)
                } else {
                    None
                },
                None => None,
            },
            Some(head) => match reduce_within(*argument, fuel) {
                Some(value) => Some(Term::App(Box::new(head), Box::new(value))),
                None => None,
            },
            None => None,
        },
    }
}

/// Whether reduction of `term` comes to an end.
pub open spec fn normalizes(term: Term) -> bool {
    exists|fuel: nat| reduce_within(term, fuel) is Some
}

/// What `term` reduces to, where its reduction comes to an end.
pub open spec fn normal_form(term: Term) -> Term
    recommends
        normalizes(term),
{
    reduce_within(term, choose|fuel: nat| reduce_within(term, fuel) is Some)->0
}

/// A term without a place to reduce: no application in it has a function in
/// function position.
pub open spec fn is_normal(term: Term) -> bool
    decreases term,
{
    match term {
        Term::Var(_) => true,
        Term::Fun(_, body) => is_normal(*body),
        Term::App(function, argument) => !(*function is Fun) && is_normal(*function) && is_normal(
            *argument,
        ),
    }
}

/// More fuel changes nothing: what a term reduces to within `fuel` it also
/// reduces to within any larger `more`.
pub proof fn lemma_reduce_within_more(term: Term, fuel: nat, more: nat)
    requires
        reduce_within(term, fuel) is Some,
        fuel <= more,
    ensures
        reduce_within(term, more) == reduce_within(term, fuel),
    decreases fuel, term,
{
    match term {
        Term::Var(_) => {},
        Term::Fun(param, body) => {
            lemma_reduce_within_more(*body, fuel, more);
        },
        Term::App(function, argument) => {
            lemma_reduce_within_more(*function, fuel, more);
            lemma_reduce_within_more(*argument, fuel, more);
            if let Some(Term::Fun(param, body)) = reduce_within(*function, fuel) {
                let value = reduce_within(*argument, fuel)->0;
                lemma_reduce_within_more(
                    substitute_spec(*body, param, value),
                    (fuel - 1) as nat,
                    (more - 1) as nat,
                );
            }
        },
    }
}

/// The normal form does not depend on the fuel that reaches it.
pub proof fn lemma_normal_form_within(term: Term, fuel: nat)
    requires
        reduce_within(term, fuel) is Some,
    ensures
        normalizes(term),
        normal_form(term) == reduce_within(term, fuel)->0,
{
    let chosen = choose|chosen: nat| reduce_within(term, chosen) is Some;
    if chosen <= fuel {
        lemma_reduce_within_more(term, chosen, fuel);
    } else {
        lemma_reduce_within_more(term, fuel, chosen);
    }
}

/// What reduction gives has no place left to reduce.
pub proof fn lemma_reduce_within_is_normal(term: Term, fuel: nat)
    requires
        reduce_within(term, fuel) is Some,
    ensures
        is_normal(reduce_within(term, fuel)->0),
    decreases fuel, term,
{
    match term {
        Term::Var(_) => {},
        Term::Fun(param, body) => {
            lemma_reduce_within_is_normal(*body, fuel);
        },
        Term::App(function, argument) => {
            lemma_reduce_within_is_normal(*function, fuel);
            lemma_reduce_within_is_normal(*argument, fuel);
            if let Some(Term::Fun(param, body)) = reduce_within(*function, fuel) {
                let value = reduce_within(*argument, fuel)->0;
                lemma_reduce_within_is_normal(
                    substitute_spec(*body, param, value),
                    (fuel - 1) as nat,
                );
            }
        },
    }
}

/// A term without a place to reduce reduces to itself, with no fuel at all.
pub proof fn lemma_normal_reduces_to_itself(term: Term, fuel: nat)
    requires
        is_normal(term),
    ensures
        reduce_within(term, fuel) == Some(term),
    decreases term,
{
    match term {
        Term::Var(_) => {},
        Term::Fun(param, body) => {
            lemma_normal_reduces_to_itself(*body, fuel);
        },
        Term::App(function, argument) => {
            lemma_normal_reduces_to_itself(*function, fuel);
            lemma_normal_reduces_to_itself(*argument, fuel);
        },
    }
}

/// The result of a reduction that comes to an end is in normal form.
pub proof fn lemma_normal_form_is_normal(term: Term)
    requires
        normalizes(term),
    ensures
        is_normal(normal_form(term)),
{
    let fuel = choose|fuel: nat| reduce_within(term, fuel) is Some;
    lemma_reduce_within_is_normal(term, fuel);
}

/// Reduction is idempotent: where the reduction of a term comes to an end,
/// so does the reduction of its result, and it gives that result again.
pub proof fn lemma_reduce_idempotent(term: Term)
    requires
        normalizes(term),
    ensures
        normalizes(normal_form(term)),
        normal_form(normal_form(term)) == normal_form(term),
{
    lemma_normal_form_is_normal(term);
    lemma_normal_reduces_to_itself(normal_form(term), 0);
    lemma_normal_form_within(normal_form(term), 0);
}

/// Substitution stops at a binder of the substituted name: a function whose
/// parameter is `var` comes back unchanged, whatever the body and the value.
pub proof fn lemma_substitute_shadowed(var: Seq<char>, body: Term, value: Term)
    ensures
        substitute_spec(Term::Fun(var, Box::new(body)), var, value) == Term::Fun(
            var,
            Box::new(body),
        ),
{
}

impl Lambda {
    /// Puts `value` in place of the free occurrences of the variable `var`.
    /// Inside a function whose parameter is `var` nothing is replaced.
    pub fn substitute(&self, var: &str, value: &Lambda) -> (lambda: Lambda)
        ensures
            lambda@ == substitute_spec(self@, var@, value@),
        decreases self,
    {
        match self {
            Lambda::Variable(name) => {
                if same_text(name.as_str(), var) {
                    value.clone()
                } else {
                    self.clone()
                }
            },
            Lambda::Function(param, body) => {
                if same_text(param.as_str(), var) {
                    self.clone()
                } else {
                    Lambda::Function(param.clone(), Box::new(body.substitute(var, value)))
                }
            },
            Lambda::Application(function, argument) => Lambda::Application(
                Box::new(function.substitute(var, value)),
                Box::new(argument.substitute(var, value)),
            ),
        }
    }

    /// Reduces a term whose reduction ends within `fuel`.
    fn reduce_with(&self, Ghost(fuel): Ghost<nat>) -> (reduced: Lambda)
        requires
            reduce_within(self@, fuel) is Some,
        ensures
            Some(reduced@) == reduce_within(self@, fuel),
        decreases fuel, self,
    {
        match self {
            Lambda::Variable(_) => self.clone(),
            Lambda::Function(param, body) => Lambda::Function(
                param.clone(),
                Box::new(body.reduce_with(Ghost(fuel))),
            ),
            Lambda::Application(function, argument) => match function.reduce_with(Ghost(fuel)) {
                Lambda::Function(param, body) => {
                    let value = argument.reduce_with(Ghost(fuel));
                    body.substitute(param.as_str(), &value).reduce_with(Ghost((fuel - 1) as nat))
                },
                head => Lambda::Application(
                    Box::new(head),
                    Box::new(argument.reduce_with(Ghost(fuel))),
                ),
            },
        }
    }

    /// Reduces the term to normal form.
    ///
    /// The function position of an application is reduced before its
    /// argument, arguments are reduced before they are substituted, and the
    /// bodies of functions are reduced too.  The reduction of the term has to
    /// come to an end: a term without a normal form has no result.
    pub fn reduce(&self) -> (reduced: Lambda)
        requires
            normalizes(self@),
        ensures
            reduced@ == normal_form(self@),
            is_normal(reduced@),
    {
        let ghost fuel = choose|fuel: nat| reduce_within(self@, fuel) is Some;
        proof {
            lemma_reduce_within_is_normal(self@, fuel);
        }
        self.reduce_with(Ghost(fuel))
    }
}

} // verus!
