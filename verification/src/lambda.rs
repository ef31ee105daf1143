//! Lambda terms: the executable tree, its mathematical model, and the
//! constructors that build curried functions and left-nested applications.

use vstd::prelude::*;

verus! {

/// A term of the untyped lambda calculus.
#[derive(Debug, PartialEq, Eq)]
pub enum Lambda {
    /// A reference to a name, free or bound.
    Variable(String),
    /// An abstraction over one parameter.
    Function(String, Box<Lambda>),
    /// The application of a term to an argument.
    Application(Box<Lambda>, Box<Lambda>),
}

/// The mathematical value of a [`Lambda`]: the same tree, with names as
/// sequences of characters.
pub enum Term {
    Var(Seq<char>),
    Fun(Seq<char>, Box<Term>),
    App(Box<Term>, Box<Term>),
}

impl Lambda {
    /// The term that this tree stands for.
    pub open spec fn term(&self) -> Term
        decreases self,
    {
        match self {
            Lambda::Variable(name) => Term::Var(name@),
            Lambda::Function(param, body) => Term::Fun(param@, Box::new(body.term())),
            Lambda::Application(function, argument) => Term::App(
                Box::new(function.term()),
                Box::new(argument.term()),
            ),
        }
    }
}

impl View for Lambda {
    type V = Term;

    open spec fn view(&self) -> Term {
        self.term()
    }
}

/// The terms of a sequence of trees, in order.
pub open spec fn terms(lambdas: Seq<Lambda>) -> Seq<Term> {
    Seq::new(lambdas.len(), |i: int| lambdas[i]@)
}

/// The characters of each string of a sequence, in order.
pub open spec fn names(strs: Seq<&str>) -> Seq<Seq<char>> {
    Seq::new(strs.len(), |i: int| strs[i]@)
}

/// The abstraction over `params`, one binder for each, outermost first.
/// Without parameters it is `body` itself.
pub open spec fn curry(params: Seq<Seq<char>>, body: Term) -> Term
    decreases params.len(),
{
    if params.len() == 0 {
        body
    } else {
        Term::Fun(params[0], Box::new(curry(params.skip(1), body)))
    }
}

/// The application of `function` to `args` one after the other, nested to
/// the left.  Without arguments it is `function` itself.
pub open spec fn apply_all(function: Term, args: Seq<Term>) -> Term
    decreases args.len(),
{
    if args.len() == 0 {
        function
    } else {
        Term::App(Box::new(apply_all(function, args.drop_last())), Box::new(args.last()))
    }
}

impl Clone for Lambda {
    fn clone(&self) -> (copy: Self)
        ensures
            copy@ == self@,
        decreases self,
    {
        match self {
            Lambda::Variable(name) => Lambda::Variable(name.clone()),
            Lambda::Function(param, body) => Lambda::Function(
                param.clone(),
                Box::new((&**body).clone()),
            ),
            Lambda::Application(function, argument) => Lambda::Application(
                Box::new((&**function).clone()),
                Box::new((&**argument).clone()),
            ),
        }
    }
}

impl Lambda {
    /// The variable called `name`.
    pub fn variable(name: &str) -> (lambda: Self)
        ensures
            lambda@ == Term::Var(name@),
    {
        Lambda::Variable(name.to_owned())
    }

    /// The function of the parameters `args` with the given body, curried:
    /// one nested single-parameter function for each name, the first
    /// outermost.
    pub fn function(args: Vec<&str>, body: Lambda) -> (lambda: Self)
        ensures
            lambda@ == curry(names(args@), body@),
    {
        let ghost params = names(args@);
        let ghost inner = body@;
        let mut result = body;
        let mut i: usize = args.len();
        while i > 0
            invariant
                i <= args.len(),
                params == names(args@),
                result@ == curry(params.skip(i as int), inner),
            decreases i,
        {
            i = i - 1;
            assert(params.skip(i as int).skip(1) == params.skip(i + 1));
            result = Lambda::Function(args[i].to_owned(), Box::new(result));
        }
        assert(params.skip(0) == params);
        result
    }

    /// The application of `func` to `args` one after the other, nested to
    /// the left.
    pub fn application(func: Lambda, args: Vec<Lambda>) -> (lambda: Self)
        ensures
            lambda@ == apply_all(func@, terms(args@)),
    {
        let ghost items = terms(args@);
        let ghost head = func@;
        let mut result = func;
        for arg in iter: args
            invariant
                iter.seq() == args@,
                items == terms(args@),
                result@ == apply_all(head, items.take(iter.index() as int)),
        {
            assert(items.take(iter.index() + 1).drop_last() == items.take(iter.index() as int));
            result = Lambda::Application(Box::new(result), Box::new(arg));
        }
        assert(items.take(items.len() as int) == items);
        result
    }
}

} // verus!
