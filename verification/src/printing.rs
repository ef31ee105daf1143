//! The text of a term.

use vstd::prelude::*;
use crate::lambda::{Lambda, Term};

verus! {

/// The text of a term as an operand of an application: bare for a variable,
/// in parentheses for anything else.
pub open spec fn operand(term: Term, text: Seq<char>) -> Seq<char> {
    if term is Var {
        text
    } else {
        seq!['('] + text + seq![')']
    }
}

/// The text of a term.
///
/// A variable is its name.  A function is a backslash, the parameter, a dot
/// and the text of the body, which reaches to the end of its scope and so
/// needs no parentheses.  An application is the function and the argument
/// with one space between them, each as an operand.
pub open spec fn print(term: Term) -> Seq<char>
    decreases term,
{
    match term {
        Term::Var(name) => name,
        Term::Fun(param, body) => seq!['\\'] + param + seq!['.'] + print(*body),
        Term::App(function, argument) => operand(*function, print(*function)) + seq![' ']
            + operand(*argument, print(*argument)),
    }
}

impl Lambda {
    /// Appends the text of the term as an operand of an application.
    fn write_operand(&self, out: &mut String)
        ensures
            final(out)@ == old(out)@ + operand(self@, print(self@)),
        decreases self, 1int,
    {
        match self {
            Lambda::Variable(_) => {
                self.write(out);
            },
            _ => {
                out.push('(');
                self.write(out);
                out.push(')');
            },
        }
    }

    /// Appends the text of the term.
    fn write(&self, out: &mut String)
        ensures
            final(out)@ == old(out)@ + print(self@),
        decreases self, 0int,
    {
        match self {
            Lambda::Variable(name) => {
                out.append(name.as_str());
            },
            Lambda::Function(param, body) => {
                out.push('\\');
                out.append(param.as_str());
                out.push('.');
                body.write(out);
            },
            Lambda::Application(function, argument) => {
                function.write_operand(out);
                out.push(' ');
                argument.write_operand(out);
                assert(out@ == old(out)@ + (operand(function@, print(function@)) + seq![' ']
                    + operand(argument@, print(argument@))));
            },
        }
    }

    /// The text of the term, in the syntax that the parser reads.
    pub fn to_string(&self) -> (text: String)
        ensures
            text@ == print(self@),
    {
        let mut text = String::new();
        self.write(&mut text);
        text
    }
}

} // verus!
