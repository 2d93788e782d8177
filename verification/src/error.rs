//! The single error kind of the interpreter: a human-readable message.
//! Every failure is a value returned up the call chain; the evaluator never
//! aborts the process.

use vstd::prelude::*;

verus! {

#[derive(Debug)]
pub enum Error {
    EvalError(String),
}

impl View for Error {
    type V = Seq<char>;

    open spec fn view(&self) -> Seq<char> {
        match self {
            Error::EvalError(msg) => msg@,
        }
    }
}

impl Error {
    /// The error's message, for printing by a front end.
    pub fn message(&self) -> (r: &str)
        ensures
            r@ == self@,
    {
        match self {
            Error::EvalError(msg) => msg.as_str(),
        }
    }
}


/// The view of an evaluation result: the term's view, or the message.
pub open spec fn res_view(r: Result<crate::ast::Object, Error>) -> Result<
    crate::ast::ObjectView,
    Seq<char>,
> {
    match r {
        Ok(o) => Ok(crate::ast::obj_view(o)),
        Err(e) => Err(e@),
    }
}

} // verus!
