//! The errors that compiling and running a program can end in. Each carries
//! its message; the message's text is what tells one error from another.

use vstd::prelude::*;

verus! {

/// An error met while a program runs, in the virtual machine, in a built-in
/// function or in the evaluator.
#[derive(Debug, PartialEq)]
pub struct RuntimeError {
    pub message: String,
}

/// A diagnostic of the parser.
#[derive(Debug, PartialEq)]
pub struct ParseError {
    pub message: String,
}

impl View for ParseError {
    type V = Seq<char>;

    open spec fn view(&self) -> Seq<char> {
        self.message@
    }
}

impl ParseError {
    /// An error with the given message.
    pub fn new(message: &str) -> (e: ParseError)
        ensures
            e@ == message@,
    {
        ParseError { message: String::from_str(message) }
    }

    /// The error's message.
    pub fn to_string(&self) -> (s: String)
        ensures
            s@ == self@,
    {
        self.message.clone()
    }
}

/// An error met while a program is compiled.
#[derive(Debug, PartialEq)]
pub struct CompileError {
    pub message: String,
}

impl View for RuntimeError {
    type V = Seq<char>;

    open spec fn view(&self) -> Seq<char> {
        self.message@
    }
}

impl View for CompileError {
    type V = Seq<char>;

    open spec fn view(&self) -> Seq<char> {
        self.message@
    }
}

impl RuntimeError {
    /// An error with the given message.
    pub fn new(message: &str) -> (e: RuntimeError)
        ensures
            e@ == message@,
    {
        RuntimeError { message: String::from_str(message) }
    }

    /// The error's message.
    pub fn to_string(&self) -> (s: String)
        ensures
            s@ == self@,
    {
        self.message.clone()
    }
}

impl CompileError {
    /// An error with the given message.
    pub fn new(message: &str) -> (e: CompileError)
        ensures
            e@ == message@,
    {
        CompileError { message: String::from_str(message) }
    }

    /// The error's message.
    pub fn to_string(&self) -> (s: String)
        ensures
            s@ == self@,
    {
        self.message.clone()
    }
}

impl Clone for RuntimeError {
    fn clone(&self) -> (r: RuntimeError)
        ensures
            r@ == self@,
    {
        RuntimeError { message: self.message.clone() }
    }
}

impl Clone for CompileError {
    fn clone(&self) -> (r: CompileError)
        ensures
            r@ == self@,
    {
        CompileError { message: self.message.clone() }
    }
}

} // verus!
