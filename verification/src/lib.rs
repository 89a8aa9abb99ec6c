//! A small assembly-like scripting language: a lexer that turns source text
//! into tokens, an assembler that resolves symbolic jump and call targets into
//! a linear instruction stream, and a stack-based virtual machine that
//! executes that stream.
//!
//! The machine itself cannot perform floating-point arithmetic or operating
//! system calls; it reports those as [`evaluator::Request`] values for the embedding
//! program to carry out, and resumes once an answer is supplied.

use vstd::prelude::*;

pub mod evaluator;
pub mod laws;
pub mod lexer;
pub mod parser;
pub mod table;
pub mod text;

verus! {

/// The category of a failure, as reported by the lexer, the assembler or the
/// virtual machine.
#[derive(Debug, Clone, Copy, PartialEq, Eq, Structural)]
pub enum ErrorKind {
    /// The source text could not be tokenized.
    LexError,
    /// The token stream could not be assembled into a program.
    AssemblyError,
    /// An opcode needed more operands than the operand stack held.
    StackUnderflow,
    /// An opcode was applied to operand tags it is not defined for.
    TypeMismatch,
    /// A variable was read before any value was bound to it.
    UnboundVariable,
    /// A buffer name was not present in the buffer table.
    UnknownBuffer,
    /// A jump or call target was not present in the label or function table.
    LabelOrFunctionNotFound,
    /// A `typ` conversion target was unknown or the text did not parse.
    InvalidCast,
    /// An integer division or remainder by zero.
    DivisionByZero,
}

/// A structured failure: a category, a message, the source position of the
/// offending token or instruction, and an optional debug-symbol origin.
#[derive(Debug, Clone, PartialEq)]
pub struct Error {
    pub kind: ErrorKind,
    pub message: String,
    pub path: Option<String>,
    pub dsline: Option<usize>,
    pub dscol: Option<usize>,
    pub line: usize,
    pub col: usize,
}

impl Error {
    /// Builds an error at a source position, attaching the debug-symbol
    /// origin when one is supplied.
    pub fn new(
        kind: ErrorKind,
        message: String,
        line: usize,
        col: usize,
        debug_symbol: &Option<lexer::DebugSymbol>,
    ) -> (r: Error)
        ensures
            r.kind == kind,
            r.message@ == message@,
            r.line == line,
            r.col == col,
            match debug_symbol {
                Some(ds) => {
                    &&& r.path matches Some(p) && p@ == ds.path@
                    &&& r.dsline == Some(ds.line)
                    &&& r.dscol == Some(ds.col)
                },
                None => {
                    &&& r.path is None
                    &&& r.dsline is None
                    &&& r.dscol is None
                },
            },
    {
        if let Some(ds) = debug_symbol {
            Error {
                kind,
                message,
                path: Some(ds.path.clone()),
                dsline: Some(ds.line),
                dscol: Some(ds.col),
                line,
                col,
            }
        } else {
            Error { kind, message, path: None, dsline: None, dscol: None, line, col }
        }
    }

    /// Renders the error as one line: the message, the source position, and
    /// the debug-symbol origin when one is attached.
    pub fn render(&self) -> (r: String)
        ensures
            self.path is None ==> r@ == self.message@ + " near "@ + text::nat_digits(
                self.line as int,
            ) + ":"@ + text::nat_digits(self.col as int),
    {
        let mut s = self.message.clone();
        s.append(" near ");
        if let Some(p) = &self.path {
            s.append(p.as_str());
            s.append(":");
            s.append(text::usize_to_string(self.dsline.unwrap_or(0)).as_str());
            s.append(":");
            s.append(text::usize_to_string(self.dscol.unwrap_or(0)).as_str());
            s.append(" (");
            s.append(text::usize_to_string(self.line).as_str());
            s.append(":");
            s.append(text::usize_to_string(self.col).as_str());
            s.append(")");
        } else {
            s.append(text::usize_to_string(self.line).as_str());
            s.append(":");
            s.append(text::usize_to_string(self.col).as_str());
        }
        proof {
            if self.path is None {
                assert(s@ =~= self.message@ + " near "@ + text::nat_digits(self.line as int)
                    + ":"@ + text::nat_digits(self.col as int));
            }
        }
        s
    }
}

} // verus!
