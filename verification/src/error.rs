//! The failures of the pipeline, one kind per violated rule.

use vstd::prelude::*;
use vstd::string::StringExecFns;

verus! {

/// Why a source text was not compiled. The first failure met ends the run;
/// nothing is recovered and no partial result is kept.
#[derive(Debug, Clone, PartialEq, Eq)]
pub enum CompileError {
    /// The host parser rejected the source text.
    HostParse,
    /// A top-level item is not a function declaration.
    UnsupportedItem,
    /// A statement of a function body is not a macro invocation.
    UnsupportedStatement,
    /// A macro invocation names something other than `println`; the name
    /// found is carried along.
    UnknownOperation(String),
    /// A `println` invocation carries no argument token.
    MissingArgument,
}

/// The mathematical value of a [`CompileError`].
pub enum CompileErrorView {
    HostParse,
    UnsupportedItem,
    UnsupportedStatement,
    UnknownOperation(Seq<char>),
    MissingArgument,
}

impl View for CompileError {
    type V = CompileErrorView;

    open spec fn view(&self) -> CompileErrorView {
        match self {
            CompileError::HostParse => CompileErrorView::HostParse,
            CompileError::UnsupportedItem => CompileErrorView::UnsupportedItem,
            CompileError::UnsupportedStatement => CompileErrorView::UnsupportedStatement,
            CompileError::UnknownOperation(name) => CompileErrorView::UnknownOperation(name@),
            CompileError::MissingArgument => CompileErrorView::MissingArgument,
        }
    }
}

impl DeepView for CompileError {
    type V = CompileErrorView;

    open spec fn deep_view(&self) -> CompileErrorView {
        self@
    }
}

/// The message shown for a failure: its kind in words and, for an unknown
/// operation, the name that was found.
pub open spec fn message_text(e: CompileErrorView) -> Seq<char> {
    match e {
        CompileErrorView::HostParse => "Unable to parse file"@,
        CompileErrorView::UnsupportedItem => "Unexpected item in file"@,
        CompileErrorView::UnsupportedStatement => "Unexpected statement in function"@,
        CompileErrorView::UnknownOperation(name) => "Unknown macro: "@ + name,
        CompileErrorView::MissingArgument => "Expected argument in function"@,
    }
}

impl CompileError {
    /// The human-readable message of this failure.
    pub fn message(&self) -> (r: String)
        ensures
            r@ == message_text(self@),
    {
        match self {
            CompileError::HostParse => "Unable to parse file".to_owned(),
            CompileError::UnsupportedItem => "Unexpected item in file".to_owned(),
            CompileError::UnsupportedStatement => "Unexpected statement in function".to_owned(),
            CompileError::UnknownOperation(name) => {
                let mut text = "Unknown macro: ".to_owned();
                text.append(name.as_str());
                text
            },
            CompileError::MissingArgument => "Expected argument in function".to_owned(),
        }
    }
}

} // verus!
