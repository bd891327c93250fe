//! The program model: a [`Program`] is a list of [`Function`]s, a function a
//! list of [`Command`]s. The walker builds it once; the emitters only read it.

use crate::text::quote_free;
use vstd::prelude::*;

verus! {

/// One operation of a function body.
#[derive(Debug, Clone, PartialEq, Eq)]
pub enum Command {
    /// Print the text and a line break. The text is held without the quotes
    /// that delimited it in the source and is otherwise left as written.
    PrintLn(String),
}

/// The mathematical value of a [`Command`].
pub enum CommandView {
    PrintLn(Seq<char>),
}

/// One function of the source: its commands in source order.
#[derive(Debug, Clone, PartialEq, Eq)]
pub struct Function {
    pub body: Vec<Command>,
}

/// A whole program: the functions of one source file in declaration order.
#[derive(Debug, Clone, PartialEq, Eq)]
pub struct Program {
    pub functions: Vec<Function>,
}

impl CommandView {
    /// The text that the command carries.
    pub open spec fn text(self) -> Seq<char> {
        match self {
            CommandView::PrintLn(t) => t,
        }
    }

    /// The carried text holds no double quote.
    pub open spec fn wf(self) -> bool {
        quote_free(self.text())
    }
}

impl View for Command {
    type V = CommandView;

    open spec fn view(&self) -> CommandView {
        match self {
            Command::PrintLn(t) => CommandView::PrintLn(t@),
        }
    }
}

impl DeepView for Command {
    type V = CommandView;

    open spec fn deep_view(&self) -> CommandView {
        self@
    }
}

impl View for Function {
    type V = Seq<CommandView>;

    open spec fn view(&self) -> Seq<CommandView> {
        self.body.deep_view()
    }
}

impl DeepView for Function {
    type V = Seq<CommandView>;

    open spec fn deep_view(&self) -> Seq<CommandView> {
        self@
    }
}

impl View for Program {
    type V = Seq<Seq<CommandView>>;

    open spec fn view(&self) -> Seq<Seq<CommandView>> {
        self.functions.deep_view()
    }
}

impl DeepView for Program {
    type V = Seq<Seq<CommandView>>;

    open spec fn deep_view(&self) -> Seq<Seq<CommandView>> {
        self@
    }
}

/// Every command of the body is well formed.
pub open spec fn body_wf(body: Seq<CommandView>) -> bool {
    forall|j: int| 0 <= j < body.len() ==> (#[trigger] body[j]).wf()
}

/// Every command of every function is well formed.
pub open spec fn program_wf(program: Seq<Seq<CommandView>>) -> bool {
    forall|i: int| 0 <= i < program.len() ==> body_wf(#[trigger] program[i])
}

impl Command {
    /// The invariant of the model: the text holds no double quote.
    pub open spec fn wf(&self) -> bool {
        self@.wf()
    }

    /// A print command for `raw`, a token as the source spells it. Every
    /// double quote is dropped; nothing else is changed or unescaped.
    pub fn print_line(raw: &str) -> (r: Command)
        ensures
            r@ == CommandView::PrintLn(crate::text::without_quotes(raw@)),
            r.wf(),
    {
        proof {
            crate::text::lemma_without_quotes_is_quote_free(raw@);
        }
        Command::PrintLn(crate::text::strip_quotes(raw))
    }

    /// The text to print.
    pub fn text(&self) -> (r: &String)
        ensures
            r@ == self@.text(),
    {
        match self {
            Command::PrintLn(t) => t,
        }
    }
}

impl Function {
    /// Every command of the function is well formed.
    pub open spec fn wf(&self) -> bool {
        body_wf(self@)
    }
}

impl Program {
    /// Every command of every function is well formed.
    pub open spec fn wf(&self) -> bool {
        program_wf(self@)
    }
}

} // verus!
