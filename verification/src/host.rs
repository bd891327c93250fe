//! The part of a parsed source file that the walker reads, held as plain
//! values: which items are functions, which statements are macro invocations,
//! and for each invocation its name and its first argument token.

use vstd::prelude::*;

verus! {

/// One statement of a function body, as far as the walker looks at it.
#[derive(Debug, Clone, PartialEq, Eq)]
pub enum HostStmt {
    /// A macro invocation in statement position.
    Macro {
        /// The first segment of the macro's path, or `None` where the path
        /// has no segment. A parsed source always has one.
        name: Option<String>,
        /// The first token tree between the delimiters, as text, or `None`
        /// where there is none. A string literal comes with its quotes.
        first_arg: Option<String>,
    },
    /// Any other statement.
    Other,
}

/// The mathematical value of a [`HostStmt`].
pub enum StmtShape {
    Macro { name: Option<Seq<char>>, first_arg: Option<Seq<char>> },
    Other,
}

/// A function declaration: the statements of its body in source order.
#[derive(Debug, Clone, PartialEq, Eq)]
pub struct HostFn {
    pub body: Vec<HostStmt>,
}

/// One top-level item, as far as the walker looks at it.
#[derive(Debug, Clone, PartialEq, Eq)]
pub enum HostItem {
    /// A function declaration.
    Function(HostFn),
    /// Any other item: a type, a constant, an import and so on.
    Other,
}

/// The mathematical value of a [`HostItem`].
pub enum ItemShape {
    Function(Seq<StmtShape>),
    Other,
}

/// A parsed source file: its top-level items in source order.
#[derive(Debug, Clone, PartialEq, Eq)]
pub struct HostFile {
    pub items: Vec<HostItem>,
}

impl View for HostStmt {
    type V = StmtShape;

    open spec fn view(&self) -> StmtShape {
        match self {
            HostStmt::Macro { name, first_arg } => StmtShape::Macro {
                name: name.deep_view(),
                first_arg: first_arg.deep_view(),
            },
            HostStmt::Other => StmtShape::Other,
        }
    }
}

impl DeepView for HostStmt {
    type V = StmtShape;

    open spec fn deep_view(&self) -> StmtShape {
        self@
    }
}

impl View for HostFn {
    type V = Seq<StmtShape>;

    open spec fn view(&self) -> Seq<StmtShape> {
        self.body.deep_view()
    }
}

impl DeepView for HostFn {
    type V = Seq<StmtShape>;

    open spec fn deep_view(&self) -> Seq<StmtShape> {
        self@
    }
}

impl View for HostItem {
    type V = ItemShape;

    open spec fn view(&self) -> ItemShape {
        match self {
            HostItem::Function(f) => ItemShape::Function(f@),
            HostItem::Other => ItemShape::Other,
        }
    }
}

impl DeepView for HostItem {
    type V = ItemShape;

    open spec fn deep_view(&self) -> ItemShape {
        self@
    }
}

impl View for HostFile {
    type V = Seq<ItemShape>;

    open spec fn view(&self) -> Seq<ItemShape> {
        self.items.deep_view()
    }
}

impl DeepView for HostFile {
    type V = Seq<ItemShape>;

    open spec fn deep_view(&self) -> Seq<ItemShape> {
        self@
    }
}

} // verus!
