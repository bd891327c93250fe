//! The tree walker: it accepts a parsed file only if every item is a function
//! and every statement a `println` invocation with an argument, and turns it
//! into a [`Program`]. Anything else is refused with the error of the first
//! offending place; no partial program is ever produced.

use crate::error::{CompileError, CompileErrorView};
use crate::host::{HostFile, HostFn, HostItem, HostStmt, ItemShape, StmtShape};
use crate::model::{body_wf, program_wf, Command, CommandView, Function, Program};
use crate::text::{lemma_without_quotes_is_quote_free, without_quotes};
use vstd::prelude::*;
use vstd::string::StringExecFns;

verus! {

/// Position `k` holds the first failure of `rs`.
pub open spec fn is_first_err<T, E>(rs: Seq<Result<T, E>>, k: int) -> bool {
    &&& 0 <= k < rs.len()
    &&& rs[k] is Err
    &&& forall|j: int| 0 <= j < k ==> (#[trigger] rs[j]) is Ok
}

/// No position of `rs` holds a failure.
pub open spec fn all_ok<T, E>(rs: Seq<Result<T, E>>) -> bool {
    forall|i: int| 0 <= i < rs.len() ==> (#[trigger] rs[i]) is Ok
}

/// All-or-nothing: the values of `rs` in order if none failed, else the
/// first failure.
pub open spec fn all_or_first_err<T, E>(rs: Seq<Result<T, E>>) -> Result<Seq<T>, E> {
    if all_ok(rs) {
        Ok(rs.map_values(|r: Result<T, E>| r->Ok_0))
    } else {
        Err(rs[choose|k: int| is_first_err(rs, k)]->Err_0)
    }
}

/// The name under which an invocation is looked up: the first segment of
/// its path, or the empty name where the path has no segment.
pub open spec fn operation_name(name: Option<Seq<char>>) -> Seq<char> {
    match name {
        Some(n) => n,
        None => Seq::empty(),
    }
}

/// What one statement becomes: a macro invocation must be named `println`
/// and carry an argument token, whose text is kept without its quotes. An
/// invocation whose path has no segment names no operation and is refused
/// as an unknown operation with the empty name.
pub open spec fn walk_stmt(stmt: StmtShape) -> Result<CommandView, CompileErrorView> {
    match stmt {
        StmtShape::Other => Err(CompileErrorView::UnsupportedStatement),
        StmtShape::Macro { name, first_arg } => {
            if name != Some("println"@) {
                Err(CompileErrorView::UnknownOperation(operation_name(name)))
            } else {
                match first_arg {
                    None => Err(CompileErrorView::MissingArgument),
                    Some(token) => Ok(CommandView::PrintLn(without_quotes(token))),
                }
            }
        },
    }
}

/// What a function body becomes: one command per statement, in order, or the
/// failure of its first unsupported statement.
pub open spec fn walk_body(stmts: Seq<StmtShape>) -> Result<Seq<CommandView>, CompileErrorView> {
    all_or_first_err(stmts.map_values(|s: StmtShape| walk_stmt(s)))
}

/// What one top-level item becomes: only a function is accepted.
pub open spec fn walk_item(item: ItemShape) -> Result<Seq<CommandView>, CompileErrorView> {
    match item {
        ItemShape::Function(stmts) => walk_body(stmts),
        ItemShape::Other => Err(CompileErrorView::UnsupportedItem),
    }
}

/// What a file becomes: one function per item, in order, or the failure of
/// its first unsupported item.
pub open spec fn walk_file(items: Seq<ItemShape>) -> Result<
    Seq<Seq<CommandView>>,
    CompileErrorView,
> {
    all_or_first_err(items.map_values(|i: ItemShape| walk_item(i)))
}

/// The statement is inside the supported subset.
pub open spec fn stmt_supported(stmt: StmtShape) -> bool {
    stmt matches StmtShape::Macro { name, first_arg } && name == Some("println"@)
        && first_arg is Some
}

/// The item is a function whose statements are all inside the supported
/// subset.
pub open spec fn item_supported(item: ItemShape) -> bool {
    item matches ItemShape::Function(stmts) && forall|j: int|
        0 <= j < stmts.len() ==> stmt_supported(#[trigger] stmts[j])
}

/// A sequence holds at most one first failure.
pub proof fn lemma_first_err_unique<T, E>(rs: Seq<Result<T, E>>, a: int, b: int)
    requires
        is_first_err(rs, a),
        is_first_err(rs, b),
    ensures
        a == b,
{
    if a < b {
        assert(rs[a] is Ok);
    } else if b < a {
        assert(rs[b] is Ok);
    }
}

/// A sequence that holds a failure at or after `from`, and none before it,
/// holds a first failure.
proof fn lemma_first_err_from<T, E>(rs: Seq<Result<T, E>>, from: int, bad: int)
    requires
        0 <= from <= bad < rs.len(),
        rs[bad] is Err,
        forall|j: int| 0 <= j < from ==> (#[trigger] rs[j]) is Ok,
    ensures
        exists|k: int| is_first_err(rs, k),
    decreases bad - from,
{
    if rs[from] is Err {
        assert(is_first_err(rs, from));
    } else {
        lemma_first_err_from(rs, from + 1, bad);
    }
}

/// The outcome of [`all_or_first_err`], spelled out: success means that no
/// position failed and gives every value at its own position; failure gives
/// the error of the first position that failed.
pub proof fn lemma_all_or_first_err<T, E>(rs: Seq<Result<T, E>>)
    ensures
        match all_or_first_err(rs) {
            Ok(values) => {
                &&& all_ok(rs)
                &&& values.len() == rs.len()
                &&& forall|i: int| 0 <= i < rs.len() ==> rs[i] == Ok::<T, E>(#[trigger] values[i])
            },
            Err(e) => exists|k: int| is_first_err(rs, k) && rs[k] == Err::<T, E>(e),
        },
{
    if !all_ok(rs) {
        let bad = choose|i: int| 0 <= i < rs.len() && !(#[trigger] rs[i] is Ok);
        lemma_first_err_from(rs, 0, bad);
        let k = choose|k: int| is_first_err(rs, k);
        assert(is_first_err(rs, k) && rs[k] == Err::<T, E>(rs[k]->Err_0));
    }
}

/// Where position `k` holds the first failure of `rs`, that failure is the
/// outcome of [`all_or_first_err`].
pub proof fn lemma_first_err_decides<T, E>(rs: Seq<Result<T, E>>, k: int)
    requires
        is_first_err(rs, k),
    ensures
        all_or_first_err(rs) == Err::<Seq<T>, E>(rs[k]->Err_0),
{
    assert(!all_ok(rs));
    lemma_first_err_unique(rs, k, choose|j: int| is_first_err(rs, j));
}

/// A body inside the supported subset is accepted, and the commands match
/// its statements one for one: as many commands as statements, in source
/// order, each with the text of the statement's first token without quotes.
pub proof fn lemma_walk_body_supported(stmts: Seq<StmtShape>)
    requires
        forall|j: int| 0 <= j < stmts.len() ==> stmt_supported(#[trigger] stmts[j]),
    ensures
        walk_body(stmts) is Ok,
        walk_body(stmts)->Ok_0.len() == stmts.len(),
        forall|j: int|
            0 <= j < stmts.len() ==> (#[trigger] walk_body(stmts)->Ok_0[j])
                == CommandView::PrintLn(without_quotes(stmts[j]->first_arg->0)),
        body_wf(walk_body(stmts)->Ok_0),
{
    let rs = stmts.map_values(|s: StmtShape| walk_stmt(s));
    assert forall|j: int| 0 <= j < rs.len() implies (#[trigger] rs[j]) is Ok by {
        assert(stmt_supported(stmts[j]));
    }
    let cmds = walk_body(stmts)->Ok_0;
    assert forall|j: int| 0 <= j < stmts.len() implies (#[trigger] cmds[j])
        == CommandView::PrintLn(without_quotes(stmts[j]->first_arg->0)) && cmds[j].wf() by {
        assert(stmt_supported(stmts[j]));
        lemma_without_quotes_is_quote_free(stmts[j]->first_arg->0);
    }
}

/// A body is accepted only if it is inside the supported subset. Otherwise
/// the failure is that of its first unsupported statement, of the kind that
/// names the broken rule.
pub proof fn lemma_walk_body_unsupported(stmts: Seq<StmtShape>)
    requires
        !(forall|j: int| 0 <= j < stmts.len() ==> stmt_supported(#[trigger] stmts[j])),
    ensures
        exists|k: int|
            {
                &&& 0 <= k < stmts.len()
                &&& !stmt_supported(stmts[k])
                &&& forall|j: int| 0 <= j < k ==> stmt_supported(#[trigger] stmts[j])
                &&& walk_body(stmts) == Err::<Seq<CommandView>, _>(
                    walk_stmt(#[trigger] stmts[k])->Err_0,
                )
            },
{
    let rs = stmts.map_values(|s: StmtShape| walk_stmt(s));
    let bad = choose|j: int| 0 <= j < stmts.len() && !stmt_supported(#[trigger] stmts[j]);
    assert(rs[bad] is Err);
    lemma_first_err_from(rs, 0, bad);
    let k = choose|k: int| is_first_err(rs, k);
    lemma_first_err_decides(rs, k);
    assert forall|j: int| 0 <= j < k implies stmt_supported(#[trigger] stmts[j]) by {
        assert(rs[j] is Ok);
    }
    assert(walk_body(stmts) == Err::<Seq<CommandView>, _>(walk_stmt(stmts[k])->Err_0));
}

/// A file inside the supported subset is accepted, and the program matches
/// it: as many functions as items and, in each, as many commands as
/// statements, in source order, each with the text of its statement's first
/// token without quotes.
pub proof fn lemma_walk_file_supported(items: Seq<ItemShape>)
    requires
        forall|i: int| 0 <= i < items.len() ==> item_supported(#[trigger] items[i]),
    ensures
        walk_file(items) is Ok,
        walk_file(items)->Ok_0.len() == items.len(),
        forall|i: int|
            0 <= i < items.len() ==> (#[trigger] walk_file(items)->Ok_0[i]).len()
                == items[i]->Function_0.len(),
        forall|i: int, j: int|
            0 <= i < items.len() && 0 <= j < items[i]->Function_0.len() ==> (
            #[trigger] walk_file(items)->Ok_0[i][j]) == CommandView::PrintLn(
                without_quotes(items[i]->Function_0[j]->first_arg->0),
            ),
        program_wf(walk_file(items)->Ok_0),
{
    let rs = items.map_values(|i: ItemShape| walk_item(i));
    assert forall|i: int| 0 <= i < rs.len() implies (#[trigger] rs[i]) is Ok by {
        assert(item_supported(items[i]));
        lemma_walk_body_supported(items[i]->Function_0);
    }
    let program = walk_file(items)->Ok_0;
    assert forall|i: int| 0 <= i < items.len() implies {
        &&& (#[trigger] program[i]).len() == items[i]->Function_0.len()
        &&& body_wf(program[i])
        &&& forall|j: int|
            0 <= j < items[i]->Function_0.len() ==> (#[trigger] program[i][j])
                == CommandView::PrintLn(without_quotes(items[i]->Function_0[j]->first_arg->0))
    } by {
        assert(item_supported(items[i]));
        lemma_walk_body_supported(items[i]->Function_0);
    }
}

/// A file is accepted only if it is inside the supported subset. Otherwise
/// the failure is that of its first unsupported item: `UnsupportedItem`
/// where that item is no function, else the failure of the function's body.
pub proof fn lemma_walk_file_unsupported(items: Seq<ItemShape>)
    requires
        !(forall|i: int| 0 <= i < items.len() ==> item_supported(#[trigger] items[i])),
    ensures
        exists|k: int|
            {
                &&& 0 <= k < items.len()
                &&& !item_supported(items[k])
                &&& forall|i: int| 0 <= i < k ==> item_supported(#[trigger] items[i])
                &&& walk_file(items) == Err::<Seq<Seq<CommandView>>, _>(
                    walk_item(#[trigger] items[k])->Err_0,
                )
            },
{
    let rs = items.map_values(|i: ItemShape| walk_item(i));
    let bad = choose|i: int| 0 <= i < items.len() && !item_supported(#[trigger] items[i]);
    lemma_walk_item_supported(items[bad]);
    assert(rs[bad] is Err);
    lemma_first_err_from(rs, 0, bad);
    let k = choose|k: int| is_first_err(rs, k);
    lemma_first_err_decides(rs, k);
    lemma_walk_item_supported(items[k]);
    assert forall|i: int| 0 <= i < k implies item_supported(#[trigger] items[i]) by {
        assert(rs[i] is Ok);
        lemma_walk_item_supported(items[i]);
    }
    assert(walk_file(items) == Err::<Seq<Seq<CommandView>>, _>(walk_item(items[k])->Err_0));
}

/// An item is accepted exactly if it is inside the supported subset.
pub proof fn lemma_walk_item_supported(item: ItemShape)
    ensures
        walk_item(item) is Ok <==> item_supported(item),
{
    if let ItemShape::Function(stmts) = item {
        if item_supported(item) {
            lemma_walk_body_supported(stmts);
        } else {
            lemma_walk_body_unsupported(stmts);
        }
    }
}

/// Walks one statement. The name of an invocation is looked at before its
/// argument, so an unknown name is reported even where the argument is
/// missing too.
pub fn parse_stmt(stmt: &HostStmt) -> (r: Result<Command, CompileError>)
    ensures
        match r {
            Ok(cmd) => walk_stmt(stmt@) == Ok::<_, CompileErrorView>(cmd@) && cmd.wf(),
            Err(e) => walk_stmt(stmt@) == Err::<CommandView, _>(e@),
        },
{
    match stmt {
        HostStmt::Macro { name, first_arg } => {
            match name {
                Some(found) => {
                    let println = String::from_str("println");
                    if *found == println {
                        match first_arg {
                            Some(token) => Ok(Command::print_line(token.as_str())),
                            None => Err(CompileError::MissingArgument),
                        }
                    } else {
                        Err(CompileError::UnknownOperation(found.clone()))
                    }
                },
                None => Err(CompileError::UnknownOperation(String::new())),
            }
        },
        HostStmt::Other => Err(CompileError::UnsupportedStatement),
    }
}

/// Walks the statements of a function body: one command per statement, in
/// order, or the failure of the first statement that is not supported.
pub fn parse_body(body: &Vec<HostStmt>) -> (r: Result<Vec<Command>, CompileError>)
    ensures
        match r {
            Ok(cmds) => {
                &&& walk_body(body.deep_view()) == Ok::<_, CompileErrorView>(cmds.deep_view())
                &&& body_wf(cmds.deep_view())
            },
            Err(e) => walk_body(body.deep_view()) == Err::<Seq<CommandView>, _>(e@),
        },
{
    let ghost rs = body.deep_view().map_values(|s: StmtShape| walk_stmt(s));
    let mut cmds: Vec<Command> = Vec::new();
    let mut j: usize = 0;
    while j < body.len()
        invariant
            j <= body.len(),
            cmds.len() == j,
            rs == body.deep_view().map_values(|s: StmtShape| walk_stmt(s)),
            forall|k: int| 0 <= k < j ==> (#[trigger] rs[k]) == Ok::<_, CompileErrorView>(cmds[k]@),
            forall|k: int| 0 <= k < j ==> (#[trigger] cmds[k]).wf(),
        decreases body.len() - j,
    {
        assert(rs[j as int] == walk_stmt(body[j as int]@));
        match parse_stmt(&body[j]) {
            Ok(cmd) => {
                cmds.push(cmd);
            },
            Err(e) => {
                proof {
                    assert(is_first_err(rs, j as int));
                    lemma_first_err_decides(rs, j as int);
                }
                return Err(e);
            },
        }
        j += 1;
    }
    proof {
        assert(all_ok(rs));
        assert(cmds.deep_view() =~= rs.map_values(|r: Result<CommandView, CompileErrorView>| r->Ok_0));
    }
    Ok(cmds)
}

/// Walks one function declaration.
pub fn parse_fn(item: &HostFn) -> (r: Result<Function, CompileError>)
    ensures
        match r {
            Ok(f) => walk_body(item@) == Ok::<_, CompileErrorView>(f@) && f.wf(),
            Err(e) => walk_body(item@) == Err::<Seq<CommandView>, _>(e@),
        },
{
    match parse_body(&item.body) {
        Ok(body) => Ok(Function { body }),
        Err(e) => Err(e),
    }
}

/// Walks one top-level item.
pub fn parse_item(item: &HostItem) -> (r: Result<Function, CompileError>)
    ensures
        match r {
            Ok(f) => walk_item(item@) == Ok::<_, CompileErrorView>(f@) && f.wf(),
            Err(e) => walk_item(item@) == Err::<Seq<CommandView>, _>(e@),
        },
{
    match item {
        HostItem::Function(f) => parse_fn(f),
        HostItem::Other => Err(CompileError::UnsupportedItem),
    }
}

/// Walks a parsed file: one function per item, in order, or the failure of
/// the first item that is not supported. Validation is all or nothing, and
/// its outcome is a function of the file alone.
pub fn parse_file(file: &HostFile) -> (r: Result<Program, CompileError>)
    ensures
        match r {
            Ok(program) => walk_file(file@) == Ok::<_, CompileErrorView>(program@) && program.wf(),
            Err(e) => walk_file(file@) == Err::<Seq<Seq<CommandView>>, _>(e@),
        },
{
    let ghost rs = file@.map_values(|i: ItemShape| walk_item(i));
    let mut functions: Vec<Function> = Vec::new();
    let mut i: usize = 0;
    while i < file.items.len()
        invariant
            i <= file.items.len(),
            functions.len() == i,
            rs == file@.map_values(|i: ItemShape| walk_item(i)),
            forall|k: int|
                0 <= k < i ==> (#[trigger] rs[k]) == Ok::<_, CompileErrorView>(functions[k]@),
            forall|k: int| 0 <= k < i ==> (#[trigger] functions[k]).wf(),
        decreases file.items.len() - i,
    {
        assert(rs[i as int] == walk_item(file.items[i as int]@));
        match parse_item(&file.items[i]) {
            Ok(f) => {
                functions.push(f);
            },
            Err(e) => {
                proof {
                    assert(is_first_err(rs, i as int));
                    lemma_first_err_decides(rs, i as int);
                }
                return Err(e);
            },
        }
        i += 1;
    }
    let program = Program { functions };
    proof {
        assert(all_ok(rs));
        assert(program@ =~= rs.map_values(|r: Result<Seq<CommandView>, CompileErrorView>| r->Ok_0));
    }
    Ok(program)
}

} // verus!
