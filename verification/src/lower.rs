//! The boundary to `syn`: the host parser is called here, and its syntax tree
//! is read into a [`HostFile`]. Verus does not look inside `syn`, so what this
//! module says of it is believed, not proved; every such item says so.

use crate::host::{HostFile, HostFn, HostItem, HostStmt, ItemShape, StmtShape};
use vstd::prelude::*;

verus! {

/// Trusted: `syn::File`, a parsed source file. Opaque to the proofs.
#[verifier::external_type_specification]
#[verifier::external_body]
pub struct ExFile(syn::File);

/// Trusted: `syn::Block`, a braced block of statements. Opaque to the proofs.
#[verifier::external_type_specification]
#[verifier::external_body]
pub struct ExBlock(syn::Block);

/// Trusted: `syn::synom::ParseError`, the host parser's failure. Opaque to
/// the proofs.
#[verifier::external_type_specification]
#[verifier::external_body]
pub struct ExParseError(syn::synom::ParseError);

/// What `syn::parse_file` makes of a source text: the shapes of the items of
/// the parsed file, or `None` where the parser rejects the text.
pub uninterp spec fn host_parse(src: Seq<char>) -> Option<Seq<ItemShape>>;

/// The items that `file` holds in its field `items`, in order, each by its
/// shape: a function item with the statements of its block, or another item.
pub uninterp spec fn file_items(file: syn::File) -> Seq<ItemShape>;

/// The statements that `block` holds in its field `stmts`, in order, each by
/// its shape: a macro invocation with the first segment of its path and its
/// first token, as far as it has them, or another statement.
pub uninterp spec fn block_stmts(block: syn::Block) -> Seq<StmtShape>;

/// Trusted: calls `syn::parse_file`, which is a function of the source text
/// alone. On success the parsed file holds the items that [`host_parse`]
/// names for the text; it fails exactly where [`host_parse`] names none.
#[verifier::external_body]
pub(crate) fn parse_host(src: &str) -> (r: Result<syn::File, syn::synom::ParseError>)
    ensures
        match r {
            Ok(file) => host_parse(src@) == Some(file_items(file)),
            Err(_) => host_parse(src@) is None,
        },
{
    syn::parse_file(src)
}

/// Trusted: the length of the field `items` of a `syn::File`.
#[verifier::external_body]
fn item_count(file: &syn::File) -> (n: usize)
    ensures
        n == file_items(*file).len(),
{
    file.items.len()
}

/// Trusted: tells whether item `i` of the file is `syn::Item::Fn` and, where
/// it is, hands out the block of that function.
#[verifier::external_body]
fn item_block(file: &syn::File, i: usize) -> (r: Option<&syn::Block>)
    requires
        i < file_items(*file).len(),
    ensures
        match r {
            Some(block) => file_items(*file)[i as int] == ItemShape::Function(block_stmts(*block)),
            None => file_items(*file)[i as int] == ItemShape::Other,
        },
{
    match &file.items[i] {
        syn::Item::Fn(f) => Some(&*f.block),
        _ => None,
    }
}

/// Trusted: the length of the field `stmts` of a `syn::Block`.
#[verifier::external_body]
fn stmt_count(block: &syn::Block) -> (n: usize)
    ensures
        n == block_stmts(*block).len(),
{
    block.stmts.len()
}

/// Trusted: reads statement `j` of the block. A statement that is an item
/// that is a macro invocation (`syn::Stmt::Item(syn::Item::Macro(..))`) gives
/// the identifier of the first segment of the macro's path and the first
/// token tree of its token stream, each turned into text by its `Display`
/// impl, and each `None` where there is no first one. Every other statement
/// gives [`HostStmt::Other`].
#[verifier::external_body]
fn stmt_at(block: &syn::Block, j: usize) -> (r: HostStmt)
    requires
        j < block_stmts(*block).len(),
    ensures
        r@ == block_stmts(*block)[j as int],
{
    match &block.stmts[j] {
        syn::Stmt::Item(syn::Item::Macro(im)) => HostStmt::Macro {
            name: im.mac.path.segments.iter().next().map(|s| s.ident.to_string()),
            first_arg: im.mac.tts.clone().into_iter().next().map(|t| t.to_string()),
        },
        _ => HostStmt::Other,
    }
}

/// Reads the statements of a block into plain values.
pub fn lower_block(block: &syn::Block) -> (r: Vec<HostStmt>)
    ensures
        r.deep_view() == block_stmts(*block),
{
    let n = stmt_count(block);
    let mut stmts: Vec<HostStmt> = Vec::new();
    let mut j: usize = 0;
    while j < n
        invariant
            n == block_stmts(*block).len(),
            j <= n,
            stmts.len() == j,
            forall|k: int| 0 <= k < j ==> (#[trigger] stmts[k])@ == block_stmts(*block)[k],
        decreases n - j,
    {
        stmts.push(stmt_at(block, j));
        j += 1;
    }
    assert(stmts.deep_view() =~= block_stmts(*block));
    stmts
}

/// Reads the items of a parsed file into plain values.
pub fn lower_file(file: &syn::File) -> (r: HostFile)
    ensures
        r@ == file_items(*file),
{
    let n = item_count(file);
    let mut items: Vec<HostItem> = Vec::new();
    let mut i: usize = 0;
    while i < n
        invariant
            n == file_items(*file).len(),
            i <= n,
            items.len() == i,
            forall|k: int| 0 <= k < i ==> (#[trigger] items[k])@ == file_items(*file)[k],
        decreases n - i,
    {
        let item = match item_block(file, i) {
            Some(block) => HostItem::Function(HostFn { body: lower_block(block) }),
            None => HostItem::Other,
        };
        items.push(item);
        i += 1;
    }
    assert(items.deep_view() =~= file_items(*file));
    HostFile { items }
}

} // verus!
