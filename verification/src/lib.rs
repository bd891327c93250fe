//! A tiny ahead-of-time compiler for programs made of `println!` statements.
//!
//! A source file is parsed by `syn`, walked into a narrow program model
//! ([`Program`] → [`Function`] → [`Command`]) and rendered either as C or as
//! x86 assembly. Every function of the crate carries a contract that Verus
//! proves; the few calls into `syn` and `std` that Verus cannot see are
//! gathered in small trusted declarations with their own documentation.
//!
//! - [`lower`] calls the host parser and reads its syntax tree into the plain
//!   values of [`host`];
//! - [`walker`] accepts the supported subset and builds the [`model`];
//! - [`emit_c`] and [`emit_asm`] render a program; [`asm_laws`] states where
//!   the labels stand in the assembly text and how many there are;
//! - [`pipeline`] runs the stages on a source text;
//! - [`text`], [`labels`] and [`occurrence`] hold what the others share.

pub mod asm_laws;
pub mod emit_asm;
pub mod emit_c;
pub mod error;
pub mod host;
pub mod labels;
pub mod lower;
pub mod model;
pub mod occurrence;
pub mod pipeline;
pub mod text;
pub mod walker;

pub use emit_asm::compile_to_asm;
pub use emit_c::compile_to_c;
pub use error::CompileError;
pub use host::{HostFile, HostFn, HostItem, HostStmt};
pub use model::{Command, Function, Program};
pub use pipeline::{compile_source, parse_source};
pub use walker::{parse_body, parse_file, parse_fn, parse_item, parse_stmt};
