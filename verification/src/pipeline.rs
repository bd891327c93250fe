//! The whole pipeline, from source text to program and to assembly text.
//! Reading the source and writing the result are left to the caller.

use crate::emit_asm::{asm_text, compile_to_asm};
use crate::emit_c::compile_to_c;
use crate::error::{CompileError, CompileErrorView};
use crate::host::HostFile;
use crate::lower::{host_parse, lower_file, parse_host};
use crate::model::{CommandView, Program};
use crate::walker::{parse_file, walk_file};
use vstd::prelude::*;

verus! {

/// What a source text becomes: `HostParse` where the host parser rejects it,
/// else what the walker makes of the parsed file.
pub open spec fn walk_source(src: Seq<char>) -> Result<Seq<Seq<CommandView>>, CompileErrorView> {
    match host_parse(src) {
        None => Err(CompileErrorView::HostParse),
        Some(items) => walk_file(items),
    }
}

/// The assembly text of a source text: the failure of [`walk_source`], or
/// the rendering of the first function, or `None` for a program without a
/// function, which has nothing to render.
pub open spec fn asm_of_source(src: Seq<char>) -> Result<Option<Seq<char>>, CompileErrorView> {
    match walk_source(src) {
        Err(e) => Err(e),
        Ok(program) => Ok(
            if program.len() > 0 {
                Some(asm_text(program[0]))
            } else {
                None
            },
        ),
    }
}

/// The view of what [`parse_source`] and the walker return.
pub open spec fn program_outcome(r: Result<Program, CompileError>) -> Result<
    Seq<Seq<CommandView>>,
    CompileErrorView,
> {
    match r {
        Ok(program) => Ok(program@),
        Err(e) => Err(e@),
    }
}

/// The view of what [`compile_source`] returns.
pub open spec fn text_outcome(r: Result<Option<String>, CompileError>) -> Result<
    Option<Seq<char>>,
    CompileErrorView,
> {
    match r {
        Ok(text) => Ok(text.deep_view()),
        Err(e) => Err(e@),
    }
}

/// The walker keeps no state: whatever two runs of [`parse_file`] on the
/// same parsed file return under its contract, it is the same program or
/// the same failure.
pub proof fn lemma_parse_file_runs_agree(
    file: &HostFile,
    first: Result<Program, CompileError>,
    second: Result<Program, CompileError>,
)
    requires
        call_ensures(parse_file, (file,), first),
        call_ensures(parse_file, (file,), second),
    ensures
        program_outcome(first) == program_outcome(second),
{
}

/// The emitters keep no state: whatever two runs on the same program return
/// under their contracts, it is the same text, character for character.
pub proof fn lemma_emitter_runs_agree(
    file: &Program,
    first_asm: String,
    second_asm: String,
    first_c: String,
    second_c: String,
)
    requires
        file@.len() > 0,
        call_ensures(compile_to_asm, (file,), first_asm),
        call_ensures(compile_to_asm, (file,), second_asm),
        call_ensures(compile_to_c, (file,), first_c),
        call_ensures(compile_to_c, (file,), second_c),
    ensures
        first_asm@ == second_asm@,
        first_c@ == second_c@,
{
}

/// The pipeline keeps no state: whatever two runs of [`parse_source`] and of
/// [`compile_source`] on the same source text return under their contracts,
/// it is the same program, the same failure, the same assembly text.
pub proof fn lemma_pipeline_runs_agree(
    src: &str,
    first_program: Result<Program, CompileError>,
    second_program: Result<Program, CompileError>,
    first_text: Result<Option<String>, CompileError>,
    second_text: Result<Option<String>, CompileError>,
)
    requires
        call_ensures(parse_source, (src,), first_program),
        call_ensures(parse_source, (src,), second_program),
        call_ensures(compile_source, (src,), first_text),
        call_ensures(compile_source, (src,), second_text),
    ensures
        program_outcome(first_program) == program_outcome(second_program),
        text_outcome(first_text) == text_outcome(second_text),
{
}

/// Parses `src` with the host parser and walks the result into a program.
/// The outcome is a function of the text alone: every run on the same text
/// gives the same program or the same failure.
pub fn parse_source(src: &str) -> (r: Result<Program, CompileError>)
    ensures
        match r {
            Ok(program) => walk_source(src@) == Ok::<_, CompileErrorView>(program@) && program.wf(),
            Err(e) => walk_source(src@) == Err::<Seq<Seq<CommandView>>, _>(e@),
        },
{
    match parse_host(src) {
        Ok(syntax) => parse_file(&lower_file(&syntax)),
        Err(_) => Err(CompileError::HostParse),
    }
}

/// Compiles `src` to assembly text. A program without a function gives
/// `Ok(None)`: there is no first function to render. The outcome is a
/// function of the text alone: every run on the same text gives the same
/// assembly text or the same failure.
pub fn compile_source(src: &str) -> (r: Result<Option<String>, CompileError>)
    ensures
        match r {
            Ok(Some(text)) => asm_of_source(src@) == Ok::<_, CompileErrorView>(Some(text@)),
            Ok(None) => asm_of_source(src@) == Ok::<Option<Seq<char>>, CompileErrorView>(None),
            Err(e) => asm_of_source(src@) == Err::<Option<Seq<char>>, _>(e@),
        },
{
    match parse_source(src) {
        Ok(program) => {
            if program.functions.len() > 0 {
                Ok(Some(compile_to_asm(&program)))
            } else {
                Ok(None)
            }
        },
        Err(e) => Err(e),
    }
}

} // verus!
