//! The assembly emitter: a program becomes AT&T-syntax x86 assembly in two
//! regions. The code region enters at `main` and, for each print command of
//! the first function, loads the address of that command's string into the
//! argument register and calls `puts`; the data region that follows defines
//! one labelled, null-terminated string per command. Every label, instruction
//! and directive stands on a line of its own.

use crate::labels::{
    label_definition, label_reference, push_label_definition, push_label_reference,
};
use crate::model::{Command, CommandView, Program};
use vstd::prelude::*;
use vstd::string::StringExecFns;

verus! {

/// The code for command number `n`: load the address of its string, call
/// `puts`.
pub open spec fn asm_call(n: nat, cmd: CommandView) -> Seq<char> {
    match cmd {
        CommandView::PrintLn(_) => "mov "@ + label_reference(n) + " %edi\n"@ + "call puts\n"@,
    }
}

/// The data for command number `n`: the definition of its label on a line
/// of its own, then its text as a null-terminated string on the next line.
/// The text goes between double quotes as it is: nothing in it is escaped.
pub open spec fn asm_datum(n: nat, cmd: CommandView) -> Seq<char> {
    match cmd {
        CommandView::PrintLn(text) => label_definition(n) + "\n"@ + " .asciz \""@ + text
            + "\"\n"@,
    }
}

/// The code entries of a body, one per command, in order.
pub open spec fn asm_calls(body: Seq<CommandView>) -> Seq<Seq<char>> {
    Seq::new(body.len(), |i: int| asm_call(i as nat, body[i]))
}

/// The data entries of a body, one per command, in order.
pub open spec fn asm_data(body: Seq<CommandView>) -> Seq<Seq<char>> {
    Seq::new(body.len(), |i: int| asm_datum(i as nat, body[i]))
}

/// The code region: the section header, the global entry label `main`, then
/// the code entries.
pub open spec fn asm_code_region(body: Seq<CommandView>) -> Seq<char> {
    ".text\n"@ + ".global main\n"@ + "main:\n"@ + asm_calls(body).flatten()
}

/// The data region: the section header, then the data entries.
pub open spec fn asm_data_region(body: Seq<CommandView>) -> Seq<char> {
    ".data\n"@ + asm_data(body).flatten()
}

/// The assembly text for a body: the code region, then the data region.
pub open spec fn asm_text(body: Seq<CommandView>) -> Seq<char> {
    asm_code_region(body) + asm_data_region(body)
}

/// Renders the first function of `file` as assembly text. Later functions
/// are not looked at. Commands are numbered from zero in body order, and the
/// number names the label that the code and the data of a command share;
/// equal texts are not merged. The text is a function of the program alone:
/// no counter outlives a run.
pub fn compile_to_asm(file: &Program) -> (asm_output: String)
    requires
        file@.len() > 0,
    ensures
        asm_output@ == asm_text(file@[0]),
{
    let body = &file.functions[0].body;
    let ghost calls = asm_calls(file@[0]);
    let ghost data = asm_data(file@[0]);

    let mut asm_code_output = String::new();
    let mut asm_data_output = String::new();

    asm_data_output.append(".data\n");

    asm_code_output.append(".text\n");
    asm_code_output.append(".global main\n");
    asm_code_output.append("main:\n");

    let mut temp_num: usize = 0;
    while temp_num < body.len()
        invariant
            temp_num <= body.len(),
            file@.len() > 0,
            body.deep_view() == file@[0],
            calls == asm_calls(file@[0]),
            data == asm_data(file@[0]),
            asm_code_output@ == ".text\n"@ + ".global main\n"@ + "main:\n"@ + calls.take(
                temp_num as int,
            ).flatten(),
            asm_data_output@ == ".data\n"@ + data.take(temp_num as int).flatten(),
        decreases body.len() - temp_num,
    {
        match &body[temp_num] {
            Command::PrintLn(msg) => {
                asm_code_output.append("mov ");
                push_label_reference(&mut asm_code_output, temp_num);
                asm_code_output.append(" %edi\n");
                asm_code_output.append("call puts\n");

                push_label_definition(&mut asm_data_output, temp_num);
                asm_data_output.append("\n");
                asm_data_output.append(" .asciz \"");
                asm_data_output.append(msg.as_str());
                asm_data_output.append("\"\n");
            },
        }
        proof {
            let n = temp_num as int;
            assert(calls.take(n + 1) == calls.take(n).push(calls[n]));
            assert(data.take(n + 1) == data.take(n).push(data[n]));
            calls.take(n).lemma_flatten_push(calls[n]);
            data.take(n).lemma_flatten_push(data[n]);
            assert(calls[n] == asm_call(n as nat, body[n]@));
            assert(data[n] == asm_datum(n as nat, body[n]@));
            assert(asm_code_output@ =~= ".text\n"@ + ".global main\n"@ + "main:\n"@ + (
            calls.take(n).flatten() + calls[n]));
            assert(asm_data_output@ =~= ".data\n"@ + (data.take(n).flatten() + data[n]));
        }
        temp_num += 1;
    }
    assert(calls.take(body.len() as int) == calls);
    assert(data.take(body.len() as int) == data);

    asm_code_output.append(asm_data_output.as_str());
    asm_code_output
}

} // verus!
