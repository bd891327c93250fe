//! The C emitter: a program becomes one C source file whose `main`
//! calls `puts` once per print command of the first function.

use crate::model::{Command, CommandView, Program};
use vstd::prelude::*;
use vstd::string::StringExecFns;

verus! {

/// The C statement for one command. The text goes between double quotes as
/// it is: nothing in it is escaped.
pub open spec fn c_statement(cmd: CommandView) -> Seq<char> {
    match cmd {
        CommandView::PrintLn(text) => "puts(\""@ + text + "\");\n"@,
    }
}

/// The C statements of a body, one per command, in order.
pub open spec fn c_statements(body: Seq<CommandView>) -> Seq<Seq<char>> {
    body.map_values(|cmd: CommandView| c_statement(cmd))
}

/// The C source text for a body: the standard I/O header, the opening
/// of `main`, the statements, the closing brace.
pub open spec fn c_text(body: Seq<CommandView>) -> Seq<char> {
    "#include <stdio.h>\n"@ + "int main() {\n"@ + c_statements(body).flatten() + "}\n"@
}

/// Renders the first function of `file` as C source text. Later functions
/// are not looked at. An empty body gives a `main` with nothing in it. The
/// text is a function of the program alone.
pub fn compile_to_c(file: &Program) -> (c_output: String)
    requires
        file@.len() > 0,
    ensures
        c_output@ == c_text(file@[0]),
{
    let body = &file.functions[0].body;
    let ghost lines = c_statements(file@[0]);

    let mut c_output = String::new();
    c_output.append("#include <stdio.h>\n");
    c_output.append("int main() {\n");

    let mut i: usize = 0;
    while i < body.len()
        invariant
            i <= body.len(),
            file@.len() > 0,
            body.deep_view() == file@[0],
            lines == c_statements(file@[0]),
            c_output@ == "#include <stdio.h>\n"@ + "int main() {\n"@ + lines.take(i as int).flatten(),
        decreases body.len() - i,
    {
        match &body[i] {
            Command::PrintLn(msg) => {
                c_output.append("puts(\"");
                c_output.append(msg.as_str());
                c_output.append("\");\n");
            },
        }
        proof {
            let n = i as int;
            assert(lines.take(n + 1) == lines.take(n).push(lines[n]));
            lines.take(n).lemma_flatten_push(lines[n]);
            assert(lines[n] == c_statement(body[n]@));
            assert(c_output@ =~= "#include <stdio.h>\n"@ + "int main() {\n"@ + (lines.take(
                n,
            ).flatten() + lines[n]));
        }
        i += 1;
    }
    assert(lines.take(body.len() as int) == lines);

    c_output.append("}\n");
    c_output
}

} // verus!
