use printlnc::lower::{lower_block, lower_file};
use printlnc::{
    compile_source, compile_to_asm, compile_to_c, parse_file, parse_source, Command,
    CompileError, Function, HostFile, HostFn, HostItem, HostStmt, Program,
};

fn print_stmt(token: &str) -> HostStmt {
    HostStmt::Macro {
        name: Some("println".to_string()),
        first_arg: Some(token.to_string()),
    }
}

fn printing(texts: &[&str]) -> Function {
    Function {
        body: texts
            .iter()
            .map(|t| Command::PrintLn(t.to_string()))
            .collect(),
    }
}

#[test]
fn source_with_one_print() {
    let src = "fn main() { println!(\"hi\"); }";
    let program = parse_source(src).unwrap();
    assert_eq!(
        program,
        Program {
            functions: vec![printing(&["hi"])]
        }
    );
    let text = compile_source(src).unwrap().unwrap();
    assert_eq!(
        text,
        ".text\n.global main\nmain:\nmov $str_0, %edi\ncall puts\n.data\nstr_0:\n .asciz \"hi\"\n"
    );
    let (code, data) = text.split_at(text.find(".data\n").unwrap());
    assert_eq!(code.matches("mov $str_0, %edi\ncall puts\n").count(), 1);
    assert_eq!(code.matches("call puts").count(), 1);
    assert_eq!(data, ".data\nstr_0:\n .asciz \"hi\"\n");
}

#[test]
fn source_with_two_prints() {
    let src = "fn main() {\n    println!(\"a\");\n    println!(\"b\");\n}\n";
    let program = parse_source(src).unwrap();
    assert_eq!(
        program,
        Program {
            functions: vec![printing(&["a", "b"])]
        }
    );
    assert_eq!(
        compile_source(src),
        Ok(Some(
            ".text\n.global main\nmain:\nmov $str_0, %edi\ncall puts\nmov $str_1, %edi\ncall puts\n.data\nstr_0:\n .asciz \"a\"\nstr_1:\n .asciz \"b\"\n"
                .to_string()
        ))
    );
}

#[test]
fn variable_binding_is_unsupported_statement() {
    let src = "fn main() { let x = 1; }";
    assert_eq!(parse_source(src), Err(CompileError::UnsupportedStatement));
    assert_eq!(compile_source(src), Err(CompileError::UnsupportedStatement));
}

#[test]
fn binding_after_print_is_unsupported_statement() {
    let src = "fn main() { println!(\"a\"); let x = 1; println!(\"b\"); }";
    assert_eq!(compile_source(src), Err(CompileError::UnsupportedStatement));
}

#[test]
fn type_declaration_is_unsupported_item() {
    let src = "struct Point { x: i32 }\nfn main() { println!(\"a\"); }";
    assert_eq!(parse_source(src), Err(CompileError::UnsupportedItem));
    assert_eq!(compile_source(src), Err(CompileError::UnsupportedItem));
    let src = "fn main() { println!(\"a\"); }\nstruct Point { x: i32 }";
    assert_eq!(compile_source(src), Err(CompileError::UnsupportedItem));
}

#[test]
fn other_top_level_items_are_unsupported_items() {
    for src in [
        "const N: u32 = 1;",
        "use std::io;",
        "enum E { A }",
        "type T = u8;",
        "mod m {}",
        "static S: u8 = 0;",
        "trait Tr {}",
        "impl S {}",
    ] {
        assert_eq!(compile_source(src), Err(CompileError::UnsupportedItem));
    }
}

#[test]
fn println_without_argument_is_missing_argument() {
    let src = "fn main() { println!(); }";
    assert_eq!(parse_source(src), Err(CompileError::MissingArgument));
    assert_eq!(compile_source(src), Err(CompileError::MissingArgument));
}

#[test]
fn source_with_empty_body() {
    let src = "fn main() {}";
    let program = parse_source(src).unwrap();
    assert_eq!(program.functions.len(), 1);
    assert_eq!(program.functions[0].body.len(), 0);
    assert_eq!(
        compile_to_c(&program),
        "#include <stdio.h>\nint main() {\n}\n"
    );
    assert_eq!(
        compile_to_asm(&program),
        ".text\n.global main\nmain:\n.data\n"
    );
    assert_eq!(
        compile_source(src),
        Ok(Some(".text\n.global main\nmain:\n.data\n".to_string()))
    );
}

#[test]
fn quote_stripping_from_source_to_both_outputs() {
    let program = parse_source("fn main() { println!(\"hello\"); }").unwrap();
    assert_eq!(
        program.functions[0].body,
        vec![Command::PrintLn("hello".to_string())]
    );
    assert!(compile_to_c(&program).contains("puts(\"hello\");\n"));
    assert!(compile_to_asm(&program).contains(" .asciz \"hello\"\n"));
}

#[test]
fn unknown_macro_is_unknown_operation_with_its_name() {
    assert_eq!(
        compile_source("fn main() { print!(\"x\"); }"),
        Err(CompileError::UnknownOperation("print".to_string()))
    );
    assert_eq!(
        compile_source("fn main() { vec![1]; }"),
        Err(CompileError::UnknownOperation("vec".to_string()))
    );
}

#[test]
fn macro_name_is_the_first_segment_of_its_path() {
    assert_eq!(
        compile_source("fn main() { std::println!(\"x\"); }"),
        Err(CompileError::UnknownOperation("std".to_string()))
    );
    assert_eq!(
        parse_source("fn main() { println::other!(\"x\"); }"),
        Ok(Program {
            functions: vec![printing(&["x"])]
        })
    );
}

#[test]
fn source_that_does_not_parse_is_host_parse_error() {
    assert_eq!(parse_source("fn main( {"), Err(CompileError::HostParse));
    assert_eq!(compile_source("fn main( {"), Err(CompileError::HostParse));
    assert_eq!(compile_source("this is not rust"), Err(CompileError::HostParse));
    assert_eq!(compile_source("fn main() { println!(\"x\"; }"), Err(CompileError::HostParse));
}

#[test]
fn source_without_items_has_no_function_to_render() {
    assert_eq!(parse_source(""), Ok(Program { functions: vec![] }));
    assert_eq!(compile_source(""), Ok(None));
    assert_eq!(compile_source("// only a comment\n"), Ok(None));
}

#[test]
fn only_the_first_token_of_the_arguments_is_used() {
    assert_eq!(
        parse_source("fn main() { println!(\"a {}\", x); }"),
        Ok(Program {
            functions: vec![printing(&["a {}"])]
        })
    );
}

#[test]
fn first_token_that_is_no_string_is_accepted() {
    assert_eq!(
        parse_source("fn main() { println!(42); println!(x); }"),
        Ok(Program {
            functions: vec![printing(&["42", "x"])]
        })
    );
}

#[test]
fn escapes_in_a_literal_reach_the_output_unchanged() {
    let src = "fn main() { println!(\"a\\nb\"); }";
    let program = parse_source(src).unwrap();
    assert_eq!(
        program.functions[0].body,
        vec![Command::PrintLn("a\\nb".to_string())]
    );
    assert_eq!(
        compile_to_c(&program),
        "#include <stdio.h>\nint main() {\nputs(\"a\\nb\");\n}\n"
    );
}

#[test]
fn every_function_is_walked_and_the_first_is_rendered() {
    let src = "fn main() { println!(\"one\"); }\nfn other() { println!(\"two\"); println!(\"three\"); }";
    let program = parse_source(src).unwrap();
    assert_eq!(
        program,
        Program {
            functions: vec![printing(&["one"]), printing(&["two", "three"])]
        }
    );
    assert_eq!(
        compile_source(src),
        Ok(Some(
            ".text\n.global main\nmain:\nmov $str_0, %edi\ncall puts\n.data\nstr_0:\n .asciz \"one\"\n"
                .to_string()
        ))
    );
}

#[test]
fn failure_in_a_later_function_fails_the_whole_file() {
    let src = "fn main() { println!(\"one\"); }\nfn other() { let y = 2; }";
    assert_eq!(compile_source(src), Err(CompileError::UnsupportedStatement));
}

#[test]
fn macro_with_braces_is_a_statement_too() {
    assert_eq!(
        parse_source("fn main() { println!{\"braces\"} }"),
        Ok(Program {
            functions: vec![printing(&["braces"])]
        })
    );
}

#[test]
fn expression_statements_are_unsupported() {
    assert_eq!(
        compile_source("fn main() { 1 + 1; }"),
        Err(CompileError::UnsupportedStatement)
    );
    assert_eq!(
        compile_source("fn main() { foo(); }"),
        Err(CompileError::UnsupportedStatement)
    );
}

#[test]
fn same_source_gives_same_output_on_every_run() {
    let src = "fn main() { println!(\"a\"); println!(\"b\"); println!(\"c\"); }";
    let first = compile_source(src);
    let second = compile_source(src);
    assert_eq!(first, second);
    assert!(first.unwrap().unwrap().contains("str_2:"));
    let copy = src.to_string();
    assert_eq!(compile_source(&copy), second);
    assert_eq!(parse_source(src), parse_source(&copy));
    let bad = "fn main() { nope!(); }";
    assert_eq!(compile_source(bad), compile_source(bad));
}

#[test]
fn lowering_reads_items_and_statements_in_order() {
    let syntax = syn::parse_file(
        "fn a() { println!(\"x\", 1); let y = 2; other!(); }\nstruct S;\nfn b() {}",
    )
    .unwrap();
    assert_eq!(
        lower_file(&syntax),
        HostFile {
            items: vec![
                HostItem::Function(HostFn {
                    body: vec![
                        print_stmt("\"x\""),
                        HostStmt::Other,
                        HostStmt::Macro {
                            name: Some("other".to_string()),
                            first_arg: None
                        },
                    ]
                }),
                HostItem::Other,
                HostItem::Function(HostFn { body: vec![] }),
            ]
        }
    );
}

#[test]
fn lowering_a_block_reads_its_statements() {
    let syntax = syn::parse_file("fn a() { println!(\"p\"); q::r!(s t); }").unwrap();
    let block = match &syntax.items[0] {
        syn::Item::Fn(f) => &f.block,
        _ => panic!("the first item is a function"),
    };
    assert_eq!(
        lower_block(block),
        vec![
            print_stmt("\"p\""),
            HostStmt::Macro {
                name: Some("q".to_string()),
                first_arg: Some("s".to_string())
            },
        ]
    );
}

#[test]
fn lowering_an_empty_file_gives_no_items() {
    let syntax = syn::parse_file("").unwrap();
    assert_eq!(lower_file(&syntax), HostFile { items: vec![] });
}

#[test]
fn lowering_then_walking_is_parsing_the_source() {
    let src = "fn main() { println!(\"a\"); println!(\"b\"); }";
    let syntax = syn::parse_file(src).unwrap();
    assert_eq!(parse_file(&lower_file(&syntax)), parse_source(src));
}

#[test]
fn group_as_first_token_is_taken_whole() {
    let program = parse_source("fn main() { println!((\"a\", 1)); }").unwrap();
    assert_eq!(program.functions.len(), 1);
    assert_eq!(program.functions[0].body.len(), 1);
    assert!(!program.functions[0].body[0].text().contains('"'));
    assert!(program.functions[0].body[0].text().contains('a'));
}
