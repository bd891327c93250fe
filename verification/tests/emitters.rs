use printlnc::{compile_to_asm, compile_to_c, Command, Function, Program};

fn program_of(texts: &[&str]) -> Program {
    Program {
        functions: vec![Function {
            body: texts
                .iter()
                .map(|t| Command::PrintLn(t.to_string()))
                .collect(),
        }],
    }
}

fn count_of(haystack: &str, needle: &str) -> usize {
    haystack.matches(needle).count()
}

#[test]
fn c_for_one_print() {
    assert_eq!(
        compile_to_c(&program_of(&["hi"])),
        "#include <stdio.h>\nint main() {\nputs(\"hi\");\n}\n"
    );
}

#[test]
fn c_for_two_prints_keeps_source_order() {
    assert_eq!(
        compile_to_c(&program_of(&["a", "b"])),
        "#include <stdio.h>\nint main() {\nputs(\"a\");\nputs(\"b\");\n}\n"
    );
}

#[test]
fn c_for_empty_body_has_empty_main() {
    assert_eq!(
        compile_to_c(&program_of(&[])),
        "#include <stdio.h>\nint main() {\n}\n"
    );
}

#[test]
fn c_embeds_text_without_escaping() {
    assert_eq!(
        compile_to_c(&program_of(&["a\\nb", "tab\there", "q\"q", "line\nbreak"])),
        "#include <stdio.h>\nint main() {\nputs(\"a\\nb\");\nputs(\"tab\there\");\nputs(\"q\"q\");\nputs(\"line\nbreak\");\n}\n"
    );
}

#[test]
fn c_renders_only_the_first_function() {
    let program = Program {
        functions: vec![
            Function {
                body: vec![Command::PrintLn("first".to_string())],
            },
            Function {
                body: vec![Command::PrintLn("second".to_string())],
            },
        ],
    };
    assert_eq!(
        compile_to_c(&program),
        "#include <stdio.h>\nint main() {\nputs(\"first\");\n}\n"
    );
}

#[test]
fn asm_for_one_print_has_one_call_and_one_string() {
    assert_eq!(
        compile_to_asm(&program_of(&["hi"])),
        ".text\n.global main\nmain:\nmov $str_0, %edi\ncall puts\n.data\nstr_0:\n .asciz \"hi\"\n"
    );
}

#[test]
fn asm_for_two_prints_numbers_labels_in_source_order() {
    let text = compile_to_asm(&program_of(&["a", "b"]));
    assert_eq!(
        text,
        ".text\n.global main\nmain:\nmov $str_0, %edi\ncall puts\nmov $str_1, %edi\ncall puts\n.data\nstr_0:\n .asciz \"a\"\nstr_1:\n .asciz \"b\"\n"
    );
    let (code, data) = text.split_at(text.find(".data\n").unwrap());
    assert!(code.find("$str_0,").unwrap() < code.find("$str_1,").unwrap());
    assert!(data.find("str_0:").unwrap() < data.find("str_1:").unwrap());
    assert!(data.find("str_0:\n .asciz \"a\"\n").is_some());
    assert!(data.find("str_1:\n .asciz \"b\"\n").is_some());
}

#[test]
fn asm_every_label_of_the_data_region_starts_a_line() {
    let text = compile_to_asm(&program_of(&["a", "b"]));
    assert!(text.contains(".asciz \"a\"\nstr_1:\n .asciz \"b\""));
    assert!(text.contains("\n.data\nstr_0:\n"));
    let many = compile_to_asm(&program_of(&["x"; 12]));
    for i in 0..12 {
        assert!(many.contains(&format!("\nstr_{}:\n .asciz \"x\"\n", i)));
    }
    for line in many.lines() {
        assert!(
            line == ".text"
                || line == ".global main"
                || line == "main:"
                || line == ".data"
                || line == "call puts"
                || (line.starts_with("mov $str_") && line.ends_with(", %edi"))
                || (line.starts_with("str_") && line.ends_with(':'))
                || line == " .asciz \"x\""
        );
    }
}

#[test]
fn asm_for_empty_body_has_entry_label_and_no_entries() {
    assert_eq!(
        compile_to_asm(&program_of(&[])),
        ".text\n.global main\nmain:\n.data\n"
    );
}

#[test]
fn asm_code_region_comes_before_data_region() {
    let text = compile_to_asm(&program_of(&["x", "y", "z"]));
    let data_at = text.find(".data\n").unwrap();
    assert!(text.starts_with(".text\n.global main\nmain:\n"));
    assert_eq!(count_of(&text[..data_at], "call puts\n"), 3);
    assert_eq!(count_of(&text[data_at..], "call puts\n"), 0);
    assert_eq!(count_of(&text[..data_at], ".asciz"), 0);
    assert_eq!(count_of(&text[data_at..], ".asciz"), 3);
}

#[test]
fn asm_gives_equal_texts_separate_labels() {
    assert_eq!(
        compile_to_asm(&program_of(&["same", "same"])),
        ".text\n.global main\nmain:\nmov $str_0, %edi\ncall puts\nmov $str_1, %edi\ncall puts\n.data\nstr_0:\n .asciz \"same\"\nstr_1:\n .asciz \"same\"\n"
    );
}

#[test]
fn asm_labels_are_distinct_and_each_is_used_once_per_region() {
    let texts: Vec<String> = (0..123).map(|i| format!("message {}", i)).collect();
    let refs: Vec<&str> = texts.iter().map(|t| t.as_str()).collect();
    let text = compile_to_asm(&program_of(&refs));
    let (code, data) = text.split_at(text.find(".data\n").unwrap());
    for i in 0..123 {
        assert_eq!(count_of(code, &format!("mov $str_{}, %edi\ncall puts\n", i)), 1);
        assert_eq!(count_of(code, &format!("$str_{},", i)), 1);
        assert_eq!(count_of(data, &format!("str_{}:\n", i)), 1);
        assert_eq!(
            count_of(data, &format!("str_{}:\n .asciz \"message {}\"\n", i, i)),
            1
        );
    }
    assert_eq!(count_of(code, "$str_"), 123);
    assert_eq!(count_of(data, "str_"), 123);
    assert_eq!(count_of(&text, "str_123"), 0);
}

#[test]
fn asm_label_numbers_are_plain_decimal() {
    let texts = vec!["t"; 11];
    let text = compile_to_asm(&program_of(&texts));
    assert!(text.contains("mov $str_9, %edi\ncall puts\nmov $str_10, %edi\ncall puts\n"));
    assert!(text.ends_with("str_9:\n .asciz \"t\"\nstr_10:\n .asciz \"t\"\n"));
}

#[test]
fn asm_embeds_text_without_escaping() {
    assert_eq!(
        compile_to_asm(&program_of(&["a\\nb\"c"])),
        ".text\n.global main\nmain:\nmov $str_0, %edi\ncall puts\n.data\nstr_0:\n .asciz \"a\\nb\"c\"\n"
    );
}

#[test]
fn asm_renders_only_the_first_function() {
    let program = Program {
        functions: vec![
            Function { body: vec![] },
            Function {
                body: vec![Command::PrintLn("second".to_string())],
            },
        ],
    };
    assert_eq!(
        compile_to_asm(&program),
        ".text\n.global main\nmain:\n.data\n"
    );
}

#[test]
fn emitters_give_the_same_text_on_every_run() {
    let program = program_of(&["a", "b", "c"]);
    assert_eq!(compile_to_asm(&program), compile_to_asm(&program));
    assert_eq!(compile_to_c(&program), compile_to_c(&program));
    assert_eq!(compile_to_asm(&program), compile_to_asm(&program.clone()));
}

#[test]
fn asm_text_that_spells_a_definition_is_embedded_as_it_is() {
    let text = compile_to_asm(&program_of(&["str_0:"]));
    assert_eq!(
        text,
        ".text\n.global main\nmain:\nmov $str_0, %edi\ncall puts\n.data\nstr_0:\n .asciz \"str_0:\"\n"
    );
    let (code, data) = text.split_at(text.find(".data\n").unwrap());
    assert_eq!(count_of(code, "$str_0,"), 1);
    assert_eq!(count_of(data, "str_0:"), 2);
}

#[test]
fn asm_entries_start_where_the_entries_before_them_end() {
    let whole = compile_to_asm(&program_of(&["a", "bb", "ccc"]));
    let (code, data) = whole.split_at(whole.find(".data\n").unwrap());
    for n in 0..3 {
        let texts = ["a", "bb", "ccc"];
        let shorter = compile_to_asm(&program_of(&texts[..n]));
        let (short_code, short_data) = shorter.split_at(shorter.find(".data\n").unwrap());
        assert_eq!(
            code.find(&format!("$str_{},", n)),
            Some(short_code.len() + 4)
        );
        assert_eq!(data.find(&format!("str_{}:", n)), Some(short_data.len()));
    }
}

#[test]
fn asm_whole_text_holds_each_label_once_as_reference_and_once_as_definition() {
    let texts: Vec<String> = (0..15).map(|i| format!("text number {}", i)).collect();
    let refs: Vec<&str> = texts.iter().map(|t| t.as_str()).collect();
    let text = compile_to_asm(&program_of(&refs));
    for i in 0..15 {
        assert_eq!(count_of(&text, &format!("$str_{}, %edi", i)), 1);
        assert_eq!(count_of(&text, &format!("$str_{},", i)), 1);
        assert_eq!(count_of(&text, &format!("str_{}:", i)), 1);
    }
    assert_eq!(count_of(&text, "str_"), 30);
    assert_eq!(count_of(&text, "$str_15,"), 0);
    assert_eq!(count_of(&text, "str_15:"), 0);
    assert_eq!(count_of(&compile_to_asm(&program_of(&[])), "str_"), 0);
}

#[test]
fn asm_references_lie_before_the_data_header_and_definitions_after_it() {
    let texts = ["zero", "one", "two", "three"];
    let text = compile_to_asm(&program_of(&texts));
    let d = text.find(".data\n").unwrap();
    assert_eq!(count_of(&text, ".data\n"), 1);
    let mut last_reference = 0;
    let mut last_definition = d;
    for i in 0..4 {
        let reference = text.find(&format!("mov $str_{}, %edi", i)).unwrap();
        let definition = text.find(&format!("str_{}:", i)).unwrap();
        assert!(reference < d);
        assert!(definition > d);
        assert!(i == 0 || reference > last_reference);
        assert!(definition > last_definition);
        last_reference = reference;
        last_definition = definition;
        let entry = format!("str_{}:\n .asciz \"{}\"\n", i, texts[i]);
        assert!(text[definition..].starts_with(&entry));
    }
}

#[test]
fn asm_text_that_spells_a_label_shows_up_in_the_counts() {
    let text = compile_to_asm(&program_of(&["$str_0, and str_7: too"]));
    assert_eq!(count_of(&text, "$str_0,"), 2);
    assert_eq!(count_of(&text, "str_7:"), 1);
    assert_eq!(count_of(&text, "str_"), 4);
}
