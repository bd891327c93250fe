use printlnc::CompileError;

#[test]
fn message_names_the_failure_kind() {
    assert_eq!(CompileError::HostParse.message(), "Unable to parse file");
    assert_eq!(
        CompileError::UnsupportedItem.message(),
        "Unexpected item in file"
    );
    assert_eq!(
        CompileError::UnsupportedStatement.message(),
        "Unexpected statement in function"
    );
    assert_eq!(
        CompileError::MissingArgument.message(),
        "Expected argument in function"
    );
}

#[test]
fn message_of_unknown_operation_names_the_operation() {
    assert_eq!(
        CompileError::UnknownOperation("print".to_string()).message(),
        "Unknown macro: print"
    );
    assert_eq!(
        CompileError::UnknownOperation(String::new()).message(),
        "Unknown macro: "
    );
}

#[test]
fn failure_kinds_are_distinguishable() {
    let all = [
        CompileError::HostParse,
        CompileError::UnsupportedItem,
        CompileError::UnsupportedStatement,
        CompileError::UnknownOperation("a".to_string()),
        CompileError::UnknownOperation("b".to_string()),
        CompileError::MissingArgument,
    ];
    for i in 0..all.len() {
        for j in 0..all.len() {
            assert_eq!(all[i] == all[j], i == j);
            assert_eq!(all[i].message() == all[j].message(), i == j);
        }
    }
}
