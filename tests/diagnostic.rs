use mini_ruff::diagnostic::{decimal_text, Diagnostic};

#[test]
fn test_diagnostic_format() {
    let diag = Diagnostic::new("MR001", "TODO comment found", 10, 5);
    assert_eq!(
        diag.format("example.py"),
        "example.py:10:5 MR001 TODO comment found"
    );
}

#[test]
fn new_keeps_every_field() {
    let diag = Diagnostic::new("MR002", "print() usage is not allowed", 3, 7);
    assert_eq!(diag.rule_id, "MR002");
    assert_eq!(diag.message, "print() usage is not allowed");
    assert_eq!(diag.line, 3);
    assert_eq!(diag.column, 7);
}

#[test]
fn decimal_text_writes_digits() {
    assert_eq!(decimal_text(0), "0");
    assert_eq!(decimal_text(9), "9");
    assert_eq!(decimal_text(10), "10");
    assert_eq!(decimal_text(1203), "1203");
    assert_eq!(decimal_text(usize::MAX), usize::MAX.to_string());
}

#[test]
fn format_with_large_position() {
    let diag = Diagnostic::new("MR002", "msg", 12345, 100);
    assert_eq!(diag.format("a/b.py"), "a/b.py:12345:100 MR002 msg");
}
