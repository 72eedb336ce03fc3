use mini_ruff::lint::rule::{LintContext, Rule};
use mini_ruff::lint::todo::{marker_diagnostics, TodoRule};

#[test]
fn test_no_todo() {
    let source = "print(\"hello\")\nx = 1\n";
    let ctx = LintContext::new(source).unwrap();
    let rule = TodoRule;
    let diagnostics = rule.check(&ctx);

    assert_eq!(diagnostics.len(), 0);
}

#[test]
fn test_single_todo() {
    let source = "# TODO fix this\nprint(\"hello\")\n";
    let ctx = LintContext::new(source).unwrap();
    let rule = TodoRule;
    let diagnostics = rule.check(&ctx);

    assert_eq!(diagnostics.len(), 1);
    assert_eq!(diagnostics[0].rule_id, "MR001");
    assert_eq!(diagnostics[0].message, "TODO comment found");
    assert_eq!(diagnostics[0].line, 1);
    assert_eq!(diagnostics[0].column, 3);
}

#[test]
fn test_multiple_todos() {
    let source = "# TODO a\nx = 1\n# TODO b\n";
    let ctx = LintContext::new(source).unwrap();
    let rule = TodoRule;
    let diagnostics = rule.check(&ctx);

    assert_eq!(diagnostics.len(), 2);
    assert_eq!(diagnostics[0].line, 1);
    assert_eq!(diagnostics[1].line, 3);
}

#[test]
fn test_lowercase_todo_not_detected() {
    let source = "# todo fix this\n";
    let ctx = LintContext::new(source).unwrap();
    let rule = TodoRule;
    let diagnostics = rule.check(&ctx);

    assert_eq!(diagnostics.len(), 0);
}

#[test]
fn test_todo_with_colon() {
    let source = "# TODO: implement this feature\n";
    let ctx = LintContext::new(source).unwrap();
    let rule = TodoRule;
    let diagnostics = rule.check(&ctx);

    assert_eq!(diagnostics.len(), 1);
    assert_eq!(diagnostics[0].line, 1);
}

#[test]
fn todo_twice_on_one_line_reported_once() {
    let source = "x = 1  # TODO one TODO two\n";
    let ctx = LintContext::new(source).unwrap();
    let diagnostics = TodoRule.check(&ctx);

    assert_eq!(diagnostics.len(), 1);
    assert_eq!(diagnostics[0].line, 1);
    assert_eq!(diagnostics[0].column, 10);
}

#[test]
fn todo_inside_string_and_identifier_is_reported() {
    let source = "x = \"TODO123\"\nTODOS = 2\n";
    let ctx = LintContext::new(source).unwrap();
    let diagnostics = TodoRule.check(&ctx);

    assert_eq!(diagnostics.len(), 2);
    assert_eq!((diagnostics[0].line, diagnostics[0].column), (1, 6));
    assert_eq!((diagnostics[1].line, diagnostics[1].column), (2, 1));
}

#[test]
fn todo_on_last_line_without_newline() {
    let source = "x = 1\n\n\n    # TODO";
    let ctx = LintContext::new(source).unwrap();
    let diagnostics = TodoRule.check(&ctx);

    assert_eq!(diagnostics.len(), 1);
    assert_eq!((diagnostics[0].line, diagnostics[0].column), (4, 7));
}

#[test]
fn todo_with_crlf_line_endings() {
    let source = "a = 1\r\n# TODO x\r\n";
    let ctx = LintContext::new(source).unwrap();
    let diagnostics = TodoRule.check(&ctx);

    assert_eq!(diagnostics.len(), 1);
    assert_eq!((diagnostics[0].line, diagnostics[0].column), (2, 3));
}

#[test]
fn empty_source_has_no_todo() {
    let ctx = LintContext::new("").unwrap();
    assert_eq!(TodoRule.check(&ctx).len(), 0);
}

#[test]
fn todo_rule_id() {
    assert_eq!(TodoRule.id(), "MR001");
}

#[test]
fn marker_diagnostics_reports_first_match_per_line() {
    let found = marker_diagnostics("ab ab\nb\nxab\n", "ab", "R", "m");
    assert_eq!(found.len(), 2);
    assert_eq!((found[0].line, found[0].column), (1, 1));
    assert_eq!((found[1].line, found[1].column), (3, 2));
    assert_eq!(found[1].rule_id, "R");
    assert_eq!(found[1].message, "m");
}

#[test]
fn todo_column_counts_characters() {
    let source = "\u{e9} TODO\n# \u{4e2d}\u{6587} TODO x\n";
    let ctx = LintContext::new(source).unwrap();
    let diagnostics = TodoRule.check(&ctx);

    assert_eq!(diagnostics.len(), 2);
    assert_eq!((diagnostics[0].line, diagnostics[0].column), (1, 3));
    assert_eq!((diagnostics[1].line, diagnostics[1].column), (2, 6));
}
