use mini_ruff::lint::print_call::PrintCallRule;
use mini_ruff::lint::rule::LintContext;
use mini_ruff::lint::todo::TodoRule;
use mini_ruff::lint::{LintEngine, RegisteredRule};
use mini_ruff::runner::{
    exit_code_for, report_lines, Runner, EXECUTION_ERROR, LINT_ERROR, SUCCESS,
};
use mini_ruff::diagnostic::Diagnostic;
use mini_ruff::lint::rule::LintError;

fn both_rules() -> LintEngine {
    LintEngine::with_rules(vec![
        RegisteredRule::Todo(TodoRule),
        RegisteredRule::PrintCall(PrintCallRule),
    ])
}

#[test]
fn test_run_no_issues() {
    let runner = Runner::new();
    let report = runner.run_source("print('hello')\n", "example.py");

    assert_eq!(report.exit_code, SUCCESS);
}

#[test]
fn test_run_with_todo() {
    let runner = Runner::new();
    let report = runner.run_source("# TODO fix this\n", "example.py");

    assert_eq!(report.exit_code, LINT_ERROR);
    assert_eq!(report.lines, vec!["example.py:1:3 MR001 TODO comment found".to_string()]);
}

#[test]
fn end_to_end_todo() {
    let found = LintEngine::new().check("# TODO fix this\n").unwrap();
    assert_eq!(found, vec![Diagnostic::new("MR001", "TODO comment found", 1, 3)]);
}

#[test]
fn end_to_end_print_call() {
    let engine = LintEngine::with_rules(vec![RegisteredRule::PrintCall(PrintCallRule)]);
    let found = engine.check("print(\"hello\")\n").unwrap();
    assert_eq!(found.len(), 1);
    assert_eq!((found[0].rule_id.as_str(), found[0].line, found[0].column), ("MR002", 1, 1));

    let found = engine.check("logger.print(\"msg\")\n").unwrap();
    assert_eq!(found.len(), 0);
}

#[test]
fn end_to_end_two_todo_lines() {
    let found = LintEngine::new().check("# TODO a\nx = 1\n# TODO b\n").unwrap();
    assert_eq!(found.len(), 2);
    assert_eq!(found[0].line, 1);
    assert_eq!(found[1].line, 3);
}

#[test]
fn clean_source_succeeds() {
    let runner = Runner::new();
    let report = runner.run_source("x = 1\ny = x + 2\n", "clean.py");
    assert_eq!(report.outcome, Ok(vec![]));
    assert_eq!(report.exit_code, SUCCESS);
    assert!(report.lines.is_empty());

    let found = both_rules().check("x = 1\nlogger.print(x)\n").unwrap();
    assert!(found.is_empty());
}

#[test]
fn default_engine_ignores_print_calls() {
    let found = LintEngine::default().check("print(1)\n").unwrap();
    assert!(found.is_empty());
}

#[test]
fn rule_order_is_registration_order() {
    let source = "print(1)\n# TODO later\nprint(2)\n";
    let found = both_rules().check(source).unwrap();
    let ids: Vec<&str> = found.iter().map(|d| d.rule_id.as_str()).collect();
    assert_eq!(ids, vec!["MR001", "MR002", "MR002"]);
    assert_eq!(found[0].line, 2);
    assert_eq!((found[1].line, found[2].line), (1, 3));

    let reversed = LintEngine::with_rules(vec![
        RegisteredRule::PrintCall(PrintCallRule),
        RegisteredRule::Todo(TodoRule),
    ]);
    let found = reversed.check(source).unwrap();
    let ids: Vec<&str> = found.iter().map(|d| d.rule_id.as_str()).collect();
    assert_eq!(ids, vec!["MR002", "MR002", "MR001"]);
}

#[test]
fn checking_twice_gives_same_output() {
    let engine = both_rules();
    let source = "print(a)  # TODO\nprint(print(b))\n";
    let first = engine.check(source).unwrap();
    let second = engine.check(source).unwrap();
    assert_eq!(first, second);
    assert_eq!(first.len(), 4);
}

#[test]
fn check_context_matches_check() {
    let source = "# TODO\nprint(1)\n";
    let ctx = LintContext::new(source).unwrap();
    let engine = both_rules();
    assert_eq!(engine.check_context(&ctx), engine.check(source).unwrap());
}

#[test]
fn engine_without_rules_reports_nothing() {
    let engine = LintEngine::with_rules(vec![]);
    assert!(engine.check("# TODO\nprint(1)\n").unwrap().is_empty());
}

#[test]
fn malformed_source_still_parses() {
    let found = both_rules().check("def (:\n  print(\n# TODO\n").unwrap();
    assert!(found.iter().any(|d| d.rule_id == "MR001" && d.line == 3));
}

#[test]
fn exit_codes_are_distinct() {
    assert_eq!(exit_code_for(&Ok(vec![])), SUCCESS);
    assert_eq!(exit_code_for(&Ok(vec![Diagnostic::new("MR001", "m", 1, 1)])), LINT_ERROR);
    assert_eq!(exit_code_for(&Err(LintError::ParseFailed)), EXECUTION_ERROR);
    assert_ne!(SUCCESS, LINT_ERROR);
    assert_ne!(LINT_ERROR, EXECUTION_ERROR);
    assert_ne!(SUCCESS, EXECUTION_ERROR);
}

#[test]
fn report_lines_in_order() {
    let ds = vec![
        Diagnostic::new("MR001", "TODO comment found", 1, 3),
        Diagnostic::new("MR002", "print() usage is not allowed", 2, 1),
    ];
    assert_eq!(
        report_lines(&ds, "f.py"),
        vec![
            "f.py:1:3 MR001 TODO comment found".to_string(),
            "f.py:2:1 MR002 print() usage is not allowed".to_string(),
        ]
    );
}
