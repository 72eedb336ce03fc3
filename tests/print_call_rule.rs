use mini_ruff::lint::print_call::{find_calls, PrintCallRule};
use mini_ruff::lint::rule::{LintContext, Rule};

#[test]
fn test_no_print() {
    let source = "x = 1 + 2\n";
    let ctx = LintContext::new(source).unwrap();
    let rule = PrintCallRule;
    let diagnostics = rule.check(&ctx);

    assert_eq!(diagnostics.len(), 0);
}

#[test]
fn test_print_with_string() {
    let source = "print(\"hello\")\n";
    let ctx = LintContext::new(source).unwrap();
    let rule = PrintCallRule;
    let diagnostics = rule.check(&ctx);

    assert_eq!(diagnostics.len(), 1);
    assert_eq!(diagnostics[0].rule_id, "MR002");
    assert_eq!(diagnostics[0].message, "print() usage is not allowed");
    assert_eq!(diagnostics[0].line, 1);
    assert_eq!(diagnostics[0].column, 1);
}

#[test]
fn test_print_no_args() {
    let source = "print()\n";
    let ctx = LintContext::new(source).unwrap();
    let rule = PrintCallRule;
    let diagnostics = rule.check(&ctx);

    assert_eq!(diagnostics.len(), 1);
}

#[test]
fn test_print_multiple_args() {
    let source = "print(x, y, z)\n";
    let ctx = LintContext::new(source).unwrap();
    let rule = PrintCallRule;
    let diagnostics = rule.check(&ctx);

    assert_eq!(diagnostics.len(), 1);
}

#[test]
fn test_method_call_not_detected() {
    let source = "logger.print(\"msg\")\n";
    let ctx = LintContext::new(source).unwrap();
    let rule = PrintCallRule;
    let diagnostics = rule.check(&ctx);

    assert_eq!(diagnostics.len(), 0);
}

#[test]
fn test_comment_not_detected() {
    let source = "# print(\"debug\")\n";
    let ctx = LintContext::new(source).unwrap();
    let rule = PrintCallRule;
    let diagnostics = rule.check(&ctx);

    assert_eq!(diagnostics.len(), 0);
}

#[test]
fn test_multiple_prints() {
    let source = "print(\"a\")\nprint(\"b\")\n";
    let ctx = LintContext::new(source).unwrap();
    let rule = PrintCallRule;
    let diagnostics = rule.check(&ctx);

    assert_eq!(diagnostics.len(), 2);
    assert_eq!(diagnostics[0].line, 1);
    assert_eq!(diagnostics[1].line, 2);
}

#[test]
fn nested_prints_each_reported_outer_first() {
    let source = "x = 1\nif x:\n    print(print(\"in\"))\n";
    let ctx = LintContext::new(source).unwrap();
    let diagnostics = PrintCallRule.check(&ctx);

    assert_eq!(diagnostics.len(), 2);
    assert_eq!((diagnostics[0].line, diagnostics[0].column), (3, 5));
    assert_eq!((diagnostics[1].line, diagnostics[1].column), (3, 11));
}

#[test]
fn two_prints_on_one_line() {
    let source = "print(1); print(2)\n";
    let ctx = LintContext::new(source).unwrap();
    let diagnostics = PrintCallRule.check(&ctx);

    assert_eq!(diagnostics.len(), 2);
    assert_eq!((diagnostics[0].line, diagnostics[0].column), (1, 1));
    assert_eq!((diagnostics[1].line, diagnostics[1].column), (1, 11));
}

#[test]
fn other_names_and_plain_references_not_detected() {
    let source = "printer(1)\nf = print\nprint_x()\n";
    let ctx = LintContext::new(source).unwrap();
    assert_eq!(PrintCallRule.check(&ctx).len(), 0);
}

#[test]
fn print_as_argument_of_other_call() {
    let source = "log(print(\"x\"))\n";
    let ctx = LintContext::new(source).unwrap();
    let diagnostics = PrintCallRule.check(&ctx);

    assert_eq!(diagnostics.len(), 1);
    assert_eq!((diagnostics[0].line, diagnostics[0].column), (1, 5));
}

#[test]
fn print_call_rule_id() {
    assert_eq!(PrintCallRule.id(), "MR002");
}

#[test]
fn find_calls_with_another_name() {
    let source = "len(x)\nprint(len(y))\n";
    let ctx = LintContext::new(source).unwrap();
    let found = find_calls(&ctx, "len", "R9", "no len");

    assert_eq!(found.len(), 2);
    assert_eq!((found[0].line, found[0].column), (1, 1));
    assert_eq!((found[1].line, found[1].column), (2, 7));
    assert_eq!(found[0].rule_id, "R9");
}

#[test]
fn tree_records_nodes_in_preorder() {
    let source = "print(x)\n";
    let ctx = LintContext::new(source).unwrap();
    let nodes = &ctx.tree.nodes;

    assert_eq!(nodes[0].kind, "module");
    assert_eq!(nodes[0].parent, None);
    for (i, n) in nodes.iter().enumerate().skip(1) {
        assert!(n.parent.unwrap() < i);
    }
    let call = nodes.iter().position(|n| n.kind == "call").unwrap();
    let callee = nodes[call].function.unwrap();
    assert_eq!(nodes[callee].kind, "identifier");
    assert_eq!((nodes[callee].start_byte, nodes[callee].end_byte), (0, 5));
}
