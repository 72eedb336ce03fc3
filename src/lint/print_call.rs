use vstd::prelude::*;
use vstd::string::StringSliceAdditionalSpecFns;

use crate::diagnostic::{Diagnostic, DiagnosticView, views};
use crate::lint::rule::{LintContext, Rule};
use crate::lint::syntax::{SyntaxNode, bytes_match_at, same_text};

verus! {

/// Node `i` is a call whose callee is the bare identifier `name`: the callee
/// is an identifier node (not an attribute access), its byte range lies in
/// `src` and holds exactly `name`, and its position can be made one-based.
pub open spec fn is_forbidden_call(ns: Seq<SyntaxNode>, src: Seq<u8>, name: Seq<u8>, i: int) -> bool {
    let f = ns[i].function.unwrap() as int;
    &&& ns[i].kind@ == "call"@
    &&& ns[i].function is Some
    &&& ns[f].kind@ == "identifier"@
    &&& ns[f].start_byte <= ns[f].end_byte <= src.len()
    &&& src.subrange(ns[f].start_byte as int, ns[f].end_byte as int) == name
    &&& ns[f].row < usize::MAX
    &&& ns[f].column < usize::MAX
}

/// The finding reported for the call at node `i`: at its callee's start,
/// one-based.
pub open spec fn call_finding(
    ns: Seq<SyntaxNode>,
    i: int,
    rule_id: Seq<char>,
    message: Seq<char>,
) -> DiagnosticView {
    let f = ns[i].function.unwrap() as int;
    DiagnosticView { rule_id, message, line: (ns[f].row + 1) as nat, column: (ns[f].column + 1) as nat }
}

/// The findings among the first `k` nodes, in the order of the nodes.
pub open spec fn call_findings(
    ns: Seq<SyntaxNode>,
    src: Seq<u8>,
    name: Seq<u8>,
    k: int,
    rule_id: Seq<char>,
    message: Seq<char>,
) -> Seq<DiagnosticView>
    decreases k,
{
    if k <= 0 {
        Seq::empty()
    } else if is_forbidden_call(ns, src, name, k - 1) {
        call_findings(ns, src, name, k - 1, rule_id, message).push(call_finding(ns, k - 1, rule_id, message))
    } else {
        call_findings(ns, src, name, k - 1, rule_id, message)
    }
}

/// What the print-call rule reports on a context: each direct call of the
/// bare name `print`, in the order of a pre-order walk of the tree.
pub open spec fn print_call_findings(ctx: &LintContext) -> Seq<DiagnosticView> {
    call_findings(
        ctx.tree.nodes@,
        ctx.source.spec_bytes(),
        "print".spec_bytes(),
        ctx.tree.nodes@.len() as int,
        "MR002"@,
        "print() usage is not allowed"@,
    )
}

proof fn lemma_no_calls_between(
    ns: Seq<SyntaxNode>,
    src: Seq<u8>,
    name: Seq<u8>,
    lo: int,
    hi: int,
    rule_id: Seq<char>,
    message: Seq<char>,
)
    requires
        0 <= lo <= hi,
        forall|k: int| lo <= k < hi ==> !is_forbidden_call(ns, src, name, k),
    ensures
        call_findings(ns, src, name, hi, rule_id, message) == call_findings(ns, src, name, lo, rule_id, message),
    decreases hi - lo,
{
    if lo < hi {
        lemma_no_calls_between(ns, src, name, lo, hi - 1, rule_id, message);
    }
}

/// A call whose callee is not a bare identifier, such as the attribute access
/// of `obj.name()`, is never reported.
pub proof fn lemma_qualified_callee_not_reported(ns: Seq<SyntaxNode>, src: Seq<u8>, name: Seq<u8>, i: int)
    requires
        ns[i].function matches Some(f) && ns[f as int].kind@ != "identifier"@,
    ensures
        !is_forbidden_call(ns, src, name, i),
{
}

/// A tree without a call of the bare name yields no finding.
pub proof fn lemma_no_call_no_findings(
    ns: Seq<SyntaxNode>,
    src: Seq<u8>,
    name: Seq<u8>,
    n: int,
    rule_id: Seq<char>,
    message: Seq<char>,
)
    requires
        0 <= n,
        forall|k: int| 0 <= k < n ==> !is_forbidden_call(ns, src, name, k),
    ensures
        call_findings(ns, src, name, n, rule_id, message) == Seq::<DiagnosticView>::empty(),
{
    lemma_no_calls_between(ns, src, name, 0, n, rule_id, message);
}

/// Every call of the bare name is reported: no finding means no such call.
pub proof fn lemma_no_findings_no_call(
    ns: Seq<SyntaxNode>,
    src: Seq<u8>,
    name: Seq<u8>,
    n: int,
    rule_id: Seq<char>,
    message: Seq<char>,
)
    requires
        call_findings(ns, src, name, n, rule_id, message).len() == 0,
    ensures
        forall|k: int| 0 <= k < n ==> !is_forbidden_call(ns, src, name, k),
    decreases n,
{
    if n > 0 {
        lemma_no_findings_no_call(ns, src, name, n - 1, rule_id, message);
    }
}

/// The print-call rule reports nothing exactly when no node is a call of the
/// bare name `print`.
pub proof fn lemma_print_findings_empty_iff(ctx: &LintContext)
    ensures
        print_call_findings(ctx).len() == 0 <==> forall|k: int|
            0 <= k < ctx.tree.nodes@.len() ==> !is_forbidden_call(
                ctx.tree.nodes@,
                ctx.source.spec_bytes(),
                "print".spec_bytes(),
                k,
            ),
{
    let ns = ctx.tree.nodes@;
    let src = ctx.source.spec_bytes();
    let n = ns.len() as int;
    if print_call_findings(ctx).len() == 0 {
        lemma_no_findings_no_call(ns, src, "print".spec_bytes(), n, "MR002"@, "print() usage is not allowed"@);
    }
    if forall|k: int| 0 <= k < n ==> !is_forbidden_call(ns, src, "print".spec_bytes(), k) {
        lemma_no_call_no_findings(ns, src, "print".spec_bytes(), n, "MR002"@, "print() usage is not allowed"@);
    }
}

/// A tree with one call of the bare name yields exactly one finding, at the
/// start of its callee.
pub proof fn lemma_single_call(
    ns: Seq<SyntaxNode>,
    src: Seq<u8>,
    name: Seq<u8>,
    n: int,
    i: int,
    rule_id: Seq<char>,
    message: Seq<char>,
)
    requires
        0 <= i < n,
        is_forbidden_call(ns, src, name, i),
        forall|k: int| 0 <= k < n && k != i ==> !is_forbidden_call(ns, src, name, k),
    ensures
        call_findings(ns, src, name, n, rule_id, message) == seq![call_finding(ns, i, rule_id, message)],
{
    lemma_no_calls_between(ns, src, name, 0, i, rule_id, message);
    lemma_no_calls_between(ns, src, name, i + 1, n, rule_id, message);
    assert(Seq::<DiagnosticView>::empty().push(call_finding(ns, i, rule_id, message))
        =~= seq![call_finding(ns, i, rule_id, message)]);
}

/// Two calls of the bare name, nested or one after the other, each yield
/// their own finding, in the order of the nodes.
pub proof fn lemma_two_calls(
    ns: Seq<SyntaxNode>,
    src: Seq<u8>,
    name: Seq<u8>,
    n: int,
    i: int,
    j: int,
    rule_id: Seq<char>,
    message: Seq<char>,
)
    requires
        0 <= i < j < n,
        is_forbidden_call(ns, src, name, i),
        is_forbidden_call(ns, src, name, j),
        forall|k: int| 0 <= k < n && k != i && k != j ==> !is_forbidden_call(ns, src, name, k),
    ensures
        call_findings(ns, src, name, n, rule_id, message) == seq![
            call_finding(ns, i, rule_id, message),
            call_finding(ns, j, rule_id, message),
        ],
{
    lemma_no_calls_between(ns, src, name, 0, i, rule_id, message);
    lemma_no_calls_between(ns, src, name, i + 1, j, rule_id, message);
    lemma_no_calls_between(ns, src, name, j + 1, n, rule_id, message);
    assert(Seq::<DiagnosticView>::empty().push(call_finding(ns, i, rule_id, message)).push(
        call_finding(ns, j, rule_id, message),
    ) =~= seq![call_finding(ns, i, rule_id, message), call_finding(ns, j, rule_id, message)]);
}

/// Reports each call of the bare identifier `name` in the context's tree, in
/// node order, at the callee's one-based row and column.
pub fn find_calls(ctx: &LintContext, name: &str, rule_id: &str, message: &str) -> (r: Vec<Diagnostic>)
    requires
        ctx.wf(),
    ensures
        views(r@) == call_findings(
            ctx.tree.nodes@,
            ctx.source.spec_bytes(),
            name.spec_bytes(),
            ctx.tree.nodes@.len() as int,
            rule_id@,
            message@,
        ),
{
    let src = ctx.source.as_bytes();
    let target = name.as_bytes();
    let ghost ns = ctx.tree.nodes@;
    let n = ctx.tree.nodes.len();
    let mut out: Vec<Diagnostic> = Vec::new();
    let mut i: usize = 0;
    while i < n
        invariant
            i <= n,
            n == ns.len(),
            ns == ctx.tree.nodes@,
            ctx.wf(),
            src@ == ctx.source.spec_bytes(),
            target@ == name.spec_bytes(),
            views(out@) == call_findings(ns, src@, target@, i as int, rule_id@, message@),
        decreases n - i,
    {
        let node = ctx.tree.nodes[i];
        let ghost before = out@;
        assert(crate::lint::syntax::node_wf(ns, i as int));
        if same_text(node.kind, "call") {
            if let Some(f) = node.function {
                let callee = ctx.tree.nodes[f];
                if same_text(callee.kind, "identifier") && callee.start_byte <= callee.end_byte
                    && callee.end_byte <= src.len() && callee.end_byte - callee.start_byte == target.len()
                    && bytes_match_at(src, callee.start_byte, target) && callee.row < usize::MAX
                    && callee.column < usize::MAX {
                    out.push(Diagnostic::new(rule_id, message, callee.row + 1, callee.column + 1));
                    assert(views(out@) =~= views(before).push(call_finding(ns, i as int, rule_id@, message@)));
                }
            }
        }
        i = i + 1;
    }
    out
}

/// Rule to detect direct `print()` calls, so that debug output does not stay
/// in production code. A method call such as `logger.print()` is not one.
///
/// Rule ID: MR002
pub struct PrintCallRule;

impl Rule for PrintCallRule {
    open spec fn findings(&self, ctx: &LintContext) -> Seq<DiagnosticView> {
        print_call_findings(ctx)
    }

    fn id(&self) -> (r: &'static str)
        ensures
            r@ == "MR002"@,
    {
        "MR002"
    }

    fn check(&self, ctx: &LintContext) -> (r: Vec<Diagnostic>) {
        find_calls(ctx, "print", self.id(), "print() usage is not allowed")
    }
}

} // verus!
