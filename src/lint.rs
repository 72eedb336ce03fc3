use vstd::prelude::*;
use vstd::string::StringSliceAdditionalSpecFns;

pub mod print_call;
pub mod rule;
pub mod syntax;
pub mod todo;

use crate::diagnostic::{Diagnostic, DiagnosticView, views};
use crate::lint::print_call::{PrintCallRule, is_forbidden_call, lemma_no_call_no_findings};
use crate::lint::rule::{LintContext, LintError, Rule};
use crate::runner::{SUCCESS, exit_code_of};
use crate::lint::todo::{TodoRule, lemma_no_marker_no_findings, occurs_at, todo_findings};

verus! {

/// A rule that an engine can hold.
pub enum RegisteredRule {
    Todo(TodoRule),
    PrintCall(PrintCallRule),
}

impl Rule for RegisteredRule {
    open spec fn findings(&self, ctx: &LintContext) -> Seq<DiagnosticView> {
        match self {
            RegisteredRule::Todo(r) => r.findings(ctx),
            RegisteredRule::PrintCall(r) => r.findings(ctx),
        }
    }

    fn id(&self) -> (r: &'static str)
        ensures
            self is Todo ==> r@ == "MR001"@,
            self is PrintCall ==> r@ == "MR002"@,
    {
        match self {
            RegisteredRule::Todo(r) => r.id(),
            RegisteredRule::PrintCall(r) => r.id(),
        }
    }

    fn check(&self, ctx: &LintContext) -> (r: Vec<Diagnostic>) {
        match self {
            RegisteredRule::Todo(r) => r.check(ctx),
            RegisteredRule::PrintCall(r) => r.check(ctx),
        }
    }
}

/// The findings of the rules in order: all those of the first rule, then all
/// those of the second, and so on.
pub open spec fn engine_findings(rules: Seq<RegisteredRule>, ctx: &LintContext) -> Seq<DiagnosticView>
    decreases rules.len(),
{
    if rules.len() == 0 {
        Seq::empty()
    } else {
        engine_findings(rules.drop_last(), ctx) + rules.last().findings(ctx)
    }
}

/// Rules registered one list after another report in that order: all the
/// findings of the first list precede all those of the second.
pub proof fn lemma_engine_concat(first: Seq<RegisteredRule>, second: Seq<RegisteredRule>, ctx: &LintContext)
    ensures
        engine_findings(first + second, ctx) == engine_findings(first, ctx) + engine_findings(second, ctx),
    decreases second.len(),
{
    if second.len() == 0 {
        assert(first + second =~= first);
        assert(engine_findings(first, ctx) + Seq::<DiagnosticView>::empty() =~= engine_findings(first, ctx));
    } else {
        assert((first + second).drop_last() =~= first + second.drop_last());
        assert((first + second).last() == second.last());
        lemma_engine_concat(first, second.drop_last(), ctx);
        assert(engine_findings(first + second, ctx) =~= engine_findings(first, ctx) + engine_findings(second, ctx));
    }
}

/// With two rules registered in order [a, b], all of a's findings precede all
/// of b's.
pub proof fn lemma_registration_order(a: RegisteredRule, b: RegisteredRule, ctx: &LintContext)
    ensures
        engine_findings(seq![a, b], ctx) == a.findings(ctx) + b.findings(ctx),
{
    assert(seq![a, b].drop_last() =~= seq![a]);
    assert(seq![a].drop_last() =~= Seq::<RegisteredRule>::empty());
    assert(engine_findings(Seq::<RegisteredRule>::empty(), ctx) == Seq::<DiagnosticView>::empty());
    assert(engine_findings(seq![a], ctx) == engine_findings(Seq::<RegisteredRule>::empty(), ctx) + a.findings(ctx));
    assert(Seq::<DiagnosticView>::empty() + a.findings(ctx) =~= a.findings(ctx));
    assert(engine_findings(seq![a, b], ctx) == engine_findings(seq![a], ctx) + b.findings(ctx));
}

/// Two contexts with the same text and the same tree get the same findings,
/// in the same order.
pub proof fn lemma_same_context_same_findings(rules: Seq<RegisteredRule>, c1: &LintContext, c2: &LintContext)
    requires
        c1.source@ == c2.source@,
        c1.tree.nodes@ == c2.tree.nodes@,
    ensures
        engine_findings(rules, c1) == engine_findings(rules, c2),
    decreases rules.len(),
{
    if rules.len() > 0 {
        lemma_same_context_same_findings(rules.drop_last(), c1, c2);
    }
}

/// The default rules read the text alone: two contexts with the same text get
/// the same findings whatever their trees, so checking a text twice gives the
/// same diagnostics in the same order.
pub proof fn lemma_default_rules_repeatable(c1: &LintContext, c2: &LintContext)
    requires
        c1.source@ == c2.source@,
    ensures
        engine_findings(LintEngine::new_rules(), c1) == engine_findings(LintEngine::new_rules(), c2),
        engine_findings(LintEngine::new_rules(), c1) == todo_findings(c1.source),
{
    let rules = LintEngine::new_rules();
    assert(rules.drop_last() =~= Seq::<RegisteredRule>::empty());
    assert(rules.last() == RegisteredRule::Todo(TodoRule));
    assert(engine_findings(Seq::<RegisteredRule>::empty(), c1) == Seq::<DiagnosticView>::empty());
    assert(engine_findings(Seq::<RegisteredRule>::empty(), c2) == Seq::<DiagnosticView>::empty());
    assert(c1.source.spec_bytes() == c2.source.spec_bytes());
    assert(Seq::<DiagnosticView>::empty() + todo_findings(c1.source) =~= todo_findings(c1.source));
    assert(Seq::<DiagnosticView>::empty() + todo_findings(c2.source) =~= todo_findings(c2.source));
}

/// A text with no "TODO" and a tree with no direct `print` call get no
/// findings from any set of rules, and so the success exit code.
pub proof fn lemma_clean_source_no_findings(rules: Seq<RegisteredRule>, ctx: &LintContext)
    requires
        forall|k: int| !occurs_at(ctx.source.spec_bytes(), "TODO".spec_bytes(), k),
        forall|k: int|
            0 <= k < ctx.tree.nodes@.len() ==> !is_forbidden_call(
                ctx.tree.nodes@,
                ctx.source.spec_bytes(),
                "print".spec_bytes(),
                k,
            ),
    ensures
        engine_findings(rules, ctx) == Seq::<DiagnosticView>::empty(),
        forall|ds: Vec<Diagnostic>|
            views(ds@) == engine_findings(rules, ctx) ==> #[trigger] exit_code_of(Ok(ds)) == SUCCESS,
    decreases rules.len(),
{
    assert forall|ds: Vec<Diagnostic>|
        views(ds@) == Seq::<DiagnosticView>::empty() implies #[trigger] exit_code_of(Ok(ds)) == SUCCESS by {
        assert(views(ds@).len() == ds@.len());
    }
    if rules.len() > 0 {
        lemma_clean_source_no_findings(rules.drop_last(), ctx);
        lemma_no_marker_no_findings(
            ctx.source.spec_bytes(),
            "TODO".spec_bytes(),
            0,
            "MR001"@,
            "TODO comment found"@,
        );
        lemma_no_call_no_findings(
            ctx.tree.nodes@,
            ctx.source.spec_bytes(),
            "print".spec_bytes(),
            ctx.tree.nodes@.len() as int,
            "MR002"@,
            "print() usage is not allowed"@,
        );
        assert(Seq::<DiagnosticView>::empty() + Seq::<DiagnosticView>::empty() =~= Seq::<DiagnosticView>::empty());
    }
}

/// Lint engine that runs all registered rules.
pub struct LintEngine {
    rules: Vec<RegisteredRule>,
}

impl LintEngine {
    /// The registered rules, in registration order.
    pub closed spec fn rules(&self) -> Seq<RegisteredRule> {
        self.rules@
    }

    /// The default rules: the TODO rule alone.
    pub open spec fn new_rules() -> Seq<RegisteredRule> {
        seq![RegisteredRule::Todo(TodoRule)]
    }

    /// Creates a lint engine with the default rules.
    pub fn new() -> (r: Self)
        ensures
            r.rules() == Self::new_rules(),
    {
        let mut rules: Vec<RegisteredRule> = Vec::new();
        rules.push(RegisteredRule::Todo(TodoRule));
        LintEngine { rules }
    }

    /// Creates a lint engine that runs the given rules in the given order.
    pub fn with_rules(rules: Vec<RegisteredRule>) -> (r: Self)
        ensures
            r.rules() == rules@,
    {
        LintEngine { rules }
    }

    /// Runs every rule on one context, in registration order, and
    /// concatenates what they report.
    pub fn check_context(&self, ctx: &LintContext) -> (r: Vec<Diagnostic>)
        requires
            ctx.wf(),
        ensures
            views(r@) == engine_findings(self.rules(), ctx),
    {
        let mut out: Vec<Diagnostic> = Vec::new();
        let mut i: usize = 0;
        while i < self.rules.len()
            invariant
                i <= self.rules@.len(),
                ctx.wf(),
                views(out@) == engine_findings(self.rules@.take(i as int), ctx),
            decreases self.rules@.len() - i,
        {
            let mut found = self.rules[i].check(ctx);
            let ghost before = out@;
            let ghost added = found@;
            out.append(&mut found);
            assert(self.rules@.take(i + 1).drop_last() =~= self.rules@.take(i as int));
            assert(views(out@) =~= views(before) + views(added));
            i = i + 1;
        }
        assert(self.rules@.take(i as int) =~= self.rules@);
        out
    }

    /// Parses the source text once and runs all rules against it. Fails only
    /// when the text cannot be parsed into any tree, which the Python parser
    /// never does.
    pub fn check(&self, source: &str) -> (r: Result<Vec<Diagnostic>, LintError>)
        ensures
            r is Ok,
            r matches Ok(ds) ==> exists|ctx: LintContext|
                #![trigger engine_findings(self.rules(), &ctx)]
                ctx.source == source && ctx.wf() && views(ds@) == engine_findings(self.rules(), &ctx),
    {
        match LintContext::new(source) {
            Ok(ctx) => {
                let ds = self.check_context(&ctx);
                Ok(ds)
            },
            Err(e) => Err(e),
        }
    }
}

impl Default for LintEngine {
    fn default() -> (r: Self)
        ensures
            r.rules() == Self::new_rules(),
    {
        Self::new()
    }
}

} // verus!
