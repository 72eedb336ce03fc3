use vstd::prelude::*;

use crate::diagnostic::{Diagnostic, DiagnosticView, views};
use crate::lint::syntax::{parse_python, SyntaxTree};

verus! {

/// Why a file could not be prepared for linting.
#[derive(Debug, Clone, Copy, PartialEq, Eq)]
pub enum LintError {
    /// The parser built no tree from the text.
    ParseFailed,
}

/// Context provided to lint rules: the source text and its parsed tree.
pub struct LintContext<'a> {
    /// Source code content.
    pub source: &'a str,
    /// The parsed tree of `source`.
    pub tree: SyntaxTree,
}

impl<'a> LintContext<'a> {
    /// The tree is well formed.
    pub open spec fn wf(&self) -> bool {
        self.tree.wf()
    }

    /// Parses the source text into a tree. Malformed text still gets a tree,
    /// with error nodes in it; only a text that no tree can be built for
    /// fails, and the Python parser builds one for every text.
    pub fn new(source: &'a str) -> (r: Result<Self, LintError>)
        ensures
            r is Ok,
            r matches Ok(ctx) ==> ctx.source == source && ctx.wf(),
    {
        match parse_python(source) {
            Some(tree) => Ok(LintContext { source, tree: SyntaxTree::from_tree(&tree) }),
            None => Err(LintError::ParseFailed),
        }
    }
}

/// Trait that all lint rules implement.
pub trait Rule {
    /// What the rule reports on a context, in its own order of discovery.
    spec fn findings(&self, ctx: &LintContext) -> Seq<DiagnosticView>;

    /// Returns the unique rule identifier (e.g., "MR001").
    fn id(&self) -> (r: &'static str);

    /// Checks the source code and returns any violations found.
    fn check(&self, ctx: &LintContext) -> (r: Vec<Diagnostic>)
        requires
            ctx.wf(),
        ensures
            views(r@) == self.findings(ctx),
    ;
}

} // verus!
