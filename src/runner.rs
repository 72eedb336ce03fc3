use vstd::prelude::*;

use crate::diagnostic::{Diagnostic, format_line};
use crate::lint::rule::LintError;
use crate::lint::LintEngine;

verus! {

/// Exit code when no issues were found.
pub const SUCCESS: i32 = 0;

/// Exit code when lint errors were found.
pub const LINT_ERROR: i32 = 1;

/// Exit code on an execution error (unreadable file, parse failure).
pub const EXECUTION_ERROR: i32 = 2;

/// The exit code that a lint outcome maps to.
pub open spec fn exit_code_of(outcome: Result<Vec<Diagnostic>, LintError>) -> i32 {
    match outcome {
        Ok(ds) => if ds@.len() == 0 {
            SUCCESS
        } else {
            LINT_ERROR
        },
        Err(_) => EXECUTION_ERROR,
    }
}

/// Whether `lines` are the report lines of `ds`, one per diagnostic, in order.
pub open spec fn is_report(lines: Seq<String>, ds: Seq<Diagnostic>, file_path: Seq<char>) -> bool {
    &&& lines.len() == ds.len()
    &&& forall|k: int| 0 <= k < ds.len() ==> #[trigger] lines[k]@ == format_line(ds[k]@, file_path)
}

/// What one run over a file's text produced.
pub struct RunReport {
    /// The diagnostics found, or why the text could not be linted.
    pub outcome: Result<Vec<Diagnostic>, LintError>,
    /// One line per diagnostic, for standard output.
    pub lines: Vec<String>,
    /// The process exit code.
    pub exit_code: i32,
}

/// Maps a lint outcome to its exit code.
pub fn exit_code_for(outcome: &Result<Vec<Diagnostic>, LintError>) -> (r: i32)
    ensures
        r == exit_code_of(*outcome),
{
    match outcome {
        Ok(ds) => if ds.len() == 0 {
            SUCCESS
        } else {
            LINT_ERROR
        },
        Err(_) => EXECUTION_ERROR,
    }
}

/// Formats each diagnostic for output, in order.
pub fn report_lines(ds: &Vec<Diagnostic>, file_path: &str) -> (r: Vec<String>)
    ensures
        is_report(r@, ds@, file_path@),
{
    let mut lines: Vec<String> = Vec::new();
    let mut i: usize = 0;
    while i < ds.len()
        invariant
            i <= ds@.len(),
            is_report(lines@, ds@.take(i as int), file_path@),
        decreases ds@.len() - i,
    {
        lines.push(ds[i].format(file_path));
        i = i + 1;
    }
    assert(ds@.take(i as int) =~= ds@);
    lines
}

/// Runner: lints one file's text and decides what to print and how to exit.
pub struct Runner {
    engine: LintEngine,
}

impl Runner {
    /// The engine that the runner uses.
    pub closed spec fn engine(&self) -> LintEngine {
        self.engine
    }

    /// Creates a runner with the default lint engine.
    pub fn new() -> (r: Self)
        ensures
            r.engine().rules() == LintEngine::new_rules(),
    {
        Runner { engine: LintEngine::new() }
    }

    /// Lints the text of a file shown as `file_path`: the outcome of the
    /// engine, a report line per diagnostic, and the exit code.
    pub fn run_source(&self, source: &str, file_path: &str) -> (r: RunReport)
        ensures
            r.outcome is Ok,
            r.exit_code == exit_code_of(r.outcome),
            r.outcome matches Ok(ds) ==> is_report(r.lines@, ds@, file_path@),
            r.outcome is Err ==> r.lines@.len() == 0,
            r.outcome matches Ok(ds) ==> exists|ctx: crate::lint::rule::LintContext|
                #![trigger crate::lint::engine_findings(self.engine().rules(), &ctx)]
                ctx.source == source && ctx.wf() && crate::diagnostic::views(ds@)
                    == crate::lint::engine_findings(self.engine().rules(), &ctx),
    {
        let outcome = self.engine.check(source);
        assert(self.engine() == self.engine);
        let lines = match &outcome {
            Ok(ds) => report_lines(ds, file_path),
            Err(_) => Vec::new(),
        };
        let exit_code = exit_code_for(&outcome);
        RunReport { outcome, lines, exit_code }
    }
}

impl Default for Runner {
    fn default() -> (r: Self)
        ensures
            r.engine().rules() == LintEngine::new_rules(),
    {
        Self::new()
    }
}

} // verus!
