use vstd::prelude::*;
use vstd::string::{StringSliceAdditionalSpecFns, is_ascii};

use crate::diagnostic::{Diagnostic, DiagnosticView, views};
use crate::lint::rule::{LintContext, Rule};
use crate::lint::syntax::bytes_match_at;

verus! {

/// The byte that ends a line.
pub const NEWLINE: u8 = 10;

/// Length of the first line of `s`: the bytes before the first newline.
pub open spec fn line_len(s: Seq<u8>) -> nat
    decreases s.len(),
{
    if s.len() == 0 || s[0] == NEWLINE {
        0
    } else {
        1 + line_len(s.drop_first())
    }
}

/// Whether byte `b` starts a character in UTF-8 (is not a continuation byte).
pub open spec fn starts_char(b: u8) -> bool {
    b < 128 || b >= 192
}

/// The number of characters in the UTF-8 text `s`: its bytes that start one.
pub open spec fn char_count(s: Seq<u8>) -> nat
    decreases s.len(),
{
    if s.len() == 0 {
        0
    } else {
        char_count(s.drop_last()) + if starts_char(s.last()) {
            1nat
        } else {
            0nat
        }
    }
}

/// Offset of the first occurrence of `m` in `s`, if any.
pub open spec fn first_match(s: Seq<u8>, m: Seq<u8>) -> Option<nat>
    decreases s.len(),
{
    if m.len() > s.len() {
        None
    } else if s.take(m.len() as int) == m {
        Some(0)
    } else if s.len() == 0 {
        None
    } else {
        match first_match(s.drop_first(), m) {
            Some(j) => Some(j + 1),
            None => None,
        }
    }
}

/// One finding of a text rule at a one-based line and column.
pub open spec fn finding(rule_id: Seq<char>, message: Seq<char>, line: nat, column: nat) -> DiagnosticView {
    DiagnosticView { rule_id, message, line, column }
}

/// The findings on the lines of `rest`, whose first line is the zero-based
/// line `line` of the text: for each line holding `m`, one finding at its
/// first occurrence, whose column is one more than the number of characters
/// before it on the line.
pub open spec fn marker_findings(
    rest: Seq<u8>,
    m: Seq<u8>,
    line: nat,
    rule_id: Seq<char>,
    message: Seq<char>,
) -> Seq<DiagnosticView>
    decreases rest.len(),
{
    let end = line_len(rest);
    let here = match first_match(rest.take(end as int), m) {
        Some(j) => seq![finding(rule_id, message, line + 1, char_count(rest.take(j as int)) + 1)],
        None => Seq::empty(),
    };
    if end < rest.len() {
        here + marker_findings(rest.skip(end + 1int), m, line + 1, rule_id, message)
    } else {
        here
    }
}

/// What the TODO rule reports on a source text.
pub open spec fn todo_findings(source: &str) -> Seq<DiagnosticView> {
    marker_findings(source.spec_bytes(), "TODO".spec_bytes(), 0, "MR001"@, "TODO comment found"@)
}

/// `m` occurs in `s` at offset `k`.
pub open spec fn occurs_at(s: Seq<u8>, m: Seq<u8>, k: int) -> bool {
    0 <= k && k + m.len() <= s.len() && s.subrange(k, k + m.len()) == m
}

proof fn lemma_line_len_bound(s: Seq<u8>)
    ensures
        line_len(s) <= s.len(),
        line_len(s) < s.len() ==> s[line_len(s) as int] == NEWLINE,
        forall|k: int| 0 <= k < line_len(s) ==> s[k] != NEWLINE,
    decreases s.len(),
{
    if s.len() > 0 && s[0] != NEWLINE {
        lemma_line_len_bound(s.drop_first());
        assert forall|k: int| 0 <= k < line_len(s) implies s[k] != NEWLINE by {
            if k > 0 {
                assert(s[k] == s.drop_first()[k - 1]);
            }
        }
    }
}

proof fn lemma_line_len_of_line(text: Seq<u8>, tail: Seq<u8>)
    requires
        forall|k: int| 0 <= k < text.len() ==> text[k] != NEWLINE,
    ensures
        line_len(text + tail) == text.len() + line_len(tail),
    decreases text.len(),
{
    if text.len() > 0 {
        assert((text + tail).drop_first() =~= text.drop_first() + tail);
        lemma_line_len_of_line(text.drop_first(), tail);
    } else {
        assert(text + tail =~= tail);
    }
}

proof fn lemma_first_match_at(s: Seq<u8>, m: Seq<u8>, j: int)
    requires
        occurs_at(s, m, j),
        forall|k: int| 0 <= k < j ==> !occurs_at(s, m, k),
    ensures
        first_match(s, m) == Some(j as nat),
    decreases j,
{
    if j == 0 {
        assert(s.take(m.len() as int) =~= s.subrange(0, m.len() as int));
    } else {
        assert(!occurs_at(s, m, 0));
        assert(s.take(m.len() as int) =~= s.subrange(0, m.len() as int));
        let t = s.drop_first();
        assert(t.subrange(j - 1, j - 1 + m.len()) =~= s.subrange(j, j + m.len()));
        assert forall|k: int| 0 <= k < j - 1 implies !occurs_at(t, m, k) by {
            assert(t.subrange(k, k + m.len()) =~= s.subrange(k + 1, k + 1 + m.len()));
            assert(!occurs_at(s, m, k + 1));
        }
        lemma_first_match_at(t, m, j - 1);
    }
}

proof fn lemma_first_match_bound(s: Seq<u8>, m: Seq<u8>)
    ensures
        first_match(s, m) matches Some(j) ==> j + m.len() <= s.len(),
    decreases s.len(),
{
    if m.len() <= s.len() && s.take(m.len() as int) != m && s.len() > 0 {
        lemma_first_match_bound(s.drop_first(), m);
    }
}

proof fn lemma_first_match_none(s: Seq<u8>, m: Seq<u8>)
    requires
        forall|k: int| !occurs_at(s, m, k),
    ensures
        first_match(s, m) is None,
    decreases s.len(),
{
    if m.len() <= s.len() {
        assert(!occurs_at(s, m, 0));
        assert(s.take(m.len() as int) =~= s.subrange(0, m.len() as int));
        if s.len() > 0 {
            let t = s.drop_first();
            assert forall|k: int| !occurs_at(t, m, k) by {
                if 0 <= k && k + m.len() <= t.len() {
                    assert(t.subrange(k, k + m.len()) =~= s.subrange(k + 1, k + 1 + m.len()));
                    assert(!occurs_at(s, m, k + 1));
                }
            }
            lemma_first_match_none(t, m);
        }
    }
}

proof fn lemma_first_match_some(s: Seq<u8>, m: Seq<u8>, k: int)
    requires
        occurs_at(s, m, k),
    ensures
        first_match(s, m) is Some,
    decreases k,
{
    assert(s.take(m.len() as int) =~= s.subrange(0, m.len() as int));
    if k > 0 && s.take(m.len() as int) != m {
        let t = s.drop_first();
        assert(t.subrange(k - 1, k - 1 + m.len()) =~= s.subrange(k, k + m.len()));
        lemma_first_match_some(t, m, k - 1);
    }
}

/// A marker free of newlines that occurs in the text yields a finding: no
/// finding means no occurrence.
pub proof fn lemma_no_findings_no_marker(
    rest: Seq<u8>,
    m: Seq<u8>,
    line: nat,
    rule_id: Seq<char>,
    message: Seq<char>,
    k: int,
)
    requires
        forall|t: int| 0 <= t < m.len() ==> m[t] != NEWLINE,
        occurs_at(rest, m, k),
    ensures
        marker_findings(rest, m, line, rule_id, message).len() > 0,
    decreases rest.len(),
{
    lemma_line_len_bound(rest);
    let end = line_len(rest) as int;
    let text = rest.take(end);
    if k + m.len() <= end {
        assert(text.subrange(k, k + m.len()) =~= rest.subrange(k, k + m.len()));
        lemma_first_match_some(text, m, k);
    } else if k <= end && end < k + m.len() {
        if end < rest.len() {
            assert(rest.subrange(k, k + m.len())[end - k] == rest[end]);
            assert(m[end - k] == NEWLINE);
        }
    } else {
        let next = rest.skip(end + 1);
        assert(next.subrange(k - end - 1, k - end - 1 + m.len()) =~= rest.subrange(k, k + m.len()));
        lemma_no_findings_no_marker(next, m, line + 1, rule_id, message, k - end - 1);
    }
}

/// The TODO rule reports nothing exactly when the text holds no "TODO".
pub proof fn lemma_todo_findings_empty_iff(source: &str)
    ensures
        todo_findings(source).len() == 0 <==> forall|k: int| !occurs_at(source.spec_bytes(), "TODO".spec_bytes(), k),
{
    broadcast use vstd::string::is_ascii_spec_bytes;

    reveal_strlit("TODO");
    let m = "TODO".spec_bytes();
    assert(is_ascii("TODO"));
    assert(m =~= seq![84u8, 79u8, 68u8, 79u8]);
    if forall|k: int| !occurs_at(source.spec_bytes(), m, k) {
        lemma_no_marker_no_findings(source.spec_bytes(), m, 0, "MR001"@, "TODO comment found"@);
    } else {
        let k = choose|k: int| occurs_at(source.spec_bytes(), m, k);
        lemma_no_findings_no_marker(source.spec_bytes(), m, 0, "MR001"@, "TODO comment found"@, k);
    }
}

/// A text in which `m` never occurs yields no finding.
pub proof fn lemma_no_marker_no_findings(
    rest: Seq<u8>,
    m: Seq<u8>,
    line: nat,
    rule_id: Seq<char>,
    message: Seq<char>,
)
    requires
        forall|k: int| !occurs_at(rest, m, k),
    ensures
        marker_findings(rest, m, line, rule_id, message) == Seq::<DiagnosticView>::empty(),
    decreases rest.len(),
{
    lemma_line_len_bound(rest);
    let end = line_len(rest) as int;
    let text = rest.take(end);
    assert forall|k: int| !occurs_at(text, m, k) by {
        if 0 <= k && k + m.len() <= text.len() {
            assert(text.subrange(k, k + m.len()) =~= rest.subrange(k, k + m.len()));
            assert(!occurs_at(rest, m, k));
        }
    }
    lemma_first_match_none(text, m);
    if end < rest.len() {
        let next = rest.skip(end + 1);
        assert forall|k: int| !occurs_at(next, m, k) by {
            if 0 <= k && k + m.len() <= next.len() {
                assert(next.subrange(k, k + m.len()) =~= rest.subrange(k + end + 1, k + end + 1 + m.len()));
                assert(!occurs_at(rest, m, k + end + 1));
            }
        }
        lemma_no_marker_no_findings(next, m, line + 1, rule_id, message);
        assert(Seq::<DiagnosticView>::empty() + Seq::<DiagnosticView>::empty() =~= Seq::<DiagnosticView>::empty());
    }
}

/// A line whose first occurrence of `m` is at byte offset `j` yields exactly
/// one finding, at line `line + 1` and at the column after the characters
/// that precede offset `j`, however often `m`
/// occurs later on that line; the lines after it are reported after it.
pub proof fn lemma_marker_line(
    text: Seq<u8>,
    more: Seq<u8>,
    m: Seq<u8>,
    line: nat,
    j: int,
    rule_id: Seq<char>,
    message: Seq<char>,
)
    requires
        forall|k: int| 0 <= k < text.len() ==> text[k] != NEWLINE,
        occurs_at(text, m, j),
        forall|k: int| 0 <= k < j ==> !occurs_at(text, m, k),
    ensures
        marker_findings(text + seq![NEWLINE] + more, m, line, rule_id, message)
            == seq![finding(rule_id, message, line + 1, char_count(text.take(j)) + 1)]
            + marker_findings(more, m, line + 1, rule_id, message),
        marker_findings(text, m, line, rule_id, message)
            == seq![finding(rule_id, message, line + 1, char_count(text.take(j)) + 1)],
{
    let rest = text + seq![NEWLINE] + more;
    lemma_line_len_of_line(text, seq![NEWLINE] + more);
    assert(rest =~= text + (seq![NEWLINE] + more));
    assert(line_len(seq![NEWLINE] + more) == 0);
    assert(rest.take(text.len() as int) =~= text);
    assert(rest.skip(text.len() + 1int) =~= more);
    lemma_first_match_at(text, m, j);
    assert(rest.take(j) =~= text.take(j));
    lemma_line_len_of_line(text, Seq::empty());
    assert(text + Seq::<u8>::empty() =~= text);
    assert(text.take(text.len() as int) =~= text);
}

/// Findings come in strictly increasing line order, so no line is reported
/// twice, and none comes before the text's first line.
pub proof fn lemma_one_finding_per_line(
    rest: Seq<u8>,
    m: Seq<u8>,
    line: nat,
    rule_id: Seq<char>,
    message: Seq<char>,
)
    ensures
        forall|a: int| 0 <= a < marker_findings(rest, m, line, rule_id, message).len()
            ==> #[trigger] marker_findings(rest, m, line, rule_id, message)[a].line > line,
        forall|a: int, b: int| 0 <= a < b < marker_findings(rest, m, line, rule_id, message).len()
            ==> #[trigger] marker_findings(rest, m, line, rule_id, message)[a].line
                < #[trigger] marker_findings(rest, m, line, rule_id, message)[b].line,
    decreases rest.len(),
{
    lemma_line_len_bound(rest);
    let end = line_len(rest) as int;
    let here = match first_match(rest.take(end), m) {
        Some(j) => seq![finding(rule_id, message, line + 1, char_count(rest.take(j as int)) + 1)],
        None => Seq::empty(),
    };
    if end < rest.len() {
        let next = rest.skip(end + 1);
        let tail = marker_findings(next, m, line + 1, rule_id, message);
        lemma_one_finding_per_line(next, m, line + 1, rule_id, message);
        let all = marker_findings(rest, m, line, rule_id, message);
        assert(all == here + tail);
        assert forall|a: int| 0 <= a < all.len() implies #[trigger] all[a].line > line by {
            if a >= here.len() {
                assert(all[a] == tail[a - here.len()]);
            }
        }
        assert forall|a: int, b: int| 0 <= a < b < all.len() implies #[trigger] all[a].line < #[trigger] all[b].line by {
            if a >= here.len() {
                assert(all[a] == tail[a - here.len()]);
                assert(all[b] == tail[b - here.len()]);
            } else {
                assert(all[b] == tail[b - here.len()]);
                assert(tail[b - here.len()].line > line + 1);
            }
        }
    }
}

/// The lines of `lines` joined into one text, each line followed by a newline.
pub open spec fn joined(lines: Seq<Seq<u8>>) -> Seq<u8>
    decreases lines.len(),
{
    if lines.len() == 0 {
        Seq::empty()
    } else {
        lines[0] + seq![NEWLINE] + joined(lines.drop_first())
    }
}

proof fn lemma_line_split(
    text: Seq<u8>,
    more: Seq<u8>,
    m: Seq<u8>,
    line: nat,
    rule_id: Seq<char>,
    message: Seq<char>,
)
    requires
        forall|k: int| 0 <= k < text.len() ==> text[k] != NEWLINE,
    ensures
        marker_findings(text + seq![NEWLINE] + more, m, line, rule_id, message)
            == marker_findings(text, m, line, rule_id, message) + marker_findings(more, m, line + 1, rule_id, message),
        forall|a: int| 0 <= a < marker_findings(text, m, line, rule_id, message).len()
            ==> #[trigger] marker_findings(text, m, line, rule_id, message)[a].line == line + 1,
{
    let rest = text + seq![NEWLINE] + more;
    lemma_line_len_of_line(text, seq![NEWLINE] + more);
    assert(rest =~= text + (seq![NEWLINE] + more));
    assert(line_len(seq![NEWLINE] + more) == 0);
    assert(rest.take(text.len() as int) =~= text);
    assert(rest.skip(text.len() + 1int) =~= more);
    lemma_first_match_bound(text, m);
    if let Some(j) = first_match(text, m) {
        assert(rest.take(j as int) =~= text.take(j as int));
        assert(text.take(text.len() as int).take(j as int) =~= text.take(j as int));
    }
    lemma_line_len_of_line(text, Seq::empty());
    assert(text + Seq::<u8>::empty() =~= text);
    assert(text.take(text.len() as int) =~= text);
}

proof fn lemma_joined_prefix(
    lines: Seq<Seq<u8>>,
    rest: Seq<u8>,
    m: Seq<u8>,
    line: nat,
    rule_id: Seq<char>,
    message: Seq<char>,
) -> (before: Seq<DiagnosticView>)
    requires
        forall|k: int, t: int| 0 <= k < lines.len() && 0 <= t < lines[k].len() ==> #[trigger] lines[k][t] != NEWLINE,
    ensures
        marker_findings(joined(lines) + rest, m, line, rule_id, message)
            == before + marker_findings(rest, m, line + lines.len(), rule_id, message),
        forall|a: int| 0 <= a < before.len() ==> #[trigger] before[a].line <= line + lines.len(),
    decreases lines.len(),
{
    if lines.len() == 0 {
        assert(joined(lines) + rest =~= rest);
        Seq::empty()
    } else {
        let first = lines[0];
        let others = lines.drop_first();
        assert forall|k: int, t: int| 0 <= k < others.len() && 0 <= t < others[k].len() implies #[trigger] others[k][t] != NEWLINE by {
            assert(others[k] == lines[k + 1]);
        }
        assert forall|t: int| 0 <= t < first.len() implies first[t] != NEWLINE by {
            assert(lines[0][t] != NEWLINE);
        }
        let later = lemma_joined_prefix(others, rest, m, line + 1, rule_id, message);
        assert(joined(lines) + rest =~= first + seq![NEWLINE] + (joined(others) + rest));
        lemma_line_split(first, joined(others) + rest, m, line, rule_id, message);
        let here = marker_findings(first, m, line, rule_id, message);
        let before = here + later;
        assert(here + marker_findings(joined(others) + rest, m, line + 1, rule_id, message)
            =~= before + marker_findings(rest, m, line + lines.len(), rule_id, message));
        assert forall|a: int| 0 <= a < before.len() implies #[trigger] before[a].line <= line + lines.len() by {
            if a >= here.len() {
                assert(before[a] == later[a - here.len()]);
            } else {
                assert(before[a] == here[a]);
            }
        }
        before
    }
}

/// In a text whose line `lines.len() + 1` (one-based) holds `m` first at byte
/// offset `j`, exactly one finding names that line, and its column is one more
/// than the number of characters before offset `j`.
pub proof fn lemma_marker_at_line(
    lines: Seq<Seq<u8>>,
    text: Seq<u8>,
    more: Seq<u8>,
    m: Seq<u8>,
    j: int,
    rule_id: Seq<char>,
    message: Seq<char>,
)
    requires
        forall|k: int, t: int| 0 <= k < lines.len() && 0 <= t < lines[k].len() ==> #[trigger] lines[k][t] != NEWLINE,
        forall|k: int| 0 <= k < text.len() ==> text[k] != NEWLINE,
        occurs_at(text, m, j),
        forall|k: int| 0 <= k < j ==> !occurs_at(text, m, k),
    ensures
        ({
            let all = marker_findings(joined(lines) + text + seq![NEWLINE] + more, m, 0, rule_id, message);
            &&& exists|a: int| 0 <= a < all.len() && all[a] == finding(rule_id, message, lines.len() + 1, char_count(text.take(j)) + 1)
            &&& forall|a: int, b: int|
                0 <= a < all.len() && 0 <= b < all.len() && #[trigger] all[a].line == lines.len() + 1
                    && #[trigger] all[b].line == lines.len() + 1 ==> a == b
        }),
{
    let rest = text + seq![NEWLINE] + more;
    let before = lemma_joined_prefix(lines, rest, m, 0, rule_id, message);
    assert(joined(lines) + text + seq![NEWLINE] + more =~= joined(lines) + rest);
    lemma_marker_line(text, more, m, lines.len(), j, rule_id, message);
    let tail = marker_findings(more, m, lines.len() + 1, rule_id, message);
    lemma_one_finding_per_line(more, m, lines.len() + 1, rule_id, message);
    let hit = finding(rule_id, message, lines.len() + 1, char_count(text.take(j)) + 1);
    let all = marker_findings(joined(lines) + rest, m, 0, rule_id, message);
    assert(all =~= before + seq![hit] + tail);
    let at = before.len() as int;
    assert(all[at] == hit);
    assert forall|a: int| 0 <= a < all.len() && #[trigger] all[a].line == lines.len() + 1 implies a == at by {
        if a < at {
            assert(all[a] == before[a]);
        } else if a > at {
            assert(all[a] == tail[a - at - 1]);
        }
    }
}

/// The number of characters in the `len` bytes of `s` from `start` on.
fn count_chars(s: &[u8], start: usize, len: usize) -> (r: usize)
    requires
        start + len <= s@.len(),
    ensures
        r == char_count(s@.subrange(start as int, start + len)),
        r <= len,
{
    let n = s.len();
    let mut count: usize = 0;
    let mut t: usize = 0;
    while t < len
        invariant
            n == s@.len(),
            t <= len,
            start + len <= s@.len(),
            count <= t,
            count == char_count(s@.subrange(start as int, start + t)),
        decreases len - t,
    {
        assert(s@.subrange(start as int, start + t + 1).drop_last() =~= s@.subrange(start as int, start + t));
        if s[start + t] < 128 || s[start + t] >= 192 {
            count = count + 1;
        }
        t = t + 1;
    }
    count
}

/// Reports, for each line of `source` that holds `marker`, one diagnostic at
/// the first occurrence of the marker: the line number and the column in
/// characters, both one-based.
pub fn marker_diagnostics(source: &str, marker: &str, rule_id: &str, message: &str) -> (r: Vec<Diagnostic>)
    requires
        marker.spec_bytes().len() > 0,
    ensures
        views(r@) == marker_findings(source.spec_bytes(), marker.spec_bytes(), 0, rule_id@, message@),
{
    let src = source.as_bytes();
    let m = marker.as_bytes();
    let n = src.len();
    let ghost whole = marker_findings(src@, m@, 0, rule_id@, message@);
    let mut out: Vec<Diagnostic> = Vec::new();
    let mut pos: usize = 0;
    let mut line: usize = 0;
    let mut more = true;
    assert(src@.skip(0) =~= src@);
    while more
        invariant
            n == src@.len(),
            m@.len() > 0,
            line <= pos <= n,
            whole == marker_findings(src@, m@, 0, rule_id@, message@),
            more ==> views(out@) + marker_findings(src@.skip(pos as int), m@, line as nat, rule_id@, message@) == whole,
            !more ==> views(out@) == whole,
        decreases n - pos + (if more { 1int } else { 0int }),
    {
        let ghost rest = src@.skip(pos as int);
        let mut end: usize = pos;
        while end < n && src[end] != NEWLINE
            invariant
                pos <= end <= n,
                n == src@.len(),
                rest == src@.skip(pos as int),
                line_len(rest) == (end - pos) + line_len(src@.skip(end as int)),
            decreases n - end,
        {
            assert(src@.skip(end as int).drop_first() =~= src@.skip(end + 1));
            end = end + 1;
        }
        assert(line_len(src@.skip(end as int)) == 0);
        let ghost text = rest.take(end - pos);
        assert(text =~= src@.subrange(pos as int, end as int));
        let mut j: usize = 0;
        let mut found: Option<usize> = None;
        while found.is_none() && m.len() <= end - pos - j
            invariant
                pos + j <= end <= n,
                n == src@.len(),
                m@.len() > 0,
                text == src@.subrange(pos as int, end as int),
                found matches Some(k) ==> first_match(text, m@) == Some(k as nat) && k + m@.len() <= end - pos,
                found is None ==> first_match(text, m@) == (match first_match(src@.subrange(pos + j, end as int), m@) {
                    Some(k) => Some((k + j) as nat),
                    None => None,
                }),
            decreases end - pos - j + (if found is None { 1int } else { 0int }),
        {
            let ghost here = src@.subrange(pos + j, end as int);
            if bytes_match_at(src, pos + j, m) {
                assert(here.take(m@.len() as int) =~= src@.subrange(pos + j, pos + j + m@.len()));
                found = Some(j);
            } else {
                assert(here.take(m@.len() as int) =~= src@.subrange(pos + j, pos + j + m@.len()));
                assert(here.drop_first() =~= src@.subrange(pos + j + 1, end as int));
                j = j + 1;
            }
        }
        let ghost before = out@;
        if let Some(k) = found {
            let chars = count_chars(src, pos, k);
            assert(rest.take(k as int) =~= src@.subrange(pos as int, pos + k));
            out.push(Diagnostic::new(rule_id, message, line + 1, chars + 1));
            assert(views(out@) =~= views(before) + seq![finding(rule_id@, message@, (line + 1) as nat, (chars + 1) as nat)]);
        } else {
            assert(first_match(src@.subrange(pos + j, end as int), m@) is None);
        }
        if end < n {
            assert(rest.skip(end - pos + 1) =~= src@.skip(end + 1));
            pos = end + 1;
            line = line + 1;
        } else {
            more = false;
        }
    }
    out
}

/// Rule to detect TODO markers in source code.
///
/// It reports the uppercase marker "TODO" wherever it stands on a line, in a
/// comment or not, once per line.
///
/// Rule ID: MR001
pub struct TodoRule;

impl Rule for TodoRule {
    open spec fn findings(&self, ctx: &LintContext) -> Seq<DiagnosticView> {
        todo_findings(ctx.source)
    }

    fn id(&self) -> (r: &'static str)
        ensures
            r@ == "MR001"@,
    {
        "MR001"
    }

    fn check(&self, ctx: &LintContext) -> (r: Vec<Diagnostic>) {
        proof {
            reveal_strlit("TODO");
        }
        assert("TODO".spec_bytes().len() > 0);
        marker_diagnostics(ctx.source, "TODO", self.id(), "TODO comment found")
    }
}

} // verus!
