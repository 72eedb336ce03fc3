use vstd::prelude::*;

verus! {

/// What a diagnostic says, as mathematical values.
pub ghost struct DiagnosticView {
    pub rule_id: Seq<char>,
    pub message: Seq<char>,
    pub line: nat,
    pub column: nat,
}

/// Represents a lint violation found in the code.
#[derive(Debug, Clone, PartialEq, Eq)]
pub struct Diagnostic {
    /// Rule ID (e.g., "MR001").
    pub rule_id: String,
    /// Human-readable error message.
    pub message: String,
    /// Line number (1-indexed).
    pub line: usize,
    /// Column number (1-indexed).
    pub column: usize,
}

impl View for Diagnostic {
    type V = DiagnosticView;

    open spec fn view(&self) -> DiagnosticView {
        DiagnosticView {
            rule_id: self.rule_id@,
            message: self.message@,
            line: self.line as nat,
            column: self.column as nat,
        }
    }
}

/// The views of a sequence of diagnostics, in the same order.
pub open spec fn views(ds: Seq<Diagnostic>) -> Seq<DiagnosticView> {
    ds.map_values(|d: Diagnostic| d@)
}

/// The character that writes the decimal digit `d`.
pub open spec fn digit_char(d: nat) -> char {
    if d == 0 {
        '0'
    } else if d == 1 {
        '1'
    } else if d == 2 {
        '2'
    } else if d == 3 {
        '3'
    } else if d == 4 {
        '4'
    } else if d == 5 {
        '5'
    } else if d == 6 {
        '6'
    } else if d == 7 {
        '7'
    } else if d == 8 {
        '8'
    } else {
        '9'
    }
}

/// `n` written in decimal, without leading zeros.
pub open spec fn decimal(n: nat) -> Seq<char>
    decreases n,
{
    if n < 10 {
        seq![digit_char(n)]
    } else {
        decimal(n / 10) + seq![digit_char(n % 10)]
    }
}

/// The one-line report of a diagnostic: `<file>:<line>:<column> <rule_id> <message>`.
pub open spec fn format_line(d: DiagnosticView, file_path: Seq<char>) -> Seq<char> {
    file_path + seq![':'] + decimal(d.line) + seq![':'] + decimal(d.column) + seq![' ']
        + d.rule_id + seq![' '] + d.message
}

fn digit_text(d: usize) -> (r: &'static str)
    requires
        d < 10,
    ensures
        r@ == seq![digit_char(d as nat)],
{
    proof {
        reveal_strlit("0");
        reveal_strlit("1");
        reveal_strlit("2");
        reveal_strlit("3");
        reveal_strlit("4");
        reveal_strlit("5");
        reveal_strlit("6");
        reveal_strlit("7");
        reveal_strlit("8");
        reveal_strlit("9");
    }
    match d {
        0 => "0",
        1 => "1",
        2 => "2",
        3 => "3",
        4 => "4",
        5 => "5",
        6 => "6",
        7 => "7",
        8 => "8",
        _ => "9",
    }
}

/// Writes `n` in decimal.
pub fn decimal_text(n: usize) -> (r: String)
    ensures
        r@ == decimal(n as nat),
    decreases n,
{
    if n < 10 {
        String::from_str(digit_text(n))
    } else {
        let mut s = decimal_text(n / 10);
        s.append(digit_text(n % 10));
        s
    }
}

impl Diagnostic {
    /// Creates a new diagnostic.
    pub fn new(rule_id: &str, message: &str, line: usize, column: usize) -> (r: Self)
        ensures
            r@ == (DiagnosticView {
                rule_id: rule_id@,
                message: message@,
                line: line as nat,
                column: column as nat,
            }),
    {
        Diagnostic { rule_id: rule_id.to_owned(), message: message.to_owned(), line, column }
    }

    /// Formats the diagnostic for command-line output:
    /// `<file>:<line>:<column> <rule_id> <message>`.
    pub fn format(&self, file_path: &str) -> (r: String)
        ensures
            r@ == format_line(self@, file_path@),
    {
        proof {
            reveal_strlit(":");
            reveal_strlit(" ");
        }
        let mut s = String::from_str(file_path);
        s.append(":");
        let line = decimal_text(self.line);
        s.append(line.as_str());
        s.append(":");
        let column = decimal_text(self.column);
        s.append(column.as_str());
        s.append(" ");
        s.append(self.rule_id.as_str());
        s.append(" ");
        s.append(self.message.as_str());
        s
    }
}

} // verus!
