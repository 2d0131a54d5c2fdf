//! One problem, in one place, in one file.
//!
//! Positions are a reporting concern and never a decision input: a check
//! decides pass or fail on its own, and a finding says where. Where a
//! position cannot be pinned down the line is `None` and the report names
//! the file alone.

use vstd::prelude::*;
use crate::check::Severity;
use crate::text::{chars_of, decimal, decimal_chars, push_chars, push_str, string_of};
use crate::json::{field_head, quoted, opt_number, push_string_field, push_opt_number_field};

verus! {

/// The one spelling of a severity for consumers: `error` or `warning`.
pub open spec fn severity_text(severity: Severity) -> Seq<char> {
    match severity {
        Severity::Block => "error"@,
        Severity::Warn => "warning"@,
    }
}

pub fn severity_word(severity: Severity) -> (r: &'static str)
    ensures
        r@ == severity_text(severity),
{
    match severity {
        Severity::Block => "error",
        Severity::Warn => "warning",
    }
}

/// A single problem, addressable.
#[derive(Debug, Clone, PartialEq, Eq)]
pub struct Finding {
    /// The check's short name — `ban-terms`, not `pre-commit-ban-terms`.
    pub check: &'static str,
    /// Repository-relative, as git spells it.
    pub file: String,
    /// 1-based; `None` when the finding is about the file as a whole.
    pub line: Option<usize>,
    /// 1-based, counted in characters rather than bytes.
    pub column: Option<usize>,
    pub severity: Severity,
    /// One line, safe to print.
    pub message: String,
}

impl Finding {
    pub fn new(check: &'static str, file: &str, severity: Severity, message: &str) -> (f: Finding)
        ensures
            f.check == check,
            f.file@ == file@,
            f.line is None,
            f.column is None,
            f.severity == severity,
            f.message@ == message@,
    {
        Finding {
            check,
            file: string_of(&chars_of(file)),
            line: None,
            column: None,
            severity,
            message: string_of(&chars_of(message)),
        }
    }

    /// Place this finding at a byte offset within `content`.
    pub fn at_offset(self, content: &str, offset: usize) -> (f: Finding)
        requires
            content@.len() < usize::MAX,
        ensures
            f.line == Some(line_col_at(content@, char_index(content@, offset as int)).0 as usize),
            f.column == Some(line_col_at(content@, char_index(content@, offset as int)).1 as usize),
            f.check == self.check,
            f.file == self.file,
            f.severity == self.severity,
            f.message == self.message,
    {
        let (line, column) = line_col(content, offset);
        Finding { line: Some(line), column: Some(column), ..self }
    }

    /// Place this finding at character index `k` of `content`.
    pub fn at_char(self, content: &Vec<char>, k: usize) -> (f: Finding)
        requires
            k <= content@.len() < usize::MAX,
        ensures
            f.line == Some(line_col_at(content@, k as int).0 as usize),
            f.column == Some(line_col_at(content@, k as int).1 as usize),
            f.check == self.check,
            f.file == self.file,
            f.severity == self.severity,
            f.message == self.message,
    {
        let (line, column) = line_col_of_index(content, k);
        Finding { line: Some(line), column: Some(column), ..self }
    }

    /// Place it on a line whose column is not known or not meaningful.
    pub fn at_line(self, line: usize) -> (f: Finding)
        ensures
            f.line == Some(line),
            f.column == self.column,
            f.check == self.check,
            f.file == self.file,
            f.severity == self.severity,
            f.message == self.message,
    {
        Finding { line: Some(line), ..self }
    }

    /// `file:line:col`, as far as the position is known.
    pub fn location(&self) -> (r: String)
        ensures
            r@ == spec_location(self.file@, self.line, self.column),
    {
        string_of(&self.location_chars())
    }

    fn location_chars(&self) -> (r: Vec<char>)
        ensures
            r@ == spec_location(self.file@, self.line, self.column),
    {
        let mut out = chars_of(self.file.as_str());
        match self.line {
            Some(line) => {
                out.push(':');
                push_chars(&mut out, &decimal_chars(line as u64));
                match self.column {
                    Some(column) => {
                        out.push(':');
                        push_chars(&mut out, &decimal_chars(column as u64));
                    },
                    None => {},
                }
            },
            None => {},
        }
        out
    }

    /// `file:line:col: severity: message [check]` — the shape editors'
    /// error parsers already understand.
    pub fn render(&self) -> (r: String)
        ensures
            r@ == spec_location(self.file@, self.line, self.column) + ": "@ + severity_text(
                self.severity,
            ) + ": "@ + self.message@ + " ["@ + self.check@ + "]"@,
    {
        let mut out = self.location_chars();
        push_str(&mut out, ": ");
        push_str(&mut out, severity_word(self.severity));
        push_str(&mut out, ": ");
        push_str(&mut out, self.message.as_str());
        push_str(&mut out, " [");
        push_str(&mut out, self.check);
        push_str(&mut out, "]");
        string_of(&out)
    }
}

/// The address of a finding: the file, then `:line` and `:column` as far as
/// they are known (a column without a line is not shown).
pub open spec fn spec_location(file: Seq<char>, line: Option<usize>, column: Option<usize>) -> Seq<char> {
    match line {
        Some(l) => file + seq![':'] + decimal(l as nat) + match column {
            Some(c) => seq![':'] + decimal(c as nat),
            None => seq![],
        },
        None => file,
    }
}

/// How many bytes UTF-8 spends on `c`.
pub open spec fn utf8_len(c: char) -> int {
    if (c as u32) < 0x80 {
        1
    } else if (c as u32) < 0x800 {
        2
    } else if (c as u32) < 0x10000 {
        3
    } else {
        4
    }
}

/// How many characters lie wholly within the first `offset` bytes of `s`
/// (all of them when `offset` reaches past the end). An offset inside a
/// character's encoding counts from that character's start.
pub open spec fn char_index(s: Seq<char>, offset: int) -> int
    decreases s.len(),
{
    if s.len() == 0 || offset < utf8_len(s[0]) {
        0
    } else {
        1 + char_index(s.skip(1), offset - utf8_len(s[0]))
    }
}

/// `offset` falls between two characters of `s`, or at or past its end —
/// every offset `str` slicing accepts.
pub open spec fn on_boundary(s: Seq<char>, offset: int) -> bool
    decreases s.len(),
{
    if offset <= 0 {
        offset == 0
    } else if s.len() == 0 {
        true
    } else {
        on_boundary(s.skip(1), offset - utf8_len(s[0]))
    }
}

/// How many newlines `s` holds.
pub open spec fn count_newlines(s: Seq<char>) -> nat
    decreases s.len(),
{
    if s.len() == 0 {
        0
    } else {
        count_newlines(s.drop_last()) + if s.last() == '\n' {
            1nat
        } else {
            0nat
        }
    }
}

/// Where the last line of `s` starts: just after its last newline, or 0.
pub open spec fn line_start(s: Seq<char>) -> int
    decreases s.len(),
{
    if s.len() == 0 {
        0
    } else if s.last() == '\n' {
        s.len() as int
    } else {
        line_start(s.drop_last())
    }
}

/// The 1-based line and character column of character index `k`.
pub open spec fn line_col_at(s: Seq<char>, k: int) -> (int, int) {
    let before = s.take(k);
    (count_newlines(before) as int + 1, k - line_start(before) + 1)
}

proof fn lemma_line_start(s: Seq<char>)
    ensures
        0 <= line_start(s) <= s.len(),
        count_newlines(s) <= s.len(),
    decreases s.len(),
{
    if s.len() > 0 {
        lemma_line_start(s.drop_last());
    }
}

pub fn utf8_len_exec(c: char) -> (n: usize)
    ensures
        n == utf8_len(c),
{
    let u = c as u32;
    if u < 0x80 {
        1
    } else if u < 0x800 {
        2
    } else if u < 0x10000 {
        3
    } else {
        4
    }
}

/// A byte offset into a 1-based (line, column). The column counts
/// characters, not bytes, as an editor places its cursor. This is a
/// reporting path and never fails: an offset past the end clamps to the
/// last position, and one inside a character's encoding to that
/// character's start.
pub fn line_col(content: &str, offset: usize) -> (r: (usize, usize))
    requires
        content@.len() < usize::MAX,
    ensures
        r.0 == line_col_at(content@, char_index(content@, offset as int)).0,
        r.1 == line_col_at(content@, char_index(content@, offset as int)).1,
{
    let s = chars_of(content);
    let n = s.len();
    // how many characters lie wholly before the offset
    let mut k: usize = 0;
    let mut acc: usize = 0;
    let mut done = false;
    assert(s@.skip(0) =~= s@);
    while k < n && !done
        invariant
            k <= n == s.len(),
            s@ == content@,
            acc <= offset,
            char_index(s@, offset as int) == k + char_index(s@.skip(k as int), offset - acc),
            done ==> char_index(s@.skip(k as int), offset - acc) == 0,
        decreases 2 * (n - k) + if done { 0int } else { 1int },
    {
        let w = utf8_len_exec(s[k]);
        assert(s@.skip(k as int)[0] == s@[k as int]);
        if w > offset - acc {
            done = true;
        } else {
            assert(s@.skip(k as int).skip(1) =~= s@.skip(k + 1));
            acc += w;
            k += 1;
        }
    }
    proof {
        if k == n {
            assert(s@.skip(k as int).len() == 0);
        }
    }
    line_col_of_index(&s, k)
}

/// The 1-based line and character column of character index `k` of `s`.
pub fn line_col_of_index(s: &Vec<char>, k: usize) -> (r: (usize, usize))
    requires
        k <= s.len() < usize::MAX,
    ensures
        r.0 == line_col_at(s@, k as int).0,
        r.1 == line_col_at(s@, k as int).1,
{
    let n = s.len();
    let mut nl: usize = 0;
    let mut start: usize = 0;
    let mut j: usize = 0;
    assert(s@.take(0) =~= seq![]);
    while j < k
        invariant
            j <= k <= n == s.len(),
            n < usize::MAX,
            nl == count_newlines(s@.take(j as int)),
            start == line_start(s@.take(j as int)),
            nl <= j,
            start <= j,
        decreases k - j,
    {
        assert(s@.take(j + 1).drop_last() =~= s@.take(j as int));
        assert(s@.take(j + 1).last() == s@[j as int]);
        if s[j] == '\n' {
            nl += 1;
            start = j + 1;
        }
        j += 1;
    }
    (nl + 1, k - start + 1)
}

/// Items joined by commas.
pub open spec fn comma_join(items: Seq<Seq<char>>, k: int) -> Seq<char>
    decreases k,
{
    if k <= 0 {
        seq![]
    } else if k == 1 {
        items[0]
    } else {
        comma_join(items, k - 1) + seq![','] + items[k - 1]
    }
}

pub open spec fn opt_wide(o: Option<usize>) -> Option<u64> {
    match o {
        Some(v) => Some(v as u64),
        None => None,
    }
}

/// One finding as a JSON object.
pub open spec fn finding_json(f: Finding) -> Seq<char> {
    seq!['{'] + field_head("check"@) + quoted(f.check@) + seq![','] + field_head("file"@) + quoted(
        f.file@,
    ) + seq![','] + field_head("line"@) + opt_number(opt_wide(f.line)) + seq![','] + field_head(
        "column"@,
    ) + opt_number(opt_wide(f.column)) + seq![','] + field_head("severity"@) + quoted(
        severity_text(f.severity),
    ) + seq![','] + field_head("message"@) + quoted(f.message@) + seq!['}']
}

/// Findings as a versioned JSON document.
pub open spec fn findings_json(fs: Seq<Finding>) -> Seq<char> {
    seq!['{'] + field_head("format"@) + quoted("amont-check-v1"@) + ",\"findings\":["@
        + comma_join(fs.map_values(|f: Finding| finding_json(f)), fs.len() as int) + "]}"@
}

/// The first half of a finding's object: where it is.
pub open spec fn finding_json_place(f: Finding) -> Seq<char> {
    field_head("check"@) + quoted(f.check@) + seq![','] + field_head("file"@) + quoted(f.file@)
        + seq![','] + field_head("line"@) + opt_number(opt_wide(f.line)) + seq![',']
        + field_head("column"@) + opt_number(opt_wide(f.column))
}

/// The second half: what it says.
pub open spec fn finding_json_text(f: Finding) -> Seq<char> {
    field_head("severity"@) + quoted(severity_text(f.severity)) + seq![','] + field_head(
        "message"@,
    ) + quoted(f.message@)
}

proof fn lemma_finding_json(f: Finding)
    ensures
        finding_json(f) =~= seq!['{'] + finding_json_place(f) + seq![','] + finding_json_text(f)
            + seq!['}'],
{
}

fn push_finding_place(out: &mut Vec<char>, f: &Finding)
    ensures
        final(out)@ == old(out)@ + finding_json_place(*f),
{
    let ghost start = out@;
    push_string_field(out, "check", f.check);
    out.push(',');
    push_string_field(out, "file", f.file.as_str());
    out.push(',');
    let ghost mid = out@;
    let line = match f.line {
        Some(l) => Some(l as u64),
        None => None,
    };
    push_opt_number_field(out, "line", line);
    out.push(',');
    let column = match f.column {
        Some(c) => Some(c as u64),
        None => None,
    };
    push_opt_number_field(out, "column", column);
    assert(mid =~= start + field_head("check"@) + quoted(f.check@) + seq![','] + field_head("file"@) + quoted(f.file@) + seq![',']);
    assert(out@ =~= mid + field_head("line"@) + opt_number(opt_wide(f.line)) + seq![','] + field_head("column"@) + opt_number(opt_wide(f.column)));
    assert(out@ =~= start + finding_json_place(*f));
}

fn push_finding_text(out: &mut Vec<char>, f: &Finding)
    ensures
        final(out)@ == old(out)@ + finding_json_text(*f),
{
    let ghost start = out@;
    push_string_field(out, "severity", severity_word(f.severity));
    out.push(',');
    push_string_field(out, "message", f.message.as_str());
    assert(out@ =~= start + finding_json_text(*f));
}

fn push_finding_json(out: &mut Vec<char>, f: &Finding)
    ensures
        final(out)@ == old(out)@ + finding_json(*f),
{
    let ghost start = out@;
    out.push('{');
    push_finding_place(out, f);
    out.push(',');
    push_finding_text(out, f);
    out.push('}');
    proof {
        lemma_finding_json(*f);
    }
    assert(out@ =~= start + finding_json(*f));
}

/// Findings as JSON, for anything that would rather not parse a line.
pub fn to_json(findings: &[Finding]) -> (r: String)
    ensures
        r@ == findings_json(findings@),
{
    let ghost items = findings@.map_values(|f: Finding| finding_json(f));
    let mut out: Vec<char> = Vec::new();
    out.push('{');
    push_string_field(&mut out, "format", "amont-check-v1");
    push_str(&mut out, ",\"findings\":[");
    let ghost head = out@;
    let mut k: usize = 0;
    while k < findings.len()
        invariant
            k <= findings.len(),
            items == findings@.map_values(|f: Finding| finding_json(f)),
            out@ == head + comma_join(items, k as int),
        decreases findings.len() - k,
    {
        if k > 0 {
            out.push(',');
        }
        push_finding_json(&mut out, &findings[k]);
        proof {
            assert(items[k as int] == finding_json(findings@[k as int]));
            if k == 0 {
                assert(comma_join(items, 0) =~= seq![]);
            }
        }
        k += 1;
    }
    push_str(&mut out, "]}");
    string_of(&out)
}


/// A finding as plain values.
pub struct FindingView {
    pub check: Seq<char>,
    pub file: Seq<char>,
    pub line: Option<usize>,
    pub column: Option<usize>,
    pub severity: Severity,
    pub message: Seq<char>,
}

pub open spec fn finding_view(f: Finding) -> FindingView {
    FindingView {
        check: f.check@,
        file: f.file@,
        line: f.line,
        column: f.column,
        severity: f.severity,
        message: f.message@,
    }
}

/// The views of a sequence of findings.
pub open spec fn finding_views(fs: Seq<Finding>) -> Seq<FindingView> {
    fs.map_values(|f: Finding| finding_view(f))
}

} // verus!
