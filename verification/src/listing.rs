//! What `amont list` prints of the two local ledgers — the problems that
//! did not block and the commits that carry no record of their commit-time
//! gate — as text for a person and as JSON for a reader that parses.

use vstd::prelude::*;
use crate::text::{chars_of, string_of, push_str, push_chars, decimal, decimal_chars};
use crate::json::{field_head, quoted, opt_number, push_string_field, push_opt_number_field};
use crate::ui::{spec_sanitize, sanitize};
use crate::check::Stage;
use crate::downgrade;
use crate::bypass;
use crate::bypass::spec_age;

verus! {

/// What `amont list` was asked for.
#[derive(Debug, Clone, Copy, PartialEq, Eq)]
pub struct ListOptions {
    pub json: bool,
    pub stage: Option<Stage>,
    pub pushed: bool,
    /// Print the inert checks too, one row each.
    pub all: bool,
}

/// `"name":N`.
pub open spec fn number_field(name: Seq<char>, n: nat) -> Seq<char> {
    field_head(name) + decimal(n)
}

fn push_number_field(out: &mut Vec<char>, name: &str, n: u64)
    ensures
        final(out)@ == old(out)@ + number_field(name@, n as nat),
{
    let ghost start = out@;
    out.push('"');
    push_str(out, name);
    out.push('"');
    out.push(':');
    push_chars(out, &decimal_chars(n));
    assert(out@ =~= start + number_field(name@, n as nat));
}

/// Items joined by `,` — the inside of a JSON array or object.
pub open spec fn commas(items: Seq<Seq<char>>, k: int) -> Seq<char>
    decreases k,
{
    if k <= 0 || k > items.len() {
        Seq::empty()
    } else if k == 1 {
        items[0]
    } else {
        commas(items, k - 1) + ","@ + items[k - 1]
    }
}

/// One check's row of the downgrade ledger, as a JSON object.
pub open spec fn check_json(c: downgrade::CheckCount) -> Seq<char> {
    "{"@ + field_head("check"@) + quoted(c.check@) + ","@ + number_field("count"@, c.count as nat) + ","@
        + number_field("would_block"@, c.would_block as nat) + ","@ + number_field("last"@, c.last as nat) + "}"@
}

pub open spec fn check_rows_json(cs: Seq<downgrade::CheckCount>) -> Seq<Seq<char>> {
    cs.map_values(|c: downgrade::CheckCount| check_json(c))
}

/// The downgrade ledger as `amont list --json` carries it.
pub open spec fn spec_downgrades_json(l: downgrade::Ledger) -> Seq<char> {
    "{"@ + number_field("total"@, l.total as nat) + ","@ + number_field("would_block"@, l.would_block as nat) + ","@
        + number_field("commits"@, l.commits as nat) + ","@ + field_head("first"@) + opt_number(l.first) + ","@
        + field_head("last"@) + opt_number(l.last) + ","@ + field_head("by_check"@) + "["@
        + commas(check_rows_json(l.by_check@), l.by_check@.len() as int) + "]"@ + "}"@
}

pub fn downgrades_json(l: &downgrade::Ledger) -> (r: String)
    ensures
        r@ == spec_downgrades_json(*l),
{
    proof {
        reveal_strlit("{");
        reveal_strlit("}");
        reveal_strlit(",");
        reveal_strlit("[");
        reveal_strlit("]");
    }
    let ghost rows = check_rows_json(l.by_check@);
    let mut out: Vec<char> = Vec::new();
    push_str(&mut out, "{");
    push_number_field(&mut out, "total", l.total as u64);
    push_str(&mut out, ",");
    push_number_field(&mut out, "would_block", l.would_block as u64);
    push_str(&mut out, ",");
    push_number_field(&mut out, "commits", l.commits as u64);
    push_str(&mut out, ",");
    push_opt_number_field(&mut out, "first", l.first);
    push_str(&mut out, ",");
    push_opt_number_field(&mut out, "last", l.last);
    push_str(&mut out, ",");
    out.push('"');
    push_str(&mut out, "by_check");
    out.push('"');
    out.push(':');
    out.push('[');
    let ghost head = out@;
    let mut k: usize = 0;
    while k < l.by_check.len()
        invariant
            k <= l.by_check@.len(),
            rows == check_rows_json(l.by_check@),
            out@ == head + commas(rows, k as int),
        decreases l.by_check.len() - k,
    {
        proof {
            reveal_strlit("{");
            reveal_strlit("}");
            reveal_strlit(",");
        }
        let ghost before = out@;
        if k > 0 {
            out.push(',');
        }
        let ghost mid = out@;
        let c = &l.by_check[k];
        out.push('{');
        push_string_field(&mut out, "check", c.check.as_str());
        out.push(',');
        push_number_field(&mut out, "count", c.count as u64);
        out.push(',');
        push_number_field(&mut out, "would_block", c.would_block as u64);
        out.push(',');
        push_number_field(&mut out, "last", c.last);
        out.push('}');
        assert(rows[k as int] == check_json(l.by_check@[k as int]));
        assert(out@ =~= mid + check_json(l.by_check@[k as int]));
        assert(mid =~= before + (if k > 0 { ","@ } else { Seq::<char>::empty() }));
        assert(out@ =~= head + commas(rows, k + 1));
        k += 1;
    }
    out.push(']');
    out.push('}');
    assert(out@ =~= spec_downgrades_json(*l));
    string_of(&out)
}

/// One script's row of the bypass ledger, as a JSON object.
pub open spec fn script_json(s: bypass::ScriptCount) -> Seq<char> {
    "{"@ + field_head("script"@) + quoted(s.script@) + ","@ + number_field("count"@, s.count as nat) + ","@
        + number_field("last"@, s.last as nat) + "}"@
}

pub open spec fn script_rows_json(ss: Seq<bypass::ScriptCount>) -> Seq<Seq<char>> {
    ss.map_values(|s: bypass::ScriptCount| script_json(s))
}

/// The bypass ledger as `amont list --json` carries it.
pub open spec fn spec_bypasses_json(l: bypass::Ledger) -> Seq<char> {
    "{"@ + number_field("total"@, l.total as nat) + ","@ + field_head("last"@) + opt_number(l.last) + ","@
        + field_head("by_script"@) + "["@ + commas(script_rows_json(l.by_script@), l.by_script@.len() as int)
        + "]"@ + "}"@
}

pub fn bypasses_json(l: &bypass::Ledger) -> (r: String)
    ensures
        r@ == spec_bypasses_json(*l),
{
    proof {
        reveal_strlit("{");
        reveal_strlit("}");
        reveal_strlit(",");
        reveal_strlit("[");
        reveal_strlit("]");
    }
    let ghost rows = script_rows_json(l.by_script@);
    let mut out: Vec<char> = Vec::new();
    push_str(&mut out, "{");
    push_number_field(&mut out, "total", l.total as u64);
    push_str(&mut out, ",");
    push_opt_number_field(&mut out, "last", l.last);
    push_str(&mut out, ",");
    out.push('"');
    push_str(&mut out, "by_script");
    out.push('"');
    out.push(':');
    out.push('[');
    let ghost head = out@;
    let mut k: usize = 0;
    while k < l.by_script.len()
        invariant
            k <= l.by_script@.len(),
            rows == script_rows_json(l.by_script@),
            out@ == head + commas(rows, k as int),
        decreases l.by_script.len() - k,
    {
        proof {
            reveal_strlit("{");
            reveal_strlit("}");
            reveal_strlit(",");
        }
        let ghost before = out@;
        if k > 0 {
            out.push(',');
        }
        let ghost mid = out@;
        let s = &l.by_script[k];
        out.push('{');
        push_string_field(&mut out, "script", s.script.as_str());
        out.push(',');
        push_number_field(&mut out, "count", s.count as u64);
        out.push(',');
        push_number_field(&mut out, "last", s.last);
        out.push('}');
        assert(rows[k as int] == script_json(l.by_script@[k as int]));
        assert(out@ =~= mid + script_json(l.by_script@[k as int]));
        assert(mid =~= before + (if k > 0 { ","@ } else { Seq::<char>::empty() }));
        assert(out@ =~= head + commas(rows, k + 1));
        k += 1;
    }
    out.push(']');
    out.push('}');
    assert(out@ =~= spec_bypasses_json(*l));
    string_of(&out)
}

// ---------------------------------------------------------------------------
// The text a person reads

/// `n` spaces.
pub open spec fn spaces(n: nat) -> Seq<char> {
    Seq::new(n, |i: int| ' ')
}

/// `s` padded with spaces on the right to `w` characters, as `{:<w$}` does.
pub open spec fn pad_right(s: Seq<char>, w: nat) -> Seq<char> {
    if s.len() < w { s + spaces((w - s.len()) as nat) } else { s }
}

/// `s` padded with spaces on the left to `w` characters, as `{:>w$}` does.
pub open spec fn pad_left(s: Seq<char>, w: nat) -> Seq<char> {
    if s.len() < w { spaces((w - s.len()) as nat) + s } else { s }
}

pub(crate) fn push_spaces(out: &mut Vec<char>, n: usize)
    ensures
        final(out)@ == old(out)@ + spaces(n as nat),
{
    let ghost start = out@;
    let mut k: usize = 0;
    while k < n
        invariant
            k <= n,
            out@ == start + spaces(k as nat),
        decreases n - k,
    {
        out.push(' ');
        assert(out@ =~= start + spaces((k + 1) as nat));
        k += 1;
    }
}

pub(crate) fn push_padded_right(out: &mut Vec<char>, s: &Vec<char>, w: usize)
    ensures
        final(out)@ == old(out)@ + pad_right(s@, w as nat),
{
    let ghost start = out@;
    push_chars(out, s);
    if s.len() < w {
        push_spaces(out, w - s.len());
    }
    assert(out@ =~= start + pad_right(s@, w as nat));
}

pub(crate) fn push_padded_left(out: &mut Vec<char>, s: &Vec<char>, w: usize)
    ensures
        final(out)@ == old(out)@ + pad_left(s@, w as nat),
{
    let ghost start = out@;
    if s.len() < w {
        push_spaces(out, w - s.len());
    }
    push_chars(out, s);
    assert(out@ =~= start + pad_left(s@, w as nat));
}

/// The widest name among the first `k`, once sanitised.
pub open spec fn widest(names: Seq<Seq<char>>, k: int) -> nat
    decreases k,
{
    if k <= 0 || k > names.len() {
        0
    } else {
        let w = widest(names, k - 1);
        let n = spec_sanitize(names[k - 1]).len();
        if n > w { n } else { w }
    }
}

/// `""` for one, `"s"` for any other count.
pub open spec fn plural(n: nat) -> Seq<char> {
    if n == 1 { ""@ } else { "s"@ }
}

pub open spec fn check_names(cs: Seq<downgrade::CheckCount>) -> Seq<Seq<char>> {
    cs.map_values(|c: downgrade::CheckCount| c.check@)
}

/// One check's line: a check that declares `warn` itself was never going
/// to block, and says so.
pub open spec fn downgrade_row(c: downgrade::CheckCount, pad: nat, now: u64) -> Seq<char> {
    "  "@ + pad_right(spec_sanitize(c.check@), pad) + "  "@ + pad_left(decimal(c.count as nat), 3) + "   last "@
        + spec_age(now, c.last) + (if c.would_block == 0 { "  (advisory)"@ } else { ""@ }) + "\n"@
}

pub open spec fn downgrade_rows(cs: Seq<downgrade::CheckCount>, pad: nat, now: u64, k: int) -> Seq<char>
    decreases k,
{
    if k <= 0 || k > cs.len() {
        Seq::empty()
    } else {
        downgrade_rows(cs, pad, now, k - 1) + downgrade_row(cs[k - 1], pad, now)
    }
}

/// The problems that did not block, as `amont list` prints them: nothing
/// at all for a repository that never warned; else a row per check, the
/// events and commits they came to, and — when overrides let some through
/// — what to do on the way back to blocking.
pub open spec fn spec_downgrades_text(l: downgrade::Ledger, now: u64) -> Seq<char> {
    if l.total == 0 {
        Seq::empty()
    } else {
        let pad = widest(check_names(l.by_check@), l.by_check@.len() as int);
        let since = match l.first {
            Some(f) => ", since "@ + spec_age(now, f),
            None => ""@,
        };
        "\nproblems that did not block\n"@ + downgrade_rows(l.by_check@, pad, now, l.by_check@.len() as int)
            + "  "@ + decimal(l.total as nat) + " event"@ + plural(l.total as nat) + " over "@ + decimal(l.commits as nat)
            + " commit"@ + plural(l.commits as nat) + since + "\n"@
            + (if l.would_block > 0 {
                "  "@ + decimal(l.would_block as nat)
                    + " of them would have blocked \u{2014} set amont.severity.<check> to keep one advisory when you go back to block\n"@
            } else {
                ""@
            })
    }
}

fn push_plural(out: &mut Vec<char>, n: usize)
    ensures
        final(out)@ == old(out)@ + plural(n as nat),
{
    proof {
        reveal_strlit("");
        reveal_strlit("s");
    }
    let ghost start = out@;
    if n != 1 {
        out.push('s');
    }
    assert(out@ =~= start + plural(n as nat));
}

fn push_downgrade_row(out: &mut Vec<char>, c: &downgrade::CheckCount, pad: usize, now: u64)
    ensures
        final(out)@ == old(out)@ + downgrade_row(*c, pad as nat, now),
{
    proof {
        reveal_strlit("");
    }
    let ghost before = out@;
    push_str(out, "  ");
    let n = chars_of(sanitize(c.check.as_str()).as_str());
    push_padded_right(out, &n, pad);
    push_str(out, "  ");
    push_padded_left(out, &decimal_chars(c.count as u64), 3);
    push_str(out, "   last ");
    push_str(out, bypass::age(now, c.last).as_str());
    if c.would_block == 0 {
        push_str(out, "  (advisory)");
    }
    push_str(out, "\n");
    assert(out@ =~= before + downgrade_row(*c, pad as nat, now));
}

pub fn downgrades_text(l: &downgrade::Ledger, now: u64) -> (r: String)
    ensures
        r@ == spec_downgrades_text(*l, now),
{
    proof {
        reveal_strlit("");
    }
    let mut out: Vec<char> = Vec::new();
    if l.total == 0 {
        return string_of(&out);
    }
    let ghost names = check_names(l.by_check@);
    let mut pad: usize = 0;
    let mut k: usize = 0;
    while k < l.by_check.len()
        invariant
            k <= l.by_check@.len(),
            names == check_names(l.by_check@),
            pad == widest(names, k as int),
        decreases l.by_check.len() - k,
    {
        let n = sanitize(l.by_check[k].check.as_str());
        let w = chars_of(n.as_str()).len();
        assert(names[k as int] == l.by_check@[k as int].check@);
        if w > pad {
            pad = w;
        }
        k += 1;
    }
    push_str(&mut out, "\nproblems that did not block\n");
    let ghost head = out@;
    let mut k: usize = 0;
    while k < l.by_check.len()
        invariant
            k <= l.by_check@.len(),
            pad == widest(names, l.by_check@.len() as int),
            out@ == head + downgrade_rows(l.by_check@, pad as nat, now, k as int),
        decreases l.by_check.len() - k,
    {
        let ghost before = out@;
        push_downgrade_row(&mut out, &l.by_check[k], pad, now);
        k += 1;
    }
    push_str(&mut out, "  ");
    push_chars(&mut out, &decimal_chars(l.total as u64));
    push_str(&mut out, " event");
    push_plural(&mut out, l.total);
    push_str(&mut out, " over ");
    push_chars(&mut out, &decimal_chars(l.commits as u64));
    push_str(&mut out, " commit");
    push_plural(&mut out, l.commits);
    match l.first {
        Some(f) => {
            push_str(&mut out, ", since ");
            push_str(&mut out, bypass::age(now, f).as_str());
        },
        None => {},
    }
    push_str(&mut out, "\n");
    if l.would_block > 0 {
        push_str(&mut out, "  ");
        push_chars(&mut out, &decimal_chars(l.would_block as u64));
        push_str(&mut out, " of them would have blocked \u{2014} set amont.severity.<check> to keep one advisory when you go back to block\n");
    }
    assert(out@ =~= spec_downgrades_text(*l, now));
    string_of(&out)
}

pub open spec fn script_names(ss: Seq<bypass::ScriptCount>) -> Seq<Seq<char>> {
    ss.map_values(|s: bypass::ScriptCount| s.script@)
}

pub open spec fn bypass_row(s: bypass::ScriptCount, pad: nat, now: u64) -> Seq<char> {
    "  "@ + pad_right(spec_sanitize(s.script@), pad) + "  "@ + pad_left(decimal(s.count as nat), 3) + "   last "@
        + spec_age(now, s.last) + "\n"@
}

pub open spec fn bypass_rows(ss: Seq<bypass::ScriptCount>, pad: nat, now: u64, k: int) -> Seq<char>
    decreases k,
{
    if k <= 0 || k > ss.len() {
        Seq::empty()
    } else {
        bypass_rows(ss, pad, now, k - 1) + bypass_row(ss[k - 1], pad, now)
    }
}

/// The unverified commits, as `amont list` prints them: nothing for a
/// clean repository, else a row per script and what the rows mean.
pub open spec fn spec_bypasses_text(l: bypass::Ledger, now: u64) -> Seq<char> {
    if l.total == 0 {
        Seq::empty()
    } else {
        let pad = widest(script_names(l.by_script@), l.by_script@.len() as int);
        "\nunverified commits\n"@ + bypass_rows(l.by_script@, pad, now, l.by_script@.len() as int)
            + "  these commits carry no record that their commit-time gate ran \u{2014} the push gate ran it instead\n"@
    }
}

fn push_bypass_row(out: &mut Vec<char>, s: &bypass::ScriptCount, pad: usize, now: u64)
    ensures
        final(out)@ == old(out)@ + bypass_row(*s, pad as nat, now),
{
    let ghost before = out@;
    push_str(out, "  ");
    let n = chars_of(sanitize(s.script.as_str()).as_str());
    push_padded_right(out, &n, pad);
    push_str(out, "  ");
    push_padded_left(out, &decimal_chars(s.count as u64), 3);
    push_str(out, "   last ");
    push_str(out, bypass::age(now, s.last).as_str());
    push_str(out, "\n");
    assert(out@ =~= before + bypass_row(*s, pad as nat, now));
}

pub fn bypasses_text(l: &bypass::Ledger, now: u64) -> (r: String)
    ensures
        r@ == spec_bypasses_text(*l, now),
{
    let mut out: Vec<char> = Vec::new();
    if l.total == 0 {
        return string_of(&out);
    }
    let ghost names = script_names(l.by_script@);
    let mut pad: usize = 0;
    let mut k: usize = 0;
    while k < l.by_script.len()
        invariant
            k <= l.by_script@.len(),
            names == script_names(l.by_script@),
            pad == widest(names, k as int),
        decreases l.by_script.len() - k,
    {
        let n = sanitize(l.by_script[k].script.as_str());
        let w = chars_of(n.as_str()).len();
        assert(names[k as int] == l.by_script@[k as int].script@);
        if w > pad {
            pad = w;
        }
        k += 1;
    }
    push_str(&mut out, "\nunverified commits\n");
    let ghost head = out@;
    let mut k: usize = 0;
    while k < l.by_script.len()
        invariant
            k <= l.by_script@.len(),
            pad == widest(names, l.by_script@.len() as int),
            out@ == head + bypass_rows(l.by_script@, pad as nat, now, k as int),
        decreases l.by_script.len() - k,
    {
        let ghost before = out@;
        push_bypass_row(&mut out, &l.by_script[k], pad, now);
        k += 1;
    }
    push_str(&mut out, "  these commits carry no record that their commit-time gate ran \u{2014} the push gate ran it instead\n");
    assert(out@ =~= spec_bypasses_text(*l, now));
    string_of(&out)
}

} // verus!
