//! The file that makes every future clone slower, caught while it is still
//! one `git rm --cached` away. Two thresholds in megabytes: a warning
//! (default 10) and a block (default 100, where GitHub refuses the push).

use vstd::prelude::*;
use crate::text::{decimal, decimal_chars, push_chars, push_str, string_of};
use crate::check::Severity;
use crate::finding::Finding;
use crate::check::Outcome;
use crate::ui::spec_sanitize;

verus! {

/// One megabyte.
pub const MB: u64 = 1048576;

/// The check's own short name, and the `check` field of every finding.
pub const NAME: &'static str = "large-files";

/// A configured number of megabytes, or the default when it is unset or
/// outside `1..=1_000_000`.
pub open spec fn setting_or(setting: Option<i64>, default: u64) -> u64 {
    match setting {
        Some(v) => if 1 <= v <= 1_000_000 {
            v as u64
        } else {
            default
        },
        None => default,
    }
}

fn setting_or_exec(setting: Option<i64>, default: u64) -> (r: u64)
    ensures
        r == setting_or(setting, default),
{
    match setting {
        Some(v) => if 1 <= v && v <= 1_000_000 {
            v as u64
        } else {
            default
        },
        None => default,
    }
}

/// A configured number of megabytes within `1..=1_000_000` is used as
/// given; an unset one, or one outside that range, gives the default.
pub proof fn a_configured_size_is_used_as_given(setting: Option<i64>, default: u64)
    ensures
        setting matches Some(v) ==> (1 <= v <= 1_000_000 ==> setting_or(setting, default) == v),
        setting is None ==> setting_or(setting, default) == default,
        setting matches Some(v) ==> ((v < 1 || v > 1_000_000) ==> setting_or(setting, default) == default),
{
}

/// The two thresholds, in bytes, from the configured `amont.largeFileWarn`
/// and `amont.largeFileBlock` (in megabytes).
pub fn thresholds(warn_setting: Option<i64>, block_setting: Option<i64>) -> (r: (u64, u64))
    ensures
        r.0 == setting_or(warn_setting, 10) * MB,
        r.1 == setting_or(block_setting, 100) * MB,
        warn_setting matches Some(w) ==> (1 <= w <= 1_000_000 ==> r.0 == w * MB),
        block_setting matches Some(b) ==> (1 <= b <= 1_000_000 ==> r.1 == b * MB),
        (warn_setting matches Some(w) ==> !(1 <= w <= 1_000_000)) ==> r.0 == 10 * MB,
        (block_setting matches Some(b) ==> !(1 <= b <= 1_000_000)) ==> r.1 == 100 * MB,
{
    proof {
        a_configured_size_is_used_as_given(warn_setting, 10);
        a_configured_size_is_used_as_given(block_setting, 100);
    }
    let warn = setting_or_exec(warn_setting, 10);
    let block = setting_or_exec(block_setting, 100);
    assert(warn * MB <= 1_000_000 * MB) by (nonlinear_arith)
        requires
            warn <= 1_000_000,
    ;
    assert(block * MB <= 1_000_000 * MB) by (nonlinear_arith)
        requires
            block <= 1_000_000,
    ;
    (warn * MB, block * MB)
}

/// What a blocking finding says of a file of `mb` megabytes over `limit`.
pub open spec fn block_message(mb: nat, limit: nat) -> Seq<char> {
    decimal(mb) + " MB — over the "@ + decimal(limit)
        + " MB limit (GitHub refuses these at push). Use git-lfs, or keep it out of history: deletion later does not remove the bytes"@
}

/// What a warning says of a file of `mb` megabytes.
pub open spec fn warn_message(mb: nat) -> Seq<char> {
    decimal(mb) + " MB — every future clone pays for this forever (git config amont.largeFileWarn to tune)"@
}

/// A finding for one file's size, or none within both thresholds: a block
/// at or over the block threshold, else a warning at or over the warning
/// threshold. The finding has no position: the problem is the whole file.
pub fn scan(file: &str, len: u64, thresholds: (u64, u64)) -> (r: Option<Finding>)
    ensures
        len >= thresholds.1 ==> (r matches Some(f) && f.severity == Severity::Block && f.message@
            == block_message((len / MB) as nat, (thresholds.1 / MB) as nat)),
        thresholds.0 <= len < thresholds.1 ==> (r matches Some(f) && f.severity == Severity::Warn
            && f.message@ == warn_message((len / MB) as nat)),
        len < thresholds.0 && len < thresholds.1 ==> r is None,
        r matches Some(f) ==> (f.check@ == NAME@ && f.file@ == crate::ui::spec_sanitize(file@) && f.line is None
            && f.column is None),
{
    let (warn_bytes, block_bytes) = thresholds;
    let shown = crate::ui::sanitize(file);
    let mb = len / MB;
    if len >= block_bytes {
        let mut msg: Vec<char> = Vec::new();
        push_chars(&mut msg, &decimal_chars(mb));
        push_str(&mut msg, " MB — over the ");
        push_chars(&mut msg, &decimal_chars(block_bytes / MB));
        push_str(
            &mut msg,
            " MB limit (GitHub refuses these at push). Use git-lfs, or keep it out of history: deletion later does not remove the bytes",
        );
        let m = string_of(&msg);
        Some(Finding::new(NAME, shown.as_str(), Severity::Block, m.as_str()))
    } else if len >= warn_bytes {
        let mut msg: Vec<char> = Vec::new();
        push_chars(&mut msg, &decimal_chars(mb));
        push_str(
            &mut msg,
            " MB — every future clone pays for this forever (git config amont.largeFileWarn to tune)",
        );
        let m = string_of(&msg);
        Some(Finding::new(NAME, shown.as_str(), Severity::Warn, m.as_str()))
    } else {
        None
    }
}

/// What the commit hook says of one staged file of `len` bytes, if
/// anything: how loudly, and the line.
pub open spec fn size_line(file: Seq<char>, len: u64, thresholds: (u64, u64)) -> Option<(Severity, Seq<char>)> {
    if len >= thresholds.1 {
        Some((Severity::Block, "large-files: "@ + spec_sanitize(file) + " is "@
            + block_message((len / MB) as nat, (thresholds.1 / MB) as nat)))
    } else if len >= thresholds.0 {
        Some((Severity::Warn, "large-files: "@ + spec_sanitize(file) + " is "@ + warn_message((len / MB) as nat)))
    } else {
        None
    }
}

/// The lines for the first `k` staged files, in order.
pub open spec fn size_lines(files: Seq<(Seq<char>, u64)>, thresholds: (u64, u64), k: int) -> Seq<(Severity, Seq<char>)>
    decreases k,
{
    if k <= 0 || k > files.len() {
        Seq::empty()
    } else {
        match size_line(files[k - 1].0, files[k - 1].1, thresholds) {
            Some(l) => size_lines(files, thresholds, k - 1).push(l),
            None => size_lines(files, thresholds, k - 1),
        }
    }
}

pub open spec fn file_views(files: Seq<(String, u64)>) -> Seq<(Seq<char>, u64)> {
    files.map_values(|f: (String, u64)| (f.0@, f.1))
}

pub open spec fn line_views(ls: Seq<(Severity, String)>) -> Seq<(Severity, Seq<char>)> {
    ls.map_values(|l: (Severity, String)| (l.0, l.1@))
}

/// The staged files that are regular files, each with its size: what they
/// come to — blocked when any is over the block threshold, else warned when
/// any is over the warning one, else passed — and the line for each that
/// is either.
pub fn staged(files: &[(String, u64)], thresholds: (u64, u64)) -> (r: (Outcome, Vec<(Severity, String)>))
    ensures
        line_views(r.1@) == size_lines(file_views(files@), thresholds, files@.len() as int),
        r.0 == (if exists|i: int| 0 <= i < r.1@.len() && r.1@[i].0 == Severity::Block {
            Outcome::Failed
        } else if r.1@.len() > 0 {
            Outcome::Warned
        } else {
            Outcome::Passed
        }),
{
    let ghost fv = file_views(files@);
    let mut lines: Vec<(Severity, String)> = Vec::new();
    let mut blocked = false;
    let mut k: usize = 0;
    while k < files.len()
        invariant
            k <= files@.len(),
            fv == file_views(files@),
            line_views(lines@) == size_lines(fv, thresholds, k as int),
            blocked == exists|i: int| 0 <= i < lines@.len() && lines@[i].0 == Severity::Block,
        decreases files.len() - k,
    {
        assert(fv[k as int] == (files@[k as int].0@, files@[k as int].1));
        let (name, len) = (&files[k].0, files[k].1);
        match scan(name.as_str(), len, thresholds) {
            Some(f) => {
                let mut line = crate::text::chars_of("large-files: ");
                push_str(&mut line, f.file.as_str());
                push_str(&mut line, " is ");
                push_str(&mut line, f.message.as_str());
                let ghost before = lines@;
                let sev = f.severity;
                lines.push((sev, string_of(&line)));
                assert(line_views(lines@) =~= line_views(before).push((sev, line@)));
                if sev == Severity::Block {
                    blocked = true;
                }
                proof {
                    assert(lines@[lines@.len() - 1].0 == sev);
                    if !(exists|i: int| 0 <= i < before.len() && before[i].0 == Severity::Block) && sev != Severity::Block {
                        assert forall|i: int| 0 <= i < lines@.len() implies lines@[i].0 != Severity::Block by {
                            if i < before.len() {
                                assert(lines@[i] == before[i]);
                            }
                        }
                    }
                    if exists|i: int| 0 <= i < before.len() && before[i].0 == Severity::Block {
                        let i = choose|i: int| 0 <= i < before.len() && before[i].0 == Severity::Block;
                        assert(lines@[i] == before[i]);
                    }
                }
            },
            None => {},
        }
        k += 1;
    }
    let outcome = if blocked {
        Outcome::Failed
    } else if lines.len() > 0 {
        Outcome::Warned
    } else {
        Outcome::Passed
    };
    (outcome, lines)
}

} // verus!
