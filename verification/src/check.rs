//! The vocabulary every check speaks: how loudly it refuses, and what it
//! concluded.

use vstd::prelude::*;
use crate::text::{chars_of, string_of, vec_eq, vec_ends_with, ends_with};
use crate::paths::{file_name, file_name_of};
use crate::run_tests::strs;

verus! {

/// How a check's failure lands: `Block` refuses the commit or push, `Warn`
/// reports and lets it through.
#[derive(Debug, Clone, Copy, PartialEq, Eq, Structural)]
pub enum Severity {
    Block,
    Warn,
}

/// What one check concluded.
#[derive(Debug, Clone, Copy, PartialEq, Eq, Structural)]
pub enum Outcome {
    Passed,
    Warned,
    Failed,
    Fixed,
    /// The tool the check needs is not there; reported, never blocking.
    Unavailable,
    /// The check is declared but not trusted, so it did not run.
    Inert,
}

/// The trigger a check is attached to.
#[derive(Debug, Clone, Copy, PartialEq, Eq, Structural)]
pub enum Stage {
    PreCommit,
    PrePush,
}

/// A stage as config spells it — the same word an id starts with.
pub open spec fn stage_text(s: Stage) -> Seq<char> {
    match s {
        Stage::PreCommit => "pre-commit"@,
        Stage::PrePush => "pre-push"@,
    }
}

impl Stage {
    pub fn as_str(self) -> (r: &'static str)
        ensures
            r@ == stage_text(self),
    {
        match self {
            Stage::PreCommit => "pre-commit",
            Stage::PrePush => "pre-push",
        }
    }
}

/// Whether the commit or push goes ahead.
#[derive(Debug, Clone, Copy, PartialEq, Eq, Structural)]
pub enum Verdict {
    Proceed,
    Block,
}

/// The files a check looks at: paths ending in one of `files` (extensions
/// such as `.ts`), or whose basename is one of `names`. A scope with
/// neither is unscoped — `*` — and sees everything.
#[derive(Debug, Clone, PartialEq, Eq)]
pub struct Scope {
    pub files: Vec<String>,
    pub names: Vec<String>,
}

/// A path falls in the scope: by suffix for an extension, by basename for
/// a name — never a name by suffix.
pub open spec fn in_scope(files: Seq<Seq<char>>, names: Seq<Seq<char>>, path: Seq<char>) -> bool {
    (exists|k: int| 0 <= k < files.len() && ends_with(path, #[trigger] files[k]))
        || (exists|k: int| 0 <= k < names.len() && file_name(path) == #[trigger] names[k])
}

/// Every changed path falls in the scope; an unscoped scope covers all, and
/// no change is covered by any scope.
pub open spec fn spec_covers_all(files: Seq<Seq<char>>, names: Seq<Seq<char>>, changed: Seq<Seq<char>>) -> bool {
    (files.len() == 0 && names.len() == 0) || forall|i: int| 0 <= i < changed.len() ==> in_scope(files, names, #[trigger] changed[i])
}

/// Some path falls in the scope; an unscoped scope matches anything.
pub open spec fn spec_matches(files: Seq<Seq<char>>, names: Seq<Seq<char>>, paths: Seq<Seq<char>>) -> bool {
    (files.len() == 0 && names.len() == 0) || exists|i: int| 0 <= i < paths.len() && in_scope(files, names, #[trigger] paths[i])
}

impl Scope {
    /// `*`: no file filter at all.
    pub fn always() -> (s: Scope)
        ensures
            s.files@.len() == 0,
            s.names@.len() == 0,
    {
        Scope { files: Vec::new(), names: Vec::new() }
    }

    pub fn new(files: &[&str], names: &[&str]) -> (s: Scope)
        ensures
            strs(s.files@) == files@.map_values(|f: &str| f@),
            strs(s.names@) == names@.map_values(|n: &str| n@),
    {
        Scope { files: owned(files), names: owned(names) }
    }

    /// A scope of extensions only.
    pub fn of_files(files: &[&str]) -> (s: Scope)
        ensures
            strs(s.files@) == files@.map_values(|f: &str| f@),
            s.names@.len() == 0,
    {
        Scope { files: owned(files), names: Vec::new() }
    }

    pub fn is_unscoped(&self) -> (r: bool)
        ensures
            r == (self.files@.len() == 0 && self.names@.len() == 0),
    {
        self.files.len() == 0 && self.names.len() == 0
    }

    pub fn contains(&self, path: &str) -> (r: bool)
        ensures
            r == in_scope(strs(self.files@), strs(self.names@), path@),
    {
        let p = chars_of(path);
        let ghost fs = strs(self.files@);
        let ghost ns = strs(self.names@);
        let mut k: usize = 0;
        while k < self.files.len()
            invariant
                k <= self.files@.len(),
                fs == strs(self.files@),
                p@ == path@,
                forall|m: int| 0 <= m < k ==> !ends_with(path@, #[trigger] fs[m]),
            decreases self.files.len() - k,
        {
            assert(fs[k as int] == self.files@[k as int]@);
            if vec_ends_with(&p, &chars_of(self.files[k].as_str())) {
                return true;
            }
            k += 1;
        }
        let base = file_name_of(&p);
        let mut k: usize = 0;
        while k < self.names.len()
            invariant
                k <= self.names@.len(),
                ns == strs(self.names@),
                fs == strs(self.files@),
                base@ == file_name(path@),
                forall|m: int| 0 <= m < fs.len() ==> !ends_with(path@, #[trigger] fs[m]),
                forall|m: int| 0 <= m < k ==> file_name(path@) != #[trigger] ns[m],
            decreases self.names.len() - k,
        {
            assert(ns[k as int] == self.names@[k as int]@);
            if vec_eq(&base, &chars_of(self.names[k].as_str())) {
                return true;
            }
            k += 1;
        }
        false
    }

    pub fn covers_all(&self, changed: &[String]) -> (r: bool)
        ensures
            r == spec_covers_all(strs(self.files@), strs(self.names@), strs(changed@)),
    {
        if self.is_unscoped() {
            return true;
        }
        let ghost cs = strs(changed@);
        let mut i: usize = 0;
        while i < changed.len()
            invariant
                i <= changed@.len(),
                cs == strs(changed@),
                !(self.files@.len() == 0 && self.names@.len() == 0),
                forall|m: int| 0 <= m < i ==> in_scope(strs(self.files@), strs(self.names@), #[trigger] cs[m]),
            decreases changed.len() - i,
        {
            assert(cs[i as int] == changed@[i as int]@);
            if !self.contains(changed[i].as_str()) {
                assert(strs(self.files@).len() == self.files@.len());
                assert(strs(self.names@).len() == self.names@.len());
                assert(!in_scope(strs(self.files@), strs(self.names@), cs[i as int]));
                return false;
            }
            i += 1;
        }
        true
    }

    pub fn matches(&self, paths: &[String]) -> (r: bool)
        ensures
            r == spec_matches(strs(self.files@), strs(self.names@), strs(paths@)),
    {
        if self.is_unscoped() {
            return true;
        }
        let ghost ps = strs(paths@);
        let mut i: usize = 0;
        while i < paths.len()
            invariant
                i <= paths@.len(),
                ps == strs(paths@),
                !(self.files@.len() == 0 && self.names@.len() == 0),
                forall|m: int| 0 <= m < i ==> !in_scope(strs(self.files@), strs(self.names@), #[trigger] ps[m]),
            decreases paths.len() - i,
        {
            assert(ps[i as int] == paths@[i as int]@);
            if self.contains(paths[i].as_str()) {
                return true;
            }
            i += 1;
        }
        false
    }
}

fn owned(items: &[&str]) -> (r: Vec<String>)
    ensures
        strs(r@) == items@.map_values(|f: &str| f@),
{
    let mut r: Vec<String> = Vec::new();
    let mut k: usize = 0;
    while k < items.len()
        invariant
            k <= items@.len(),
            strs(r@) == items@.take(k as int).map_values(|f: &str| f@),
        decreases items.len() - k,
    {
        let ghost before = r@;
        let item = string_of(&chars_of(items[k]));
        r.push(item);
        assert(r@ == before.push(item));
        assert(items@.take(k + 1) =~= items@.take(k as int).push(items@[k as int]));
        assert(strs(r@) =~= strs(before).push(item@));
        assert(strs(r@) =~= items@.take(k + 1).map_values(|f: &str| f@));
        k += 1;
    }
    assert(items@.take(k as int) =~= items@);
    r
}

} // verus!
