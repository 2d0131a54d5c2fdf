//! `pre-push-branch-protect`: refuse a direct push to a protected branch,
//! and warn at commit time when the work is landing on one.
//!
//! The check reads the REMOTE ref — what is written to, not what is pushed
//! from — so `git push origin feature:main` is a push to main however the
//! local branch is named. A push that creates the branch on the remote has
//! nothing to protect yet; a delete is the most destructive write of all.

use vstd::prelude::*;
use crate::check::Outcome;
use crate::pushrefs::PushRef;
use crate::text::{chars_of, vec_eq, starts_with, matches_at, slice_of, push_str, string_of};

verus! {

/// The protected branch names.
pub open spec fn protected(name: Seq<char>) -> bool {
    name == "main"@ || name == "master"@
}

/// The branch a remote ref names under `refs/heads/`, if it is protected.
pub open spec fn spec_protected_name(remote_ref: Seq<char>) -> Option<Seq<char>> {
    if starts_with(remote_ref, "refs/heads/"@) && protected(remote_ref.skip(11)) {
        Some(remote_ref.skip(11))
    } else {
        None
    }
}

/// git's spelling of "no object": nothing but zeros, and at least one.
pub open spec fn all_zero(oid: Seq<char>) -> bool {
    oid.len() > 0 && forall|k: int| 0 <= k < oid.len() ==> #[trigger] oid[k] == '0'
}

/// A push that creates the ref on the remote: the remote oid is all zeros.
pub open spec fn spec_is_creation(r: PushRef) -> bool {
    all_zero(r.remote_oid@)
}

/// A push that deletes the remote ref: the local oid is all zeros.
pub open spec fn spec_is_delete(r: PushRef) -> bool {
    all_zero(r.local_oid@)
}

/// The refused refs among the first `k`: protected branch name, and
/// whether the push deletes it. Creations are never refused.
pub open spec fn blocked_upto(refs: Seq<PushRef>, k: int) -> Seq<(Seq<char>, bool)>
    decreases k,
{
    if k <= 0 {
        seq![]
    } else {
        let prev = blocked_upto(refs, k - 1);
        let r = refs[k - 1];
        if spec_is_creation(r) {
            prev
        } else {
            match spec_protected_name(r.remote_ref@) {
                Some(name) => prev.push((name, spec_is_delete(r))),
                None => prev,
            }
        }
    }
}

pub fn is_all_zero(oid: &str) -> (r: bool)
    ensures
        r == all_zero(oid@),
{
    let v = chars_of(oid);
    if v.len() == 0 {
        return false;
    }
    let mut k: usize = 0;
    while k < v.len()
        invariant
            k <= v.len(),
            v@ == oid@,
            forall|m: int| 0 <= m < k ==> #[trigger] v@[m] == '0',
        decreases v.len() - k,
    {
        if v[k] != '0' {
            return false;
        }
        k += 1;
    }
    true
}

/// Does this ref create its branch on the remote?
pub fn is_creation(r: &PushRef) -> (b: bool)
    ensures
        b == spec_is_creation(*r),
{
    is_all_zero(r.remote_oid.as_str())
}

/// The protected branch a remote ref writes to, if any.
pub fn protected_name(remote_ref: &str) -> (r: Option<String>)
    ensures
        match r {
            Some(n) => spec_protected_name(remote_ref@) == Some(n@),
            None => spec_protected_name(remote_ref@) is None,
        },
{
    proof {
        reveal_strlit("refs/heads/");
        reveal_strlit("main");
        reveal_strlit("master");
    }
    let v = chars_of(remote_ref);
    let prefix = chars_of("refs/heads/");
    if v.len() < prefix.len() || !matches_at(&v, &prefix, 0) {
        return None;
    }
    assert(starts_with(v@, "refs/heads/"@)) by {
        assert(v@.subrange(0, 11) =~= "refs/heads/"@);
    }
    let name = slice_of(&v, 11, v.len());
    assert(name@ =~= v@.skip(11));
    if vec_eq(&name, &chars_of("main")) || vec_eq(&name, &chars_of("master")) {
        Some(string_of(&name))
    } else {
        None
    }
}

/// Every ref this push may not make: the protected branch it writes to and
/// whether it deletes it, in push order.
pub fn blocked(refs: &[PushRef]) -> (r: Vec<(String, bool)>)
    ensures
        r@.map_values(|b: (String, bool)| (b.0@, b.1)) == blocked_upto(refs@, refs@.len() as int),
{
    let mut out: Vec<(String, bool)> = Vec::new();
    let mut k: usize = 0;
    while k < refs.len()
        invariant
            k <= refs@.len(),
            out@.map_values(|b: (String, bool)| (b.0@, b.1)) == blocked_upto(refs@, k as int),
        decreases refs.len() - k,
    {
        let r = &refs[k];
        if !is_creation(r) {
            match protected_name(r.remote_ref.as_str()) {
                Some(name) => {
                    let ghost before = out@.map_values(|b: (String, bool)| (b.0@, b.1));
                    let deleting = is_all_zero(r.local_oid.as_str());
                    let ghost nv = name@;
                    out.push((name, deleting));
                    assert(out@.map_values(|b: (String, bool)| (b.0@, b.1)) =~= before.push((nv, deleting)));
                },
                None => {},
            }
        }
        k += 1;
    }
    out
}

/// The push's outcome: failed when any ref writes to a protected branch
/// that the remote already has, passed otherwise.
pub fn run(refs: &[PushRef]) -> (o: Outcome)
    ensures
        o == if blocked_upto(refs@, refs@.len() as int).len() == 0 {
            Outcome::Passed
        } else {
            Outcome::Failed
        },
{
    let b = blocked(refs);
    if b.len() == 0 {
        Outcome::Passed
    } else {
        Outcome::Failed
    }
}

/// The refusal for one blocked ref.
pub open spec fn refusal_line(name: Seq<char>, deleting: bool) -> Seq<char> {
    (if deleting {
        "Deleting"@
    } else {
        "Pushing to"@
    }) + " branch "@ + name + " is forbidden. Open a Pull Request."@
}

/// What a refused push says about one blocked ref.
pub fn refusal(name: &str, deleting: bool) -> (r: String)
    ensures
        r@ == refusal_line(name@, deleting),
{
    let mut out: Vec<char> = Vec::new();
    if deleting {
        push_str(&mut out, "Deleting");
    } else {
        push_str(&mut out, "Pushing to");
    }
    push_str(&mut out, " branch ");
    push_str(&mut out, name);
    push_str(&mut out, " is forbidden. Open a Pull Request.");
    string_of(&out)
}

/// The commit-time voice of the same rule: a warning when the checkout is
/// on a protected branch that already exists on a remote — pushing it will
/// be refused. Quiet on a detached head (`branch` is `None`), in a
/// repository without a remote, and for a branch no remote has yet.
pub fn early(branch: Option<&str>, has_remote: bool, on_a_remote: bool) -> (o: Outcome)
    ensures
        o == match branch {
            Some(b) => if protected(b@) && has_remote && on_a_remote {
                Outcome::Warned
            } else {
                Outcome::Passed
            },
            None => Outcome::Passed,
        },
{
    proof {
        reveal_strlit("main");
        reveal_strlit("master");
    }
    match branch {
        Some(b) => {
            let v = chars_of(b);
            let p = vec_eq(&v, &chars_of("main")) || vec_eq(&v, &chars_of("master"));
            if p && has_remote && on_a_remote {
                Outcome::Warned
            } else {
                Outcome::Passed
            }
        },
        None => Outcome::Passed,
    }
}

} // verus!
