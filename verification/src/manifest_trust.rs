//! pre-commit-manifest-trust: a commit that changes `amont.conf` cannot be
//! gated by the checks that file declares until they are trusted, so such
//! a commit is refused with the fix named. Nothing here trusts anything:
//! refusing runs no command.

use vstd::prelude::*;
use crate::check::Outcome;
use crate::text::{chars_of, string_of, push_str, push_chars, decimal, decimal_chars};
use crate::naming::join_with;
use crate::run_tests::strs;

verus! {

pub const MANIFEST: &'static str = "amont.conf";

/// Where the manifest stands with the person committing.
#[derive(Debug, Clone, Copy, PartialEq, Eq, Structural)]
pub enum TrustState {
    Trusted,
    NoManifest,
    Untrusted,
    Changed,
}

pub open spec fn untrusted_why(state: TrustState) -> Seq<char> {
    if state == TrustState::Changed {
        "it changed since it was trusted"@
    } else {
        "it has never been trusted here"@
    }
}

/// The refusal: how many checks stand down and which, why, and what to do
/// — `trust_cmd` is `amont trust` as the terminal shows it.
pub open spec fn refusal(names: Seq<Seq<char>>, state: TrustState, trust_cmd: Seq<char>) -> Seq<char> {
    "this commit changes amont.conf, and the "@ + decimal(names.len()) + " check(s) it declares ("@
        + join_with(names, ", "@, names.len() as int) + ") cannot gate it: "@ + untrusted_why(state)
        + ". Review it with "@ + trust_cmd
        + ", accept it, and commit again \u{2014} otherwise this commit goes through with them unrun."@
}

pub const TRUSTED: &'static str = "amont.conf is trusted as staged; its checks gate this commit";

/// What the check concludes for a commit that stages the manifest, given
/// the short names of the checks the manifest declares and its trust state,
/// with what it says: nothing when it declares no check; the manifest's
/// standing when trusted (or gone); else the refusal.
pub fn run_in(short_names: &[String], state: TrustState, trust_cmd: &str) -> (r: (Outcome, String))
    ensures
        short_names@.len() == 0 ==> r.0 == Outcome::Passed && r.1@.len() == 0,
        short_names@.len() > 0 && (state == TrustState::Trusted || state == TrustState::NoManifest)
            ==> r.0 == Outcome::Passed && r.1@ == TRUSTED@,
        short_names@.len() > 0 && (state == TrustState::Untrusted || state == TrustState::Changed)
            ==> r.0 == Outcome::Failed && r.1@ == refusal(strs(short_names@), state, trust_cmd@),
{
    if short_names.len() == 0 {
        return (Outcome::Passed, String::new());
    }
    match state {
        TrustState::Trusted | TrustState::NoManifest => (Outcome::Passed, string_of(&chars_of(TRUSTED))),
        _ => {
            let ghost ns = strs(short_names@);
            let mut joined: Vec<char> = Vec::new();
            let mut k: usize = 0;
            while k < short_names.len()
                invariant
                    k <= short_names@.len(),
                    ns == strs(short_names@),
                    joined@ == join_with(ns, ", "@, k as int),
                decreases short_names.len() - k,
            {
                if k > 0 {
                    push_str(&mut joined, ", ");
                }
                push_str(&mut joined, short_names[k].as_str());
                assert(ns[k as int] == short_names@[k as int]@);
                k += 1;
            }
            let mut out = chars_of("this commit changes amont.conf, and the ");
            push_chars(&mut out, &decimal_chars(short_names.len() as u64));
            push_str(&mut out, " check(s) it declares (");
            push_chars(&mut out, &joined);
            push_str(&mut out, ") cannot gate it: ");
            if state == TrustState::Changed {
                push_str(&mut out, "it changed since it was trusted");
            } else {
                push_str(&mut out, "it has never been trusted here");
            }
            push_str(&mut out, ". Review it with ");
            push_str(&mut out, trust_cmd);
            push_str(&mut out, ", accept it, and commit again \u{2014} otherwise this commit goes through with them unrun.");
            assert(ns.len() == short_names@.len());
            assert(out@ =~= refusal(ns, state, trust_cmd@));
            (Outcome::Failed, string_of(&out))
        },
    }
}

} // verus!
