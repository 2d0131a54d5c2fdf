//! Signed attestations that a push's gates passed on a tree, for CI to
//! skip what already ran: the signed payload's exact bytes, the note they
//! travel in, and which notes a CI leg may accept before checking the
//! signature.

use vstd::prelude::*;
use crate::text::{chars_of, string_of, vec_eq, slice_of, views, starts_with, lines_of, split_lines, trim, trim_vec, push_str, push_chars, matches_at, contains, occurs_at};
use crate::agents_md::{find_first, find_str};
use crate::ledger::{words, split_words};
use crate::naming::join_with;
use crate::ledger::is_word;
use crate::gate_stamp::lemma_joined_words;
use crate::text::{is_space, plain_line, lemma_lines_of_append, lemma_lines_of_line, lemma_trim_unspaced};
use crate::run_tests::strs;
use crate::pushrefs::PushRef;
use crate::text::{decode_lossy, utf8_lossy};

verus! {

/// The payload's first line; a note under any other reads as no note.
pub const FORMAT: &'static str = "amont-attest-v2";

/// The notes ref the attestations live under.
pub const NOTES_REF: &'static str = "amont-attest";
pub const NOTES_FULL_REF: &'static str = "refs/notes/amont-attest";

/// The `ssh-keygen -Y` namespace a signature is made in.
pub const NAMESPACE: &'static str = "amont-attest";

/// Set on the notes push, so the pre-push it triggers yields.
pub const PUSH_GUARD: &'static str = "AMONT_ATTEST_PUSH";

/// The exact bytes a signature covers, one datum per line and the trailing
/// newline included: the format, the tree, the gates that passed, where
/// they ran and which amont ran them.
pub open spec fn spec_payload(tree: Seq<char>, gates: Seq<Seq<char>>, platform: Seq<char>, version: Seq<char>) -> Seq<char> {
    FORMAT@ + "\ntree "@ + tree + "\ngates "@ + join_with(gates, " "@, gates.len() as int) + "\nplatform "@ + platform
        + "\namont "@ + version + "\n"@
}

/// `platform` is `<arch>-<os>`; `version` is amont's own.
pub fn payload(tree: &str, gates: &[String], platform: &str, version: &str) -> (r: String)
    ensures
        r@ == spec_payload(tree@, strs(gates@), platform@, version@),
{
    let ghost gs = strs(gates@);
    let mut joined: Vec<char> = Vec::new();
    let mut k: usize = 0;
    while k < gates.len()
        invariant
            k <= gates@.len(),
            gs == strs(gates@),
            joined@ == join_with(gs, " "@, k as int),
        decreases gates.len() - k,
    {
        if k > 0 {
            push_str(&mut joined, " ");
        }
        push_str(&mut joined, gates[k].as_str());
        assert(gs[k as int] == gates@[k as int]@);
        k += 1;
    }
    let mut out: Vec<char> = Vec::new();
    push_str(&mut out, FORMAT);
    push_str(&mut out, "\ntree ");
    push_str(&mut out, tree);
    push_str(&mut out, "\ngates ");
    push_chars(&mut out, &joined);
    push_str(&mut out, "\nplatform ");
    push_str(&mut out, platform);
    push_str(&mut out, "\namont ");
    push_str(&mut out, version);
    push_str(&mut out, "\n");
    string_of(&out)
}

/// Whether a push is worth attesting at all: something passed, there is a
/// remote to carry the note, and the repository opted in.
pub fn worth_attesting(remote: &str, gates: &[String], enabled: bool) -> (r: bool)
    ensures
        r == (gates@.len() > 0 && remote@.len() > 0 && enabled),
{
    gates.len() > 0 && chars_of(remote).len() > 0 && enabled
}

pub const SIGNATURE_HEAD: &'static str = "-----BEGIN SSH SIGNATURE-----";

/// What `ssh-keygen -Y sign` printed, as a signature: only from a run that
/// succeeded, trimmed, and only when it is an armored SSH signature.
pub open spec fn spec_signature(succeeded: bool, stdout: Seq<u8>) -> Option<Seq<char>> {
    let sig = trim(utf8_lossy(stdout));
    if succeeded && starts_with(sig, SIGNATURE_HEAD@) {
        Some(sig)
    } else {
        None
    }
}

pub fn signature_from(succeeded: bool, stdout: &[u8]) -> (r: Option<String>)
    ensures
        match r {
            Some(s) => spec_signature(succeeded, stdout@) == Some(s@),
            None => spec_signature(succeeded, stdout@) is None,
        },
{
    if !succeeded {
        return None;
    }
    let text = decode_lossy(stdout);
    let sig = trim_vec(&chars_of(text.as_str()));
    let head = chars_of(SIGNATURE_HEAD);
    if head.len() <= sig.len() && matches_at(&sig, &head, 0) {
        Some(string_of(&sig))
    } else {
        None
    }
}

/// The note a signed payload travels in: the payload, a blank line, the
/// signature — what [`split_note`] takes apart again.
pub fn note_body(payload: &str, sig: &str) -> (r: String)
    ensures
        r@ == payload@ + "\n"@ + sig@,
{
    let mut out = chars_of(payload);
    push_str(&mut out, "\n");
    push_str(&mut out, sig);
    string_of(&out)
}

/// The pushed objects that get a note, in push order: every ref's local
/// object but a deletion's, which pushes no code.
pub open spec fn targets_upto(refs: Seq<PushRef>, k: int) -> Seq<Seq<char>>
    decreases k,
{
    if k <= 0 || k > refs.len() {
        Seq::empty()
    } else if spec_is_zero(refs[k - 1].local_oid@) {
        targets_upto(refs, k - 1)
    } else {
        targets_upto(refs, k - 1).push(refs[k - 1].local_oid@)
    }
}

pub fn targets(refs: &[PushRef]) -> (r: Vec<String>)
    ensures
        strs(r@) == targets_upto(refs@, refs@.len() as int),
{
    let mut r: Vec<String> = Vec::new();
    let mut k: usize = 0;
    while k < refs.len()
        invariant
            k <= refs@.len(),
            strs(r@) == targets_upto(refs@, k as int),
        decreases refs.len() - k,
    {
        if !is_zero(refs[k].local_oid.as_str()) {
            let ghost before = strs(r@);
            let oid = string_of(&chars_of(refs[k].local_oid.as_str()));
            r.push(oid);
            assert(strs(r@) =~= before.push(refs@[k as int].local_oid@));
        }
        k += 1;
    }
    r
}

/// An oid that is all zeros — git's "no object", at any hash width.
pub open spec fn spec_is_zero(oid: Seq<char>) -> bool {
    oid.len() > 0 && forall|k: int| 0 <= k < oid.len() ==> #[trigger] oid[k] == '0'
}

pub fn is_zero(oid: &str) -> (r: bool)
    ensures
        r == spec_is_zero(oid@),
{
    crate::branch_protect::is_all_zero(oid)
}

/// A note body back into the signed bytes and the signature: split at the
/// first blank line, the signature an armored SSH one, and the payload's
/// trailing newline — eaten by the split — restored.
pub open spec fn spec_split_note(body: Seq<char>) -> Option<(Seq<char>, Seq<char>)> {
    match find_first(body, "\n\n"@) {
        None => None,
        Some(i) => {
            let sig = body.skip(i + 2);
            if starts_with(sig, "-----BEGIN SSH SIGNATURE-----"@) {
                Some((body.take(i) + "\n"@, sig))
            } else {
                None
            }
        },
    }
}

pub fn split_note(body: &str) -> (r: Option<(String, String)>)
    ensures
        match r {
            Some((p, s)) => spec_split_note(body@) == Some((p@, s@)),
            None => spec_split_note(body@) is None,
        },
{
    proof {
        reveal_strlit("\n\n");
        reveal_strlit("\n");
        reveal_strlit("-----BEGIN SSH SIGNATURE-----");
    }
    let b = chars_of(body);
    let sep = chars_of("\n\n");
    match find_str(&b, &sep) {
        None => None,
        Some(i) => {
            proof {
                crate::run_tests::lemma_find_from_bound(b@, sep@, 0);
                assert(sep@.len() == 2);
                assert(crate::agents_md::find_from(b@, sep@, 0) == Some(i as int));
                assert(i + 2 <= b@.len());
            }
            assert(b@.len() == b.len());
            let sig = slice_of(&b, i + 2, b.len());
            assert(sig@ =~= b@.skip(i + 2));
            let head = chars_of("-----BEGIN SSH SIGNATURE-----");
            if head.len() <= sig.len() && matches_at(&sig, &head, 0) {
                let mut p = slice_of(&b, 0, i);
                p.push('\n');
                assert(p@ =~= b@.take(i as int) + "\n"@);
                Some((string_of(&p), string_of(&sig)))
            } else {
                None
            }
        },
    }
}

/// The first line of the payload that is `<name> <value>`, its value
/// trimmed.
pub open spec fn field_from(ls: Seq<Seq<char>>, name: Seq<char>, k: int) -> Option<Seq<char>>
    decreases ls.len() - k,
{
    if k < 0 || k >= ls.len() {
        None
    } else if starts_with(ls[k], name + " "@) {
        Some(trim(ls[k].skip((name.len() + 1) as int)))
    } else {
        field_from(ls, name, k + 1)
    }
}

fn field(ls: &Vec<Vec<char>>, name: &str) -> (r: Option<Vec<char>>)
    ensures
        match r {
            Some(v) => field_from(views(ls@), name@, 0) == Some(v@),
            None => field_from(views(ls@), name@, 0) is None,
        },
{
    proof {
        reveal_strlit(" ");
    }
    let mut key = chars_of(name);
    key.push(' ');
    assert(key@ =~= name@ + " "@);
    assert(key@.len() == name@.len() + 1);
    let mut k: usize = 0;
    while k < ls.len()
        invariant
            k <= ls@.len(),
            key@ == name@ + " "@,
            key@.len() == name@.len() + 1,
            field_from(views(ls@), name@, k as int) == field_from(views(ls@), name@, 0),
        decreases ls.len() - k,
    {
        assert(views(ls@)[k as int] == ls@[k as int]@);
        if key.len() <= ls[k].len() && matches_at(&ls[k], &key, 0) {
            let rest = slice_of(&ls[k], key.len(), ls[k].len());
            assert(rest@ =~= ls@[k as int]@.skip((name@.len() + 1) as int));
            return Some(trim_vec(&rest));
        }
        k += 1;
    }
    None
}

/// What a CI leg may accept from a note's payload before checking its
/// signature: the right format, the tree being built, some gates, and —
/// when the leg names one — the platform it runs on. Then the gates.
pub open spec fn spec_acceptable(payload: Seq<char>, head_tree: Seq<char>, require_platform: Option<Seq<char>>) -> Option<Seq<char>> {
    let ls = lines_of(payload);
    if ls.len() == 0 || ls[0] != FORMAT@ {
        None
    } else {
        match (field_from(ls, "tree"@, 0), field_from(ls, "gates"@, 0), field_from(ls, "platform"@, 0)) {
            (Some(tree), Some(gates), Some(ran_on)) => if tree != head_tree || gates.len() == 0 {
                None
            } else if require_platform matches Some(want) && want != ran_on {
                None
            } else {
                Some(gates)
            },
            _ => None,
        }
    }
}

pub open spec fn opt_str(o: Option<&str>) -> Option<Seq<char>> {
    match o {
        Some(s) => Some(s@),
        None => None,
    }
}

pub fn acceptable(payload: &str, head_tree: &str, require_platform: Option<&str>) -> (r: Option<String>)
    ensures
        match r {
            Some(g) => spec_acceptable(payload@, head_tree@, opt_str(require_platform)) == Some(g@),
            None => spec_acceptable(payload@, head_tree@, opt_str(require_platform)) is None,
        },
{
    let ls = split_lines(&chars_of(payload));
    if ls.len() == 0 {
        return None;
    }
    assert(views(ls@)[0] == ls@[0]@);
    if !vec_eq(&ls[0], &chars_of(FORMAT)) {
        return None;
    }
    let tree = field(&ls, "tree");
    let gates = field(&ls, "gates");
    let ran_on = field(&ls, "platform");
    match (tree, gates, ran_on) {
        (Some(t), Some(g), Some(p)) => {
            if !vec_eq(&t, &chars_of(head_tree)) || g.len() == 0 {
                return None;
            }
            match require_platform {
                Some(want) => {
                    if !vec_eq(&chars_of(want), &p) {
                        return None;
                    }
                },
                None => {},
            }
            Some(string_of(&g))
        },
        _ => None,
    }
}

/// The first principal an `allowed_signers` file names: the first word of
/// its first line, trimmed, that is neither blank nor a comment.
pub open spec fn principal_from(ls: Seq<Seq<char>>, k: int) -> Option<Seq<char>>
    decreases ls.len() - k,
{
    if k < 0 || k >= ls.len() {
        None
    } else if trim(ls[k]).len() > 0 && trim(ls[k])[0] != '#' {
        if words(trim(ls[k])).len() > 0 {
            Some(words(trim(ls[k]))[0])
        } else {
            None
        }
    } else {
        principal_from(ls, k + 1)
    }
}

pub fn first_principal(signers: &str) -> (r: Option<String>)
    ensures
        match r {
            Some(p) => principal_from(lines_of(signers@), 0) == Some(p@),
            None => principal_from(lines_of(signers@), 0) is None,
        },
{
    let ls = split_lines(&chars_of(signers));
    let mut k: usize = 0;
    while k < ls.len()
        invariant
            k <= ls@.len(),
            views(ls@) == lines_of(signers@),
            principal_from(views(ls@), k as int) == principal_from(views(ls@), 0),
        decreases ls.len() - k,
    {
        assert(views(ls@)[k as int] == ls@[k as int]@);
        let t = trim_vec(&ls[k]);
        if t.len() > 0 && t[0] != '#' {
            let w = split_words(&t);
            if w.len() > 0 {
                assert(views(w@)[0] == w@[0]@);
                return Some(string_of(&w[0]));
            }
            return None;
        }
        k += 1;
    }
    None
}

/// A note splits back into exactly the payload and signature it was made
/// of, for a payload that ends its last line and holds no blank line, and
/// an armored signature.
pub proof fn note_splits_back(payload: Seq<char>, sig: Seq<char>)
    requires
        payload.len() > 0,
        payload.last() == '\n',
        !contains(payload, "\n\n"@),
        starts_with(sig, "-----BEGIN SSH SIGNATURE-----"@),
    ensures
        spec_split_note(payload + "\n"@ + sig) == Some((payload, sig)),
{
    reveal_strlit("\n\n");
    reveal_strlit("\n");
    let body = payload + "\n"@ + sig;
    let w = "\n\n"@;
    let p = payload.len() - 1;
    assert(body[p] == '\n');
    assert(body[p + 1] == '\n');
    assert(body.subrange(p, p + 2) =~= w);
    assert forall|i: int| 0 <= i < p implies !occurs_at(body, w, i) by {
        if occurs_at(body, w, i) {
            assert(body.subrange(i, i + 2)[0] == '\n');
            assert(body.subrange(i, i + 2)[1] == '\n');
            assert(payload[i] == body[i]);
            assert(payload[i + 1] == body[i + 1]);
            assert(payload.subrange(i, i + 2) =~= w);
            assert(occurs_at(payload, w, i));
            assert(contains(payload, w));
        }
    }
    crate::agents_md::lemma_find_from_at(body, w, 0, p);
    assert(body.skip(p + 2) =~= sig);
    assert(body.take(p) + "\n"@ =~= payload);
}

proof fn lemma_field_line(name: Seq<char>, value: Seq<char>)
    requires
        name.len() > 0,
        forall|k: int| 0 <= k < name.len() ==> name[k] != '\n',
        is_word(value) || (value.len() > 0 && !is_space(value[0]) && !is_space(value.last())
            && forall|k: int| 0 <= k < value.len() ==> value[k] != '\n'),
    ensures
        plain_line(name + " "@ + value),
        starts_with(name + " "@ + value, name + " "@),
        trim((name + " "@ + value).skip((name.len() + 1) as int)) == value,
{
    reveal_strlit(" ");
    let l = name + " "@ + value;
    assert forall|k: int| 0 <= k < l.len() implies l[k] != '\n' by {
        if k < name.len() {
            assert(l[k] == name[k]);
        } else if k > name.len() {
            assert(l[k] == value[k - name.len() - 1]);
            if is_word(value) {
                assert(!is_space(value[k - name.len() - 1]));
            }
        }
    }
    assert(l.last() == value.last());
    assert(l.subrange(0, (name.len() + 1) as int) =~= name + " "@);
    assert(l.skip((name.len() + 1) as int) =~= value);
    lemma_trim_unspaced(value);
}

/// A payload made where a CI leg runs, read there for the tree it was made
/// for, is acceptable and names the gates it was made with — whether or not
/// the leg names its platform.
pub proof fn a_payload_is_acceptable_where_it_was_made(
    tree: Seq<char>,
    gates: Seq<Seq<char>>,
    platform: Seq<char>,
    version: Seq<char>,
)
    requires
        is_word(tree),
        is_word(platform),
        is_word(version),
        gates.len() > 0,
        forall|i: int| 0 <= i < gates.len() ==> is_word(#[trigger] gates[i]),
    ensures
        spec_acceptable(spec_payload(tree, gates, platform, version), tree, Some(platform))
            == Some(join_with(gates, " "@, gates.len() as int)),
        spec_acceptable(spec_payload(tree, gates, platform, version), tree, None)
            == Some(join_with(gates, " "@, gates.len() as int)),
{
    reveal_strlit("\n");
    reveal_strlit(" ");
    reveal_strlit("tree");
    reveal_strlit("gates");
    reveal_strlit("platform");
    reveal_strlit("amont");
    reveal_strlit("amont-attest-v2");
    reveal_strlit("\ntree ");
    reveal_strlit("\ngates ");
    reveal_strlit("\nplatform ");
    reveal_strlit("\namont ");
    let j = join_with(gates, " "@, gates.len() as int);
    lemma_joined_words(gates, gates.len() as int);
    assert forall|k: int| 0 <= k < j.len() implies j[k] != '\n' by {
        assert(j[k] == ' ' || !is_space(j[k]));
    }
    let f = FORMAT@;
    let l1 = "tree"@ + " "@ + tree;
    let l2 = "gates"@ + " "@ + j;
    let l3 = "platform"@ + " "@ + platform;
    let l4 = "amont"@ + " "@ + version;
    lemma_field_line("tree"@, tree);
    lemma_field_line("gates"@, j);
    lemma_field_line("platform"@, platform);
    lemma_field_line("amont"@, version);
    assert(plain_line(f));
    let nl = "\n"@;
    let p = spec_payload(tree, gates, platform, version);
    assert(p =~= (f + nl) + ((l1 + nl) + ((l2 + nl) + ((l3 + nl) + (l4 + nl)))));
    lemma_lines_of_line(f);
    lemma_lines_of_line(l1);
    lemma_lines_of_line(l2);
    lemma_lines_of_line(l3);
    lemma_lines_of_line(l4);
    lemma_lines_of_append(l3 + nl, l4 + nl);
    lemma_lines_of_append(l2 + nl, (l3 + nl) + (l4 + nl));
    lemma_lines_of_append(l1 + nl, (l2 + nl) + ((l3 + nl) + (l4 + nl)));
    lemma_lines_of_append(f + nl, (l1 + nl) + ((l2 + nl) + ((l3 + nl) + (l4 + nl))));
    let ls = lines_of(p);
    assert(ls =~= seq![f, l1, l2, l3, l4]);
    // Each field is found on its own line: no earlier line starts with it.
    assert(!starts_with(f, "tree"@ + " "@)) by {
        if starts_with(f, "tree"@ + " "@) {
            assert(f.subrange(0, 5)[0] == f[0]);
        }
    }
    assert(!starts_with(f, "gates"@ + " "@)) by {
        if starts_with(f, "gates"@ + " "@) {
            assert(f.subrange(0, 6)[0] == f[0]);
        }
    }
    assert(!starts_with(f, "platform"@ + " "@)) by {
        if starts_with(f, "platform"@ + " "@) {
            assert(f.subrange(0, 9)[0] == f[0]);
        }
    }
    assert(!starts_with(l1, "gates"@ + " "@)) by {
        if starts_with(l1, "gates"@ + " "@) {
            assert(l1.subrange(0, 6)[0] == l1[0]);
        }
    }
    assert(!starts_with(l1, "platform"@ + " "@)) by {
        if starts_with(l1, "platform"@ + " "@) {
            assert(l1.subrange(0, 9)[0] == l1[0]);
        }
    }
    assert(!starts_with(l2, "platform"@ + " "@)) by {
        if starts_with(l2, "platform"@ + " "@) {
            assert(l2.subrange(0, 9)[0] == l2[0]);
        }
    }
    assert(ls[1] == l1);
    assert(ls[2] == l2);
    assert(field_from(ls, "tree"@, 1) == Some(tree));
    assert(field_from(ls, "tree"@, 0) == Some(tree));
    assert(field_from(ls, "gates"@, 2) == Some(j));
    assert(field_from(ls, "gates"@, 1) == Some(j));
    assert(field_from(ls, "gates"@, 0) == Some(j));
    assert(ls[3] == l3);
    assert(field_from(ls, "platform"@, 3) == Some(platform));
    assert(field_from(ls, "platform"@, 2) == Some(platform));
    assert(field_from(ls, "platform"@, 1) == Some(platform));
    assert(field_from(ls, "platform"@, 0) == Some(platform));
}

} // verus!
