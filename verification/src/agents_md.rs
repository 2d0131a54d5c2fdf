//! A self-verifying pointer for coding agents: a short block, between two
//! markers, that tells an agent to ask the registry (`amont list --json`)
//! rather than trusting prose that drifts. Nothing outside the markers is
//! ever touched.

use vstd::prelude::*;
use crate::text::{chars_of, string_of, push_str, push_chars, occurs_at, matches_at, ends_with, starts_with, vec_eq, slice_of};

verus! {

pub const START: &'static str = "<!-- amont:start -->";
pub const END: &'static str = "<!-- amont:end -->";

/// The first place `w` occurs in `s` at or after `k`.
pub open spec fn find_from(s: Seq<char>, w: Seq<char>, k: int) -> Option<int>
    decreases s.len() + 1 - k,
{
    if k < 0 || k + w.len() > s.len() {
        None
    } else if occurs_at(s, w, k) {
        Some(k)
    } else {
        find_from(s, w, k + 1)
    }
}

/// `str::find`: the first place `w` occurs in `s`.
pub open spec fn find_first(s: Seq<char>, w: Seq<char>) -> Option<int> {
    find_from(s, w, 0)
}

/// Exec form of [`find_first`].
pub fn find_str(s: &Vec<char>, w: &Vec<char>) -> (r: Option<usize>)
    ensures
        match r {
            Some(k) => find_first(s@, w@) == Some(k as int),
            None => find_first(s@, w@) is None,
        },
{
    if w.len() == 0 {
        assert(s@.subrange(0, 0) =~= w@);
        return Some(0);
    }
    let mut k: usize = 0;
    while k <= s.len() && w.len() <= s.len() - k
        invariant
            w@.len() > 0,
            find_from(s@, w@, k as int) == find_from(s@, w@, 0),
        decreases s.len() - k,
    {
        if matches_at(s, w, k) {
            return Some(k);
        }
        k += 1;
    }
    None
}

#[derive(Debug, Clone, Copy, PartialEq, Eq, Structural)]
pub enum MarkerState {
    /// Exactly one marker present, or the end marker before the start — a
    /// state this tool refuses to guess its way out of.
    Malformed,
}

#[derive(Debug, Clone, Copy, PartialEq, Eq, Structural)]
pub enum CheckResult {
    /// No file, or a file with no markers at all: opt-in tooling, not drift.
    NotPresent,
    MatchesGenerated,
    Drifted,
}

/// The span to replace — markers included, and one newline after the end
/// marker — or `None` when neither marker is present. The two markers are
/// searched independently, so an end marker with no start is malformed, not
/// absent.
pub open spec fn spec_marker_range(t: Seq<char>) -> Result<Option<(int, int)>, MarkerState> {
    match (find_first(t, START@), find_first(t, END@)) {
        (None, None) => Ok(None),
        (Some(s), Some(e)) => if e >= s + START@.len() {
            let re = e + END@.len();
            Ok(Some((s, if re < t.len() && t[re] == '\n' { re + 1 } else { re })))
        } else {
            Err(MarkerState::Malformed)
        },
        _ => Err(MarkerState::Malformed),
    }
}

pub fn marker_range(text: &Vec<char>) -> (r: Result<Option<(usize, usize)>, MarkerState>)
    ensures
        match r {
            Ok(Some((a, z))) => spec_marker_range(text@) == Ok::<Option<(int, int)>, MarkerState>(Some((a as int, z as int))),
            Ok(None) => spec_marker_range(text@) == Ok::<Option<(int, int)>, MarkerState>(None),
            Err(m) => spec_marker_range(text@) == Err::<Option<(int, int)>, MarkerState>(m),
        },
{
    let st = chars_of(START);
    let en = chars_of(END);
    let start = find_str(text, &st);
    let end = find_str(text, &en);
    match (start, end) {
        (None, None) => Ok(None),
        (Some(s), Some(e)) => {
            proof {
                lemma_find_bound(text@, st@, 0);
                lemma_find_bound(text@, en@, 0);
                assert(find_from(text@, st@, 0) == Some(s as int));
                assert(find_from(text@, en@, 0) == Some(e as int));
            }
            let sl = st.len();
            let el = en.len();
            let tl = text.len();
            assert(s + sl <= tl);
            assert(e + el <= tl);
            if e >= s + sl {
                let re = e + el;
                if re < text.len() && text[re] == '\n' {
                    Ok(Some((s, re + 1)))
                } else {
                    Ok(Some((s, re)))
                }
            } else {
                Err(MarkerState::Malformed)
            }
        },
        _ => Err(MarkerState::Malformed),
    }
}

proof fn lemma_find_bound(s: Seq<char>, w: Seq<char>, k: int)
    ensures
        find_from(s, w, k) matches Some(i) ==> k <= i && i + w.len() <= s.len() && occurs_at(s, w, i),
    decreases s.len() + 1 - k,
{
    if !(k < 0 || k + w.len() > s.len()) && !occurs_at(s, w, k) {
        lemma_find_bound(s, w, k + 1);
    }
}

/// What goes between existing text and an appended block: enough newlines
/// for exactly one blank line.
pub open spec fn separator(existing: Seq<char>) -> Seq<char> {
    if ends_with(existing, "\n\n"@) {
        seq![]
    } else if ends_with(existing, "\n"@) {
        seq!['\n']
    } else {
        seq!['\n', '\n']
    }
}

/// What writing `block` would produce over `existing`: the block alone for
/// an empty file; appended after exactly one blank line when there are no
/// markers; spliced over the marked span, everything else untouched, when
/// there are; refused when the markers are malformed.
pub open spec fn spec_desired(existing: Seq<char>, block: Seq<char>) -> Result<Seq<char>, MarkerState> {
    match spec_marker_range(existing) {
        Err(m) => Err(m),
        Ok(Some((a, z))) => Ok(existing.take(a) + block + existing.skip(z)),
        Ok(None) => if existing.len() == 0 {
            Ok(block)
        } else {
            Ok(existing + separator(existing) + block)
        },
    }
}

/// The splice itself, for the block and the pointer alike.
pub fn desired_with(existing: &str, block: &str) -> (r: Result<String, MarkerState>)
    ensures
        match r {
            Ok(s) => spec_desired(existing@, block@) == Ok::<Seq<char>, MarkerState>(s@),
            Err(m) => spec_desired(existing@, block@) == Err::<Seq<char>, MarkerState>(m),
        },
{
    let x = chars_of(existing);
    let b = chars_of(block);
    match marker_range(&x) {
        Err(m) => Err(m),
        Ok(Some((a, z))) => {
            proof {
                lemma_find_bound(x@, START@, 0);
                lemma_find_bound(x@, END@, 0);
            }
            let mut out = slice_of(&x, 0, a);
            push_chars(&mut out, &b);
            push_chars(&mut out, &slice_of(&x, z, x.len()));
            assert(out@ =~= x@.take(a as int) + b@ + x@.skip(z as int));
            Ok(string_of(&out))
        },
        Ok(None) => {
            if x.len() == 0 {
                Ok(string_of(&b))
            } else {
                proof {
                    reveal_strlit("\n\n");
                    reveal_strlit("\n");
                }
                let mut out = slice_of(&x, 0, x.len());
                assert(out@ =~= x@);
                let n = x.len();
                let two = n >= 2 && x[n - 2] == '\n' && x[n - 1] == '\n';
                let one = x[n - 1] == '\n';
                proof {
                    assert(two == ends_with(x@, "\n\n"@)) by {
                        if ends_with(x@, "\n\n"@) {
                            assert(x@.subrange(n - 2, n as int)[0] == x@[n - 2]);
                            assert(x@.subrange(n - 2, n as int)[1] == x@[n - 1]);
                        }
                        if two {
                            assert(x@.subrange(n - 2, n as int) =~= "\n\n"@);
                        }
                    }
                    assert(one == ends_with(x@, "\n"@)) by {
                        if one {
                            assert(x@.subrange(n - 1, n as int) =~= "\n"@);
                        }
                        if ends_with(x@, "\n"@) {
                            assert(x@.subrange(n - 1, n as int)[0] == x@[n - 1]);
                        }
                    }
                }
                if !two {
                    out.push('\n');
                    if !one {
                        out.push('\n');
                    }
                }
                push_chars(&mut out, &b);
                assert(out@ =~= x@ + separator(x@) + b@);
                Ok(string_of(&out))
            }
        },
    }
}

/// Is the marked span in `existing` exactly `block`?
pub open spec fn spec_classify(existing: Seq<char>, block: Seq<char>) -> Result<CheckResult, MarkerState> {
    match spec_marker_range(existing) {
        Err(m) => Err(m),
        Ok(None) => Ok(CheckResult::NotPresent),
        Ok(Some((a, z))) => if existing.subrange(a, z) == block {
            Ok(CheckResult::MatchesGenerated)
        } else {
            Ok(CheckResult::Drifted)
        },
    }
}

/// Compare what a file holds between the markers with what this binary
/// generates.
pub fn classify(existing: &str, block: &str) -> (r: Result<CheckResult, MarkerState>)
    ensures
        r == spec_classify(existing@, block@),
{
    let x = chars_of(existing);
    let b = chars_of(block);
    match marker_range(&x) {
        Err(m) => Err(m),
        Ok(None) => Ok(CheckResult::NotPresent),
        Ok(Some((a, z))) => {
            proof {
                lemma_find_bound(x@, START@, 0);
                lemma_find_bound(x@, END@, 0);
            }
            if vec_eq(&slice_of(&x, a, z), &b) {
                Ok(CheckResult::MatchesGenerated)
            } else {
                Ok(CheckResult::Drifted)
            }
        },
    }
}


/// The block's fixed text, in the four pieces around the branch prefixes,
/// the idle limit and the total limit.
pub open spec fn block_piece(k: int) -> Seq<char> {
    if k == 0 {
        "\n\n## Git hooks (amont)\n\nThis repository enforces pre-commit / pre-push checks. Ask the registry\nrather than guessing before assuming a change is safe:\n\n```sh\namont list --json\namont list --json --stage pre-push --pushed  # exactly what pushing next gates\n```\n\nEach check reports its _effective_ severity (`block`/`warn`, including any\n`amont.severity.*` override) and whether it fires here. The same output\ncarries `commit_style`: the subject and description limits `commit-msg`\nenforces, and where the type's gitmoji is placed. It also carries\n`branch_style`: name a branch `<prefix>/<name>` BEFORE creating it —\nprefixes are "@
    } else if k == 1 {
        " — because `pre-push` refuses a\nnew branch that breaks the pattern, at the end of the work instead of the\nstart.\n\n`git commit` and `git push` both run their checks first, and neither is\ninstant: pre-commit can invoke formatters, linters or clippy (a workspace\nbuild), and pre-push can run the test suite. Run `amont run pre-push`\nBEFORE `git push`: it runs the same push gate with no connection open and\nstamps the tree, so the push itself skips the suite and holds the remote\nfor seconds instead of minutes (git connects before pre-push runs, and a\nremote may drop the idle session while a suite runs). Give both commands the\nlongest timeout your tooling allows, never its default: here a check is\nkilled only after "@
    } else if k == 2 {
        " of silence or "@
    } else {
        " in total\n(`amont.idleTimeout` / `amont.timeout`), and a test suite may legitimately\nrun for most of that. If your tooling caps a foreground command below it,\nrun the command in the background and read its result when it exits —\nwhile it runs, a line a minute on stderr says which check is alive and\nwhen it last printed. A push killed mid-suite pushed nothing; a commit\nkilled mid-check committed nothing, and your unstaged work stays parked\nuntil the next run says how to recover it. Neither is the checks failing —\nit is the timeout. Run both bare and check the effect (`git log --oneline\n-1`, `git ls-remote origin <branch>`): trimming their output with `| tail`\nreports the pipe's exit status, so a killed or rejected run reads as\nsuccess.\n\nNever bypass with `--no-verify`. To change enforcement, downgrade it\nintentionally instead:\n\n```sh\ngit config amont.severity.<check-id> warn\n```\n\n`commit-msg` takes neither `hook.skip` nor a severity override. Write the\nmessage it asks for, or change what it asks for — `amont setup`, or\n`amont.commit.*` directly.\n\n"@
    }
}

/// The block, markers included, ending in exactly one newline: it tells an
/// agent to ask `amont list --json`, names the branch prefixes, and states
/// the two time limits a check runs under.
pub open spec fn spec_block(prefixes: Seq<char>, idle: Seq<char>, ceiling: Seq<char>) -> Seq<char> {
    START@ + block_piece(0) + prefixes + block_piece(1) + idle + block_piece(2) + ceiling + block_piece(3) + END@ + "\n"@
}

/// Names joined by `, `.
pub open spec fn join_names(names: Seq<Seq<char>>, k: int) -> Seq<char>
    decreases k,
{
    if k <= 0 {
        seq![]
    } else if k == 1 {
        names[0]
    } else {
        join_names(names, k - 1) + ", "@ + names[k - 1]
    }
}

/// The block for the given branch prefixes and the rendered idle and total
/// limits (each "no limit" when unset).
pub fn generate_block(prefixes: &[&str], idle: &str, ceiling: &str) -> (r: String)
    ensures
        r@ == spec_block(join_names(prefixes@.map_values(|p: &str| p@), prefixes@.len() as int), idle@, ceiling@),
{
    let ghost names = prefixes@.map_values(|p: &str| p@);
    let mut joined: Vec<char> = Vec::new();
    let mut k: usize = 0;
    while k < prefixes.len()
        invariant
            k <= prefixes@.len(),
            names == prefixes@.map_values(|p: &str| p@),
            joined@ == join_names(names, k as int),
        decreases prefixes.len() - k,
    {
        assert(names[k as int] == prefixes@[k as int]@);
        if k > 0 {
            push_str(&mut joined, ", ");
        }
        push_str(&mut joined, prefixes[k]);
        k += 1;
    }
    let mut out: Vec<char> = Vec::new();
    push_str(&mut out, START);
    push_str(&mut out, "\n\n## Git hooks (amont)\n\nThis repository enforces pre-commit / pre-push checks. Ask the registry\nrather than guessing before assuming a change is safe:\n\n```sh\namont list --json\namont list --json --stage pre-push --pushed  # exactly what pushing next gates\n```\n\nEach check reports its _effective_ severity (`block`/`warn`, including any\n`amont.severity.*` override) and whether it fires here. The same output\ncarries `commit_style`: the subject and description limits `commit-msg`\nenforces, and where the type's gitmoji is placed. It also carries\n`branch_style`: name a branch `<prefix>/<name>` BEFORE creating it —\nprefixes are ");
    push_chars(&mut out, &joined);
    push_str(&mut out, " — because `pre-push` refuses a\nnew branch that breaks the pattern, at the end of the work instead of the\nstart.\n\n`git commit` and `git push` both run their checks first, and neither is\ninstant: pre-commit can invoke formatters, linters or clippy (a workspace\nbuild), and pre-push can run the test suite. Run `amont run pre-push`\nBEFORE `git push`: it runs the same push gate with no connection open and\nstamps the tree, so the push itself skips the suite and holds the remote\nfor seconds instead of minutes (git connects before pre-push runs, and a\nremote may drop the idle session while a suite runs). Give both commands the\nlongest timeout your tooling allows, never its default: here a check is\nkilled only after ");
    push_str(&mut out, idle);
    push_str(&mut out, " of silence or ");
    push_str(&mut out, ceiling);
    push_str(&mut out, " in total\n(`amont.idleTimeout` / `amont.timeout`), and a test suite may legitimately\nrun for most of that. If your tooling caps a foreground command below it,\nrun the command in the background and read its result when it exits —\nwhile it runs, a line a minute on stderr says which check is alive and\nwhen it last printed. A push killed mid-suite pushed nothing; a commit\nkilled mid-check committed nothing, and your unstaged work stays parked\nuntil the next run says how to recover it. Neither is the checks failing —\nit is the timeout. Run both bare and check the effect (`git log --oneline\n-1`, `git ls-remote origin <branch>`): trimming their output with `| tail`\nreports the pipe's exit status, so a killed or rejected run reads as\nsuccess.\n\nNever bypass with `--no-verify`. To change enforcement, downgrade it\nintentionally instead:\n\n```sh\ngit config amont.severity.<check-id> warn\n```\n\n`commit-msg` takes neither `hook.skip` nor a severity override. Write the\nmessage it asks for, or change what it asks for — `amont setup`, or\n`amont.commit.*` directly.\n\n");
    push_str(&mut out, END);
    push_str(&mut out, "\n");
    assert(out@ =~= spec_block(joined@, idle@, ceiling@));
    string_of(&out)
}

/// The signpost's fixed text between the markers.
pub open spec fn pointer_piece() -> Seq<char> {
    "\n\n## Git hooks (amont)\n\nThis repository enforces pre-commit / pre-push checks that can REJECT a\ncommit or a push. What runs, the branch-name rule, and why `git commit`\nand `git push` both need a long timeout — or a background run — are in\n[AGENTS.md](AGENTS.md) — read it before committing. Both files are\ngenerated: run `amont agents-md` after changing either.\n\n"@
}

/// The signpost file's block pointing at `AGENTS.md`, markers included.
pub fn generate_pointer() -> (r: String)
    ensures
        r@ == START@ + pointer_piece() + END@ + "\n"@,
{
    let mut out: Vec<char> = Vec::new();
    push_str(&mut out, START);
    push_str(&mut out, "\n\n## Git hooks (amont)\n\nThis repository enforces pre-commit / pre-push checks that can REJECT a\ncommit or a push. What runs, the branch-name rule, and why `git commit`\nand `git push` both need a long timeout — or a background run — are in\n[AGENTS.md](AGENTS.md) — read it before committing. Both files are\ngenerated: run `amont agents-md` after changing either.\n\n");
    push_str(&mut out, END);
    push_str(&mut out, "\n");
    string_of(&out)
}

/// What writing the block would produce over `existing`. Writing it again
/// over what it produced changes nothing, and the check then reports the
/// block as the one generated — whenever the block is well formed, which
/// it is for branch prefixes and limits that hold no `!`.
pub fn desired_file_content(existing: &str, prefixes: &[&str], idle: &str, ceiling: &str) -> (r: Result<String, MarkerState>)
    ensures
        match r {
            Ok(s) => spec_desired(existing@, spec_block(join_names(prefixes@.map_values(|p: &str| p@), prefixes@.len() as int), idle@, ceiling@)) == Ok::<Seq<char>, MarkerState>(s@),
            Err(m) => spec_desired(existing@, spec_block(join_names(prefixes@.map_values(|p: &str| p@), prefixes@.len() as int), idle@, ceiling@)) == Err::<Seq<char>, MarkerState>(m),
        },
        (forall|i: int| 0 <= i < prefixes@.len() ==> bang_free(#[trigger] prefixes@[i]@)) && bang_free(idle@) && bang_free(ceiling@)
            ==> wf_block(spec_block(join_names(prefixes@.map_values(|p: &str| p@), prefixes@.len() as int), idle@, ceiling@)),
        ({
            let block = spec_block(join_names(prefixes@.map_values(|p: &str| p@), prefixes@.len() as int), idle@, ceiling@);
            wf_block(block) ==> (r matches Ok(s) ==> spec_desired(s@, block) == Ok::<Seq<char>, MarkerState>(s@)
                && spec_classify(s@, block) == Ok::<CheckResult, MarkerState>(CheckResult::MatchesGenerated))
        }),
{
    let b = generate_block(prefixes, idle, ceiling);
    let r = desired_with(existing, b.as_str());
    proof {
        let names = prefixes@.map_values(|p: &str| p@);
        let block = spec_block(join_names(names, prefixes@.len() as int), idle@, ceiling@);
        if (forall|i: int| 0 <= i < prefixes@.len() ==> bang_free(#[trigger] prefixes@[i]@)) && bang_free(idle@) && bang_free(ceiling@) {
            assert forall|i: int| 0 <= i < names.len() implies bang_free(#[trigger] names[i]) by {
                assert(names[i] == prefixes@[i]@);
            }
            generated_block_is_well_formed(names, idle@, ceiling@);
        }
        if r is Ok && wf_block(block) {
            desired_is_idempotent(existing@, block);
        }
    }
    r
}

/// What writing the signpost would produce over `existing`. Writing it
/// again over what it produced changes nothing, and the check then reports
/// the signpost as the one generated.
pub fn desired_pointer_content(existing: &str) -> (r: Result<String, MarkerState>)
    ensures
        match r {
            Ok(s) => spec_desired(existing@, START@ + pointer_piece() + END@ + "\n"@) == Ok::<Seq<char>, MarkerState>(s@),
            Err(m) => spec_desired(existing@, START@ + pointer_piece() + END@ + "\n"@) == Err::<Seq<char>, MarkerState>(m),
        },
        r matches Ok(s) ==> spec_desired(s@, START@ + pointer_piece() + END@ + "\n"@) == Ok::<Seq<char>, MarkerState>(s@)
            && spec_classify(s@, START@ + pointer_piece() + END@ + "\n"@) == Ok::<CheckResult, MarkerState>(CheckResult::MatchesGenerated),
{
    let p = generate_pointer();
    let r = desired_with(existing, p.as_str());
    proof {
        pointer_is_well_formed();
        if r is Ok {
            desired_is_idempotent(existing@, START@ + pointer_piece() + END@ + "\n"@);
        }
    }
    r
}


/// The refusal a file with an unpaired marker gets when writing: `path`,
/// then what to do about it.
pub open spec fn unpaired_on_write(path: Seq<char>) -> Seq<char> {
    path + ": has an unpaired amont marker \u{2014} fix or remove it by hand, then re-run `amont agents-md`"@
}

fn write_message(path: &str) -> (r: String)
    ensures
        r@ == unpaired_on_write(path@),
{
    let mut out = chars_of(path);
    push_str(&mut out, ": has an unpaired amont marker \u{2014} fix or remove it by hand, then re-run `amont agents-md`");
    string_of(&out)
}

/// What writing the block to the file at `path`, now holding `existing`
/// (empty when there is none), puts there — or the refusal, naming the file.
pub fn write(path: &str, existing: &str, prefixes: &[&str], idle: &str, ceiling: &str) -> (r: Result<String, String>)
    ensures
        match (r, spec_desired(existing@, spec_block(join_names(prefixes@.map_values(|p: &str| p@), prefixes@.len() as int), idle@, ceiling@))) {
            (Ok(s), Ok(t)) => s@ == t,
            (Err(e), Err(_)) => e@ == unpaired_on_write(path@),
            _ => false,
        },
{
    match desired_file_content(existing, prefixes, idle, ceiling) {
        Ok(s) => Ok(s),
        Err(_) => Err(write_message(path)),
    }
}

/// The same for the signpost.
pub fn write_pointer(path: &str, existing: &str) -> (r: Result<String, String>)
    ensures
        match (r, spec_desired(existing@, START@ + pointer_piece() + END@ + "\n"@)) {
            (Ok(s), Ok(t)) => s@ == t,
            (Err(e), Err(_)) => e@ == unpaired_on_write(path@),
            _ => false,
        },
{
    match desired_pointer_content(existing) {
        Ok(s) => Ok(s),
        Err(_) => Err(write_message(path)),
    }
}

/// Is the block in `existing` (the text of `AGENTS.md`, empty when there is
/// no file) the one this binary generates for these values?
pub fn check(existing: &str, prefixes: &[&str], idle: &str, ceiling: &str) -> (r: Result<CheckResult, MarkerState>)
    ensures
        r == spec_classify(existing@, spec_block(join_names(prefixes@.map_values(|p: &str| p@), prefixes@.len() as int), idle@, ceiling@)),
{
    let b = generate_block(prefixes, idle, ceiling);
    classify(existing, b.as_str())
}

/// Is the signpost in `existing` (the text of the signpost file) the one this
/// binary generates?
pub fn check_pointer(existing: &str) -> (r: Result<CheckResult, MarkerState>)
    ensures
        r == spec_classify(existing@, START@ + pointer_piece() + END@ + "\n"@),
{
    let p = generate_pointer();
    classify(existing, p.as_str())
}

// ---------------------------------------------------------------------------
// Writing twice changes nothing

/// A block this module can splice and find again: it opens with the start
/// marker, ends with the end marker and a newline, and holds the end marker
/// nowhere earlier.
pub open spec fn wf_block(b: Seq<char>) -> bool {
    &&& starts_with(b, START@)
    &&& b.len() >= START@.len() + END@.len() + 1
    &&& b.last() == '\n'
    &&& find_first(b, END@) == Some(b.len() - END@.len() - 1)
}

pub proof fn lemma_find_from_at(s: Seq<char>, w: Seq<char>, k: int, p: int)
    requires
        0 <= k <= p,
        occurs_at(s, w, p),
        forall|i: int| k <= i < p ==> !occurs_at(s, w, i),
    ensures
        find_from(s, w, k) == Some(p),
    decreases p - k,
{
    if k < p {
        lemma_find_from_at(s, w, k + 1, p);
    }
}

pub(crate) proof fn lemma_find_from_facts(s: Seq<char>, w: Seq<char>, k: int)
    requires
        0 <= k,
    ensures
        find_from(s, w, k) matches Some(p) ==> k <= p && occurs_at(s, w, p) && forall|i: int|
            k <= i < p ==> !occurs_at(s, w, i),
        find_from(s, w, k) is None ==> forall|i: int| k <= i ==> !occurs_at(s, w, i),
    decreases s.len() + 1 - k,
{
    if !(k + w.len() > s.len()) && !occurs_at(s, w, k) {
        lemma_find_from_facts(s, w, k + 1);
    }
}

/// The markers' shape: each opens with the only `<` it holds, and neither
/// holds a newline.
proof fn lemma_marker_chars()
    ensures
        START@.len() == 20,
        END@.len() == 18,
        START@[0] == '<',
        END@[0] == '<',
        forall|j: int| 0 < j < 20 ==> START@[j] != '<',
        forall|j: int| 0 < j < 18 ==> END@[j] != '<',
        forall|j: int| 0 <= j < 20 ==> START@[j] != '\n',
        forall|j: int| 0 <= j < 18 ==> END@[j] != '\n',
{
    reveal_strlit("<!-- amont:start -->");
    reveal_strlit("<!-- amont:end -->");
}

/// A marker occurring at `i` of `r`, where `r` agrees with `x` over the
/// occurrence, occurs at `i` of `x` too.
proof fn lemma_occurs_transfer(r: Seq<char>, x: Seq<char>, w: Seq<char>, i: int)
    requires
        occurs_at(r, w, i),
        i + w.len() <= x.len(),
        forall|m: int| i <= m < i + w.len() ==> r[m] == x[m],
    ensures
        occurs_at(x, w, i),
{
    assert(x.subrange(i, i + w.len()) =~= r.subrange(i, i + w.len()));
}

/// In `x + sep + b`, with `x` free of a marker `w` whose only `<` opens it,
/// `sep` made of newlines and `b` opening with `<`, no occurrence of `w`
/// starts before `b`.
proof fn lemma_no_occ_before_append(x: Seq<char>, sep: Seq<char>, b: Seq<char>, w: Seq<char>, i: int)
    requires
        forall|k: int| 0 <= k ==> !occurs_at(x, w, k),
        forall|m: int| 0 <= m < sep.len() ==> sep[m] == '\n',
        b.len() > 0 && b[0] == '<',
        w.len() > 0 && w[0] == '<',
        forall|j: int| 0 < j < w.len() ==> w[j] != '<',
        forall|j: int| 0 <= j < w.len() ==> w[j] != '\n',
        0 <= i < x.len() + sep.len(),
    ensures
        !occurs_at(x + sep + b, w, i),
{
    let r = x + sep + b;
    if occurs_at(r, w, i) {
        assert(r.subrange(i, i + w.len())[0] == w[0]);
        if i >= x.len() {
            assert(r[i] == sep[i - x.len()]);
        } else if i + w.len() <= x.len() {
            assert forall|m: int| i <= m < i + w.len() implies r[m] == x[m] by {}
            lemma_occurs_transfer(r, x, w, i);
        } else {
            let j = x.len() - i;
            assert(0 < j < w.len());
            assert(r.subrange(i, i + w.len())[j] == w[j]);
            assert(r[x.len() as int] == w[j]);
            if sep.len() > 0 {
                assert(r[x.len() as int] == sep[0]);
            } else {
                assert(r[x.len() as int] == b[0]);
            }
        }
    }
}

/// Where the block's end marker sits once `b` is placed at `a` of `r`: the
/// first end marker of `r`, given none before `a`.
proof fn lemma_end_found(r: Seq<char>, b: Seq<char>, a: int)
    requires
        wf_block(b),
        0 <= a,
        a + b.len() <= r.len(),
        r.subrange(a, a + b.len()) == b,
        forall|i: int| 0 <= i < a ==> !occurs_at(r, END@, i),
    ensures
        find_first(r, END@) == Some(a + b.len() - END@.len() - 1),
{
    let q = b.len() - END@.len() - 1;
    lemma_find_from_facts(b, END@, 0);
    assert forall|m: int| 0 <= m < b.len() implies r[a + m] == b[m] by {
        assert(r.subrange(a, a + b.len())[m] == r[a + m]);
    }
    assert forall|i: int| 0 <= i < a + q implies !occurs_at(r, END@, i) by {
        if a <= i && occurs_at(r, END@, i) {
            assert(b.subrange(i - a, i - a + END@.len()) =~= r.subrange(i, i + END@.len()));
            assert(occurs_at(b, END@, i - a));
        }
    }
    assert(r.subrange(a + q, a + q + END@.len()) =~= b.subrange(q, q + END@.len()));
    lemma_find_from_at(r, END@, 0, a + q);
}

/// The marked span of a text in which `b` sits at `a` and the first start
/// marker is at `a`: exactly `b`.
proof fn lemma_range_is_block(r: Seq<char>, b: Seq<char>, a: int)
    requires
        wf_block(b),
        0 <= a,
        a + b.len() <= r.len(),
        r.subrange(a, a + b.len()) == b,
        find_first(r, START@) == Some(a),
        forall|i: int| 0 <= i < a ==> !occurs_at(r, END@, i),
    ensures
        spec_marker_range(r) == Ok::<Option<(int, int)>, MarkerState>(Some((a, a + b.len()))),
{
    lemma_marker_chars();
    lemma_end_found(r, b, a);
    assert(r[a + b.len() - 1] == b[b.len() - 1]) by {
        assert(r.subrange(a, a + b.len())[b.len() - 1] == r[a + b.len() - 1]);
    }
    assert(b.last() == b[b.len() - 1]);
    let e = a + b.len() - END@.len() - 1;
    assert(e >= a + START@.len()) by {
        lemma_find_from_facts(b, END@, 0);
        assert(b.subrange(0, START@.len() as int) == START@);
        if b.len() - END@.len() - 1 < START@.len() {
            let q = b.len() - END@.len() - 1;
            assert(b[q] == END@[0]) by {
                assert(b.subrange(q, q + END@.len())[0] == b[q]);
            }
            assert(b[q] == START@[q]) by {
                assert(b.subrange(0, START@.len() as int)[q] == b[q]);
            }
        }
    }
}

/// Writing the block over what writing it produced changes nothing, and
/// the check then reports the block as the one generated — for every text
/// the first write accepted and every well-formed block.
pub proof fn desired_is_idempotent(existing: Seq<char>, block: Seq<char>)
    requires
        wf_block(block),
        spec_desired(existing, block) is Ok,
    ensures
        spec_desired(spec_desired(existing, block)->Ok_0, block) == spec_desired(existing, block),
        spec_classify(spec_desired(existing, block)->Ok_0, block) == Ok::<CheckResult, MarkerState>(
            CheckResult::MatchesGenerated,
        ),
{
    lemma_marker_chars();
    let x = existing;
    let b = block;
    let r = spec_desired(x, b)->Ok_0;
    assert(b.subrange(0, START@.len() as int) == START@);
    assert(b[0] == '<') by {
        assert(b.subrange(0, START@.len() as int)[0] == b[0]);
    }
    lemma_find_from_facts(x, START@, 0);
    lemma_find_from_facts(x, END@, 0);
    match spec_marker_range(x) {
        Ok(Some((a, z))) => {
            let s0 = find_first(x, START@)->0;
            let e0 = find_first(x, END@)->0;
            assert(a == s0);
            assert(r == x.take(a) + b + x.skip(z));
            assert(a + START@.len() <= x.len());
            assert(z <= x.len());
            // `r` agrees with `x` up to the end of the start marker.
            assert forall|m: int| 0 <= m < a + START@.len() implies r[m] == x[m] by {
                if m >= a {
                    assert(r[m] == b[m - a]);
                    assert(b.subrange(0, START@.len() as int)[m - a] == b[m - a]);
                    assert(x.subrange(a, a + START@.len())[m - a] == x[m]);
                }
            }
            assert forall|i: int| 0 <= i < a implies !occurs_at(r, START@, i) by {
                if occurs_at(r, START@, i) {
                    lemma_occurs_transfer(r, x, START@, i);
                }
            }
            assert forall|i: int| 0 <= i < a implies !occurs_at(r, END@, i) by {
                if occurs_at(r, END@, i) {
                    lemma_occurs_transfer(r, x, END@, i);
                }
            }
            assert(r.subrange(a, a + b.len()) =~= b);
            assert(r.subrange(a, a + START@.len()) =~= START@);
            lemma_find_from_at(r, START@, 0, a);
            lemma_range_is_block(r, b, a);
            assert(r.take(a) + b + r.skip(a + b.len()) =~= r);
        },
        Ok(None) => {
            if x.len() == 0 {
                assert(r == b);
                assert(r.subrange(0, b.len() as int) =~= b);
                assert(r.subrange(0, START@.len() as int) =~= START@);
                lemma_find_from_at(r, START@, 0, 0);
                lemma_range_is_block(r, b, 0);
                assert(r.take(0) + b + r.skip(b.len() as int) =~= r);
            } else {
                let sep = separator(x);
                let a: int = (x.len() + sep.len()) as int;
                assert(r == x + sep + b);
                assert forall|m: int| 0 <= m < sep.len() implies sep[m] == '\n' by {}
                assert forall|i: int| 0 <= i < a implies !occurs_at(r, START@, i) by {
                    lemma_no_occ_before_append(x, sep, b, START@, i);
                }
                assert forall|i: int| 0 <= i < a implies !occurs_at(r, END@, i) by {
                    lemma_no_occ_before_append(x, sep, b, END@, i);
                }
                assert(r.subrange(a, a + b.len()) =~= b);
                assert(r.subrange(a, a + START@.len()) =~= START@);
                lemma_find_from_at(r, START@, 0, a);
                lemma_range_is_block(r, b, a);
                assert(r.take(a) + b + r.skip(a + b.len()) =~= r);
            }
        },
        Err(_) => {},
    }
}

// ---------------------------------------------------------------------------
// The generated block is one the splicing accepts

/// `s` holds no `!` — the character both markers carry right after their
/// `<`, and one no fixed text of the block holds.
pub open spec fn bang_free(s: Seq<char>) -> bool {
    forall|j: int| 0 <= j < s.len() ==> s[j] != '!'
}

proof fn lemma_pieces_bang_free()
    ensures
        bang_free(block_piece(0)),
        bang_free(block_piece(1)),
        bang_free(block_piece(2)),
        bang_free(block_piece(3)),
        START@[1] == '!',
        END@[1] == '!',
        START@[11] != END@[11],
{
    reveal_strlit("\n\n## Git hooks (amont)\n\nThis repository enforces pre-commit / pre-push checks. Ask the registry\nrather than guessing before assuming a change is safe:\n\n```sh\namont list --json\namont list --json --stage pre-push --pushed  # exactly what pushing next gates\n```\n\nEach check reports its _effective_ severity (`block`/`warn`, including any\n`amont.severity.*` override) and whether it fires here. The same output\ncarries `commit_style`: the subject and description limits `commit-msg`\nenforces, and where the type's gitmoji is placed. It also carries\n`branch_style`: name a branch `<prefix>/<name>` BEFORE creating it —\nprefixes are ");
    reveal_strlit(" — because `pre-push` refuses a\nnew branch that breaks the pattern, at the end of the work instead of the\nstart.\n\n`git commit` and `git push` both run their checks first, and neither is\ninstant: pre-commit can invoke formatters, linters or clippy (a workspace\nbuild), and pre-push can run the test suite. Run `amont run pre-push`\nBEFORE `git push`: it runs the same push gate with no connection open and\nstamps the tree, so the push itself skips the suite and holds the remote\nfor seconds instead of minutes (git connects before pre-push runs, and a\nremote may drop the idle session while a suite runs). Give both commands the\nlongest timeout your tooling allows, never its default: here a check is\nkilled only after ");
    reveal_strlit(" of silence or ");
    reveal_strlit(" in total\n(`amont.idleTimeout` / `amont.timeout`), and a test suite may legitimately\nrun for most of that. If your tooling caps a foreground command below it,\nrun the command in the background and read its result when it exits —\nwhile it runs, a line a minute on stderr says which check is alive and\nwhen it last printed. A push killed mid-suite pushed nothing; a commit\nkilled mid-check committed nothing, and your unstaged work stays parked\nuntil the next run says how to recover it. Neither is the checks failing —\nit is the timeout. Run both bare and check the effect (`git log --oneline\n-1`, `git ls-remote origin <branch>`): trimming their output with `| tail`\nreports the pipe's exit status, so a killed or rejected run reads as\nsuccess.\n\nNever bypass with `--no-verify`. To change enforcement, downgrade it\nintentionally instead:\n\n```sh\ngit config amont.severity.<check-id> warn\n```\n\n`commit-msg` takes neither `hook.skip` nor a severity override. Write the\nmessage it asks for, or change what it asks for — `amont setup`, or\n`amont.commit.*` directly.\n\n");
    reveal_strlit("<!-- amont:start -->");
    reveal_strlit("<!-- amont:end -->");
}

proof fn lemma_bang_free_add(a: Seq<char>, b: Seq<char>)
    requires
        bang_free(a),
        bang_free(b),
    ensures
        bang_free(a + b),
{
    assert forall|j: int| 0 <= j < (a + b).len() implies (a + b)[j] != '!' by {
        if j >= a.len() {
            assert((a + b)[j] == b[j - a.len()]);
        }
    }
}

proof fn lemma_join_bang_free(names: Seq<Seq<char>>, k: int)
    requires
        0 <= k <= names.len(),
        forall|i: int| 0 <= i < names.len() ==> bang_free(#[trigger] names[i]),
    ensures
        bang_free(join_names(names, k)),
    decreases k,
{
    if k == 1 {
        assert(bang_free(names[0]));
    } else if k > 1 {
        lemma_join_bang_free(names, k - 1);
        reveal_strlit(", ");
        assert(bang_free(names[k - 1]));
        lemma_bang_free_add(join_names(names, k - 1), ", "@);
        lemma_bang_free_add(join_names(names, k - 1) + ", "@, names[k - 1]);
    }
}

/// The block generated for branch prefixes and limits that hold no `!` is
/// well formed: it opens with the start marker and holds the end marker
/// only where it closes.
pub proof fn generated_block_is_well_formed(prefixes: Seq<Seq<char>>, idle: Seq<char>, ceiling: Seq<char>)
    requires
        forall|i: int| 0 <= i < prefixes.len() ==> bang_free(#[trigger] prefixes[i]),
        bang_free(idle),
        bang_free(ceiling),
    ensures
        wf_block(spec_block(join_names(prefixes, prefixes.len() as int), idle, ceiling)),
{
    lemma_marker_chars();
    lemma_pieces_bang_free();
    let p = join_names(prefixes, prefixes.len() as int);
    lemma_join_bang_free(prefixes, prefixes.len() as int);
    let body = block_piece(0) + p + block_piece(1) + idle + block_piece(2) + ceiling + block_piece(3);
    lemma_bang_free_add(block_piece(0), p);
    lemma_bang_free_add(block_piece(0) + p, block_piece(1));
    lemma_bang_free_add(block_piece(0) + p + block_piece(1), idle);
    lemma_bang_free_add(block_piece(0) + p + block_piece(1) + idle, block_piece(2));
    lemma_bang_free_add(block_piece(0) + p + block_piece(1) + idle + block_piece(2), ceiling);
    lemma_bang_free_add(block_piece(0) + p + block_piece(1) + idle + block_piece(2) + ceiling, block_piece(3));
    let m = START@ + body;
    let b = spec_block(p, idle, ceiling);
    assert(b =~= m + END@ + "\n"@);
    reveal_strlit("\n");
    let e = m.len() as int;
    assert(b.subrange(0, START@.len() as int) =~= START@);
    assert(b.subrange(e, e + END@.len()) =~= END@);
    assert forall|q: int| 0 <= q < e implies !occurs_at(b, END@, q) by {
        if occurs_at(b, END@, q) {
            assert(b.subrange(q, q + END@.len())[1] == b[q + 1]);
            assert(b[q + 1] == '!');
            if q == 0 {
                assert(b.subrange(0, END@.len() as int)[11] == b[11]);
                assert(b[11] == START@[11]);
            } else if q + 1 < e {
                assert(b[q + 1] == body[q + 1 - START@.len()]);
            } else {
                assert(b[q + 1] == END@[0]);
            }
        }
    }
    lemma_find_from_at(b, END@, 0, e);
}

/// The signpost block is well formed.
proof fn pointer_is_well_formed()
    ensures
        wf_block(START@ + pointer_piece() + END@ + "\n"@),
{
    reveal_strlit("\n\n## Git hooks (amont)\n\nThis repository enforces pre-commit / pre-push checks that can REJECT a\ncommit or a push. What runs, the branch-name rule, and why `git commit`\nand `git push` both need a long timeout — or a background run — are in\n[AGENTS.md](AGENTS.md) — read it before committing. Both files are\ngenerated: run `amont agents-md` after changing either.\n\n");
    lemma_marker_chars();
    lemma_pieces_bang_free();
    let body = pointer_piece();
    assert(bang_free(body));
    let m = START@ + body;
    let b = START@ + pointer_piece() + END@ + "\n"@;
    assert(b =~= m + END@ + "\n"@);
    reveal_strlit("\n");
    let e = m.len() as int;
    assert(b.subrange(0, START@.len() as int) =~= START@);
    assert(b.subrange(e, e + END@.len()) =~= END@);
    assert forall|q: int| 0 <= q < e implies !occurs_at(b, END@, q) by {
        if occurs_at(b, END@, q) {
            assert(b.subrange(q, q + END@.len())[1] == b[q + 1]);
            assert(b[q + 1] == '!');
            if q == 0 {
                assert(b.subrange(0, END@.len() as int)[11] == b[11]);
                assert(b[11] == START@[11]);
            } else if q + 1 < e {
                assert(b[q + 1] == body[q + 1 - START@.len()]);
            } else {
                assert(b[q + 1] == END@[0]);
            }
        }
    }
    lemma_find_from_at(b, END@, 0, e);
}

/// Writing the block generated for `!`-free prefixes and limits over what
/// writing it produced changes nothing, and the check then reports the
/// block as the one generated.
pub proof fn writing_the_generated_block_is_idempotent(
    existing: Seq<char>,
    prefixes: Seq<Seq<char>>,
    idle: Seq<char>,
    ceiling: Seq<char>,
)
    requires
        forall|i: int| 0 <= i < prefixes.len() ==> bang_free(#[trigger] prefixes[i]),
        bang_free(idle),
        bang_free(ceiling),
        spec_desired(existing, spec_block(join_names(prefixes, prefixes.len() as int), idle, ceiling)) is Ok,
    ensures
        ({
            let block = spec_block(join_names(prefixes, prefixes.len() as int), idle, ceiling);
            let written = spec_desired(existing, block)->Ok_0;
            &&& spec_desired(written, block) == spec_desired(existing, block)
            &&& spec_classify(written, block) == Ok::<CheckResult, MarkerState>(CheckResult::MatchesGenerated)
        }),
{
    generated_block_is_well_formed(prefixes, idle, ceiling);
    desired_is_idempotent(existing, spec_block(join_names(prefixes, prefixes.len() as int), idle, ceiling));
}

} // verus!
