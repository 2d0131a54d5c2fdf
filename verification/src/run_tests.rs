//! `pre-push-run-tests-js`: which packages a push touches, and which of the
//! gate's scripts each of them defines.
//!
//! The scripts run are `typecheck`, `test:unit`, `test`, cheapest first. Whether a
//! package defines one is read from its `package.json` by a brace-matched
//! scan restricted to the top-level `"scripts"` object, so that a key of
//! the same name anywhere else cannot answer for it.

use vstd::prelude::*;
use crate::text::{chars_of, string_of, vec_eq, slice_of, occurs_at, matches_at, ends_with, starts_with, next_non_space, next_non_white, chars_less, chars_less_exec, lemma_chars_less_irrefl, lemma_chars_less_trans, lemma_chars_less_total, vec_ends_with, push_chars, push_str};
use crate::agents_md::find_from;
use crate::text::views;
use crate::text::str_eq;
use crate::check::{Scope, spec_covers_all, spec_matches};

verus! {

// ---------------------------------------------------------------------------
// The scripts

/// The push-time scripts, cheapest first.
pub open spec fn spec_gate() -> Seq<Seq<char>> {
    seq!["typecheck"@, "test:unit"@, "test"@]
}

/// The extensions whose files are JS worth testing.
pub open spec fn spec_js_exts() -> Seq<Seq<char>> {
    seq![".js"@, ".jsx"@, ".ts"@, ".tsx"@, ".vue"@]
}

pub open spec fn spec_is_js(file: Seq<char>) -> bool {
    exists|k: int| 0 <= k < spec_js_exts().len() && ends_with(file, #[trigger] spec_js_exts()[k])
}

/// A file is JS worth testing exactly when its name ends in `.js`, `.jsx`,
/// `.ts`, `.tsx` or `.vue`.
pub proof fn js_is_the_five_extensions(f: Seq<char>)
    ensures
        spec_is_js(f) <==> (ends_with(f, ".js"@) || ends_with(f, ".jsx"@) || ends_with(f, ".ts"@) || ends_with(
            f,
            ".tsx"@,
        ) || ends_with(f, ".vue"@)),
{
    reveal_strlit(".js");
    reveal_strlit(".jsx");
    reveal_strlit(".ts");
    reveal_strlit(".tsx");
    reveal_strlit(".vue");
    let e = spec_js_exts();
    if ends_with(f, ".js"@) { assert(ends_with(f, e[0])); }
    if ends_with(f, ".jsx"@) { assert(ends_with(f, e[1])); }
    if ends_with(f, ".ts"@) { assert(ends_with(f, e[2])); }
    if ends_with(f, ".tsx"@) { assert(ends_with(f, e[3])); }
    if ends_with(f, ".vue"@) { assert(ends_with(f, e[4])); }
}

pub fn is_js(file: &str) -> (r: bool)
    ensures
        r == spec_is_js(file@),
{
    let f = chars_of(file);
    let exts = [".js", ".jsx", ".ts", ".tsx", ".vue"];
    proof {
        reveal_strlit(".js");
        reveal_strlit(".jsx");
        reveal_strlit(".ts");
        reveal_strlit(".tsx");
        reveal_strlit(".vue");
        assert(exts@.map_values(|e: &str| e@) =~= spec_js_exts());
    }
    let mut k: usize = 0;
    while k < 5
        invariant
            k <= 5,
            exts@.len() == 5,
            f@ == file@,
            exts@.map_values(|e: &str| e@) == spec_js_exts(),
            forall|m: int| 0 <= m < k ==> !ends_with(f@, #[trigger] spec_js_exts()[m]),
        decreases 5 - k,
    {
        assert(spec_js_exts()[k as int] == exts@[k as int]@);
        if vec_ends_with(&f, &chars_of(exts[k])) {
            return true;
        }
        k += 1;
    }
    false
}

/// The last index of `c` in `s`, if any.
pub open spec fn last_index(s: Seq<char>, c: char, k: int) -> Option<int>
    decreases k,
{
    if k <= 0 {
        None
    } else if s[k - 1] == c {
        Some(k - 1)
    } else {
        last_index(s, c, k - 1)
    }
}

/// The directory part of a path: everything before the last `/`, or
/// nothing.
pub open spec fn spec_parent(path: Seq<char>) -> Seq<char> {
    match last_index(path, '/', path.len() as int) {
        Some(i) => path.take(i),
        None => seq![],
    }
}

pub fn parent_of(path: &Vec<char>) -> (r: Vec<char>)
    ensures
        r@ == spec_parent(path@),
{
    let mut k = path.len();
    while k > 0 && path[k - 1] != '/'
        invariant
            k <= path.len(),
            last_index(path@, '/', k as int) == last_index(path@, '/', path@.len() as int),
        decreases k,
    {
        k -= 1;
    }
    if k == 0 {
        Vec::new()
    } else {
        slice_of(path, 0, k - 1)
    }
}

// ---------------------------------------------------------------------------
// Reading `package.json`

/// Where the string whose content starts at `i` closes: the first `"` not
/// escaped by a backslash, or `None` when it never closes.
pub open spec fn str_end(s: Seq<char>, i: int, escaped: bool) -> Option<int>
    decreases s.len() - i,
{
    if i < 0 || i >= s.len() {
        None
    } else if escaped {
        str_end(s, i + 1, false)
    } else if s[i] == '\\' {
        str_end(s, i + 1, true)
    } else if s[i] == '"' {
        Some(i)
    } else {
        str_end(s, i + 1, false)
    }
}

pub proof fn lemma_str_end(s: Seq<char>, i: int, escaped: bool)
    ensures
        str_end(s, i, escaped) matches Some(e) ==> i <= e < s.len() && s[e] == '"',
    decreases s.len() - i,
{
    if 0 <= i < s.len() {
        if escaped {
            lemma_str_end(s, i + 1, false);
        } else if s[i] == '\\' {
            lemma_str_end(s, i + 1, true);
        } else if s[i] != '"' {
            lemma_str_end(s, i + 1, false);
        }
    }
}

/// Exec form of [`str_end`] from a string's first content character.
fn string_end(s: &Vec<char>, from: usize) -> (r: Option<usize>)
    requires
        from <= s.len(),
    ensures
        match r {
            Some(e) => str_end(s@, from as int, false) == Some(e as int),
            None => str_end(s@, from as int, false) is None,
        },
{
    let mut escaped = false;
    let mut i = from;
    while i < s.len()
        invariant
            from <= i <= s.len(),
            str_end(s@, i as int, escaped) == str_end(s@, from as int, false),
        decreases s.len() - i,
    {
        let c = s[i];
        if escaped {
            escaped = false;
        } else if c == '\\' {
            escaped = true;
        } else if c == '"' {
            return Some(i);
        }
        i += 1;
    }
    None
}

/// The matching `}` for an object being scanned from `i` at nesting
/// `depth`, strings skipped whole; `None` when it never closes.
pub open spec fn obj_end(s: Seq<char>, i: int, depth: nat) -> Option<int>
    decreases s.len() - i,
{
    if i < 0 || i >= s.len() {
        None
    } else if s[i] == '"' {
        match str_end(s, i + 1, false) {
            Some(e) => {
                proof {
                    lemma_str_end(s, i + 1, false);
                }
                obj_end(s, e + 1, depth)
            },
            None => None,
        }
    } else if s[i] == '{' {
        obj_end(s, i + 1, depth + 1)
    } else if s[i] == '}' {
        if depth <= 1 {
            Some(i)
        } else {
            obj_end(s, i + 1, (depth - 1) as nat)
        }
    } else {
        obj_end(s, i + 1, depth)
    }
}

/// Exec form of [`obj_end`] from an opening brace.
fn object_end(s: &Vec<char>, open: usize) -> (r: Option<usize>)
    requires
        open < s.len(),
        s@[open as int] == '{',
    ensures
        match r {
            Some(e) => obj_end(s@, open as int, 0) == Some(e as int),
            None => obj_end(s@, open as int, 0) is None,
        },
{
    let mut depth: usize = 0;
    let mut i = open;
    while i < s.len()
        invariant
            open <= i <= s.len(),
            depth <= i - open,
            obj_end(s@, i as int, depth as nat) == obj_end(s@, open as int, 0),
        decreases s.len() - i,
    {
        let c = s[i];
        if c == '"' {
            match string_end(s, i + 1) {
                Some(e) => {
                    proof {
                        lemma_str_end(s@, i + 1, false);
                    }
                    i = e + 1;
                },
                None => {
                    return None;
                },
            }
        } else if c == '{' {
            depth += 1;
            i += 1;
        } else if c == '}' {
            if depth <= 1 {
                return Some(i);
            }
            depth -= 1;
            i += 1;
        } else {
            i += 1;
        }
    }
    None
}

/// `u8::is_ascii_whitespace`.
pub open spec fn json_space(c: char) -> bool {
    c == ' ' || c == '\t' || c == '\n' || c == '\x0C' || c == '\r'
}

/// The first index at or after `j` that is not JSON white space.
pub open spec fn skip_ws(s: Seq<char>, j: int) -> int
    decreases s.len() - j,
{
    if 0 <= j < s.len() && json_space(s[j]) {
        skip_ws(s, j + 1)
    } else {
        j
    }
}

pub proof fn lemma_skip_ws(s: Seq<char>, j: int)
    requires
        0 <= j,
    ensures
        j <= skip_ws(s, j),
        j <= s.len() ==> skip_ws(s, j) <= s.len(),
    decreases s.len() - j,
{
    if 0 <= j < s.len() && json_space(s[j]) {
        lemma_skip_ws(s, j + 1);
    }
}

fn skip_json_space(s: &Vec<char>, j: usize) -> (k: usize)
    requires
        j <= s.len(),
    ensures
        k == skip_ws(s@, j as int),
        j <= k <= s.len(),
{
    let mut k = j;
    while k < s.len() && (s[k] == ' ' || s[k] == '\t' || s[k] == '\n' || s[k] == '\x0C' || s[k] == '\r')
        invariant
            j <= k <= s.len(),
            skip_ws(s@, k as int) == skip_ws(s@, j as int),
        decreases s.len() - k,
    {
        k += 1;
    }
    k
}

/// The span `[open, close + 1)` of the top-level `"scripts"` object, scanning
/// from `i` at nesting `depth`: a string counts as a key only at depth 1
/// (inside the document object, outside any array) and when the next
/// non-space character is `:`. A top-level `"scripts"` whose value is not an
/// object ends the search with nothing.
pub open spec fn scripts_scan(s: Seq<char>, i: int, depth: nat) -> Option<(int, int)>
    decreases s.len() - i,
{
    if i < 0 || i >= s.len() {
        None
    } else if s[i] == '"' {
        match str_end(s, i + 1, false) {
            None => None,
            Some(close) => {
                proof {
                    lemma_str_end(s, i + 1, false);
                }
                let j = skip_ws(s, close + 1);
                if depth != 1 || j >= s.len() || s[j] != ':' || s.subrange(i + 1, close) != "scripts"@ {
                    scripts_scan(s, close + 1, depth)
                } else {
                    let k = skip_ws(s, j + 1);
                    if k >= s.len() || s[k] != '{' {
                        None
                    } else {
                        match obj_end(s, k, 0) {
                            Some(e) => Some((k, e + 1)),
                            None => None,
                        }
                    }
                }
            },
        }
    } else if s[i] == '{' || s[i] == '[' {
        scripts_scan(s, i + 1, depth + 1)
    } else if s[i] == '}' || s[i] == ']' {
        scripts_scan(s, i + 1, if depth > 0 { (depth - 1) as nat } else { 0 })
    } else {
        scripts_scan(s, i + 1, depth)
    }
}

pub proof fn lemma_obj_end(s: Seq<char>, i: int, depth: nat)
    requires
        0 <= i,
    ensures
        obj_end(s, i, depth) matches Some(e) ==> i <= e < s.len(),
    decreases s.len() - i,
{
    if 0 <= i < s.len() {
        if s[i] == '"' {
            lemma_str_end(s, i + 1, false);
            if let Some(e) = str_end(s, i + 1, false) {
                lemma_obj_end(s, e + 1, depth);
            }
        } else if s[i] == '{' {
            lemma_obj_end(s, i + 1, depth + 1);
        } else if s[i] == '}' {
            if depth > 1 {
                lemma_obj_end(s, i + 1, (depth - 1) as nat);
            }
        } else {
            lemma_obj_end(s, i + 1, depth);
        }
    }
}

pub proof fn lemma_scripts_scan(s: Seq<char>, i: int, depth: nat)
    requires
        0 <= i,
    ensures
        scripts_scan(s, i, depth) matches Some((a, z)) ==> i <= a < z <= s.len() && s[a] == '{',
    decreases s.len() - i,
{
    if 0 <= i < s.len() {
        if s[i] == '"' {
            lemma_str_end(s, i + 1, false);
            if let Some(close) = str_end(s, i + 1, false) {
                lemma_skip_ws(s, close + 1);
                let j = skip_ws(s, close + 1);
                if depth != 1 || j >= s.len() || s[j] != ':' || s.subrange(i + 1, close) != "scripts"@ {
                    lemma_scripts_scan(s, close + 1, depth);
                } else {
                    lemma_skip_ws(s, j + 1);
                    let k = skip_ws(s, j + 1);
                    if k < s.len() && s[k] == '{' {
                        lemma_obj_end(s, k, 0);
                    }
                }
            }
        } else if s[i] == '{' || s[i] == '[' {
            lemma_scripts_scan(s, i + 1, depth + 1);
        } else if s[i] == '}' || s[i] == ']' {
            lemma_scripts_scan(s, i + 1, if depth > 0 { (depth - 1) as nat } else { 0 });
        } else {
            lemma_scripts_scan(s, i + 1, depth);
        }
    }
}

/// The top-level `"scripts"` object of a `package.json`, braces included.
pub open spec fn spec_scripts_object(pkg: Seq<char>) -> Option<Seq<char>> {
    match scripts_scan(pkg, 0, 0) {
        Some((a, z)) => Some(pkg.subrange(a, z)),
        None => None,
    }
}

fn scripts_object(s: &Vec<char>) -> (r: Option<Vec<char>>)
    ensures
        match r {
            Some(b) => spec_scripts_object(s@) == Some(b@),
            None => spec_scripts_object(s@) is None,
        },
{
    let ghost target = scripts_scan(s@, 0, 0);
    let key = chars_of("scripts");
    proof {
        reveal_strlit("scripts");
    }
    let mut depth: usize = 0;
    let mut i: usize = 0;
    while i < s.len()
        invariant
            i <= s.len(),
            depth <= i,
            key@ == "scripts"@,
            scripts_scan(s@, i as int, depth as nat) == target,
            target == scripts_scan(s@, 0, 0),
        decreases s.len() - i,
    {
        let c = s[i];
        if c == '"' {
            let close = match string_end(s, i + 1) {
                Some(e) => e,
                None => {
                    return None;
                },
            };
            proof {
                lemma_str_end(s@, i + 1, false);
            }
            let j = skip_json_space(s, close + 1);
            let is_key = depth == 1 && j < s.len() && s[j] == ':';
            if !is_key {
                i = close + 1;
            } else {
                let content = slice_of(s, i + 1, close);
                if !vec_eq(&content, &key) {
                    i = close + 1;
                } else {
                    let k = skip_json_space(s, j + 1);
                    if k >= s.len() || s[k] != '{' {
                        return None;
                    }
                    match object_end(s, k) {
                        Some(e) => {
                            proof {
                                lemma_obj_end(s@, k as int, 0);
                            }
                            return Some(slice_of(s, k, e + 1));
                        },
                        None => {
                            return None;
                        },
                    }
                }
            }
        } else if c == '{' || c == '[' {
            depth += 1;
            i += 1;
        } else if c == '}' || c == ']' {
            if depth > 0 {
                depth -= 1;
            }
            i += 1;
        } else {
            i += 1;
        }
    }
    None
}

/// Is there an occurrence of the quoted name at or after `from`, taking
/// them first to last and each search resuming after the last one found,
/// whose next non-space character is `:`?
pub open spec fn key_from(body: Seq<char>, needle: Seq<char>, from: int) -> bool
    decreases body.len() + 1 - from,
{
    if needle.len() == 0 || from < 0 {
        false
    } else {
        match find_from(body, needle, from) {
            None => false,
            Some(at) => {
                proof {
                    lemma_find_from_bound(body, needle, from);
                }
                if next_non_space(body, at + needle.len()) == Some(':') {
                    true
                } else {
                    key_from(body, needle, at + needle.len())
                }
            },
        }
    }
}

pub proof fn lemma_find_from_bound(s: Seq<char>, w: Seq<char>, k: int)
    ensures
        find_from(s, w, k) matches Some(at) ==> k <= at && at + w.len() <= s.len() && occurs_at(s, w, at),
    decreases s.len() + 1 - k,
{
    if !(k < 0 || k + w.len() > s.len()) && !occurs_at(s, w, k) {
        lemma_find_from_bound(s, w, k + 1);
    }
}

/// Does the package define `script` under its top-level `"scripts"`?
pub open spec fn spec_defines_script(pkg: Seq<char>, script: Seq<char>) -> bool {
    match spec_scripts_object(pkg) {
        Some(body) => key_from(body, seq!['"'] + script + seq!['"'], 0),
        None => false,
    }
}

/// Exec form of [`find_from`].
fn find_at_or_after(s: &Vec<char>, w: &Vec<char>, from: usize) -> (r: Option<usize>)
    requires
        w@.len() > 0,
        from <= s.len(),
    ensures
        match r {
            Some(k) => find_from(s@, w@, from as int) == Some(k as int),
            None => find_from(s@, w@, from as int) is None,
        },
{
    let mut k = from;
    while k <= s.len() && w.len() <= s.len() - k
        invariant
            from <= k,
            w@.len() > 0,
            find_from(s@, w@, k as int) == find_from(s@, w@, from as int),
        decreases s.len() + 1 - k,
    {
        if matches_at(s, w, k) {
            return Some(k);
        }
        k += 1;
    }
    None
}

pub fn defines_script(pkg_json: &str, script: &str) -> (r: bool)
    ensures
        r == spec_defines_script(pkg_json@, script@),
{
    let s = chars_of(pkg_json);
    let body = match scripts_object(&s) {
        Some(b) => b,
        None => {
            return false;
        },
    };
    let mut needle: Vec<char> = Vec::new();
    needle.push('"');
    push_str(&mut needle, script);
    needle.push('"');
    assert(needle@ =~= seq!['"'] + script@ + seq!['"']);
    assert(spec_defines_script(pkg_json@, script@) == key_from(body@, needle@, 0));
    let mut from: usize = 0;
    while from <= body.len()
        invariant
            needle@ == seq!['"'] + script@ + seq!['"'],
            spec_defines_script(pkg_json@, script@) == key_from(body@, needle@, 0),
            key_from(body@, needle@, from as int) == key_from(body@, needle@, 0),
        decreases body.len() + 1 - from,
    {
        assert(needle@.len() > 0);
        match find_at_or_after(&body, &needle, from) {
            None => {
                assert(key_from(body@, needle@, from as int) == false);
                return false;
            },
            Some(at) => {
                proof {
                    lemma_find_from_bound(body@, needle@, from as int);
                }
                if next_non_white(&body, at + needle.len()) == Some(':') {
                    assert(key_from(body@, needle@, from as int));
                    return true;
                }
                assert(key_from(body@, needle@, from as int) == key_from(body@, needle@, at + needle@.len()));
                from = at + needle.len();
            },
        }
    }
    proof {
        assert(find_from(body@, needle@, from as int) is None);
    }
    false
}

/// The push-time scripts this package defines and no commit-time declaration
/// already covers, in gate order.
pub open spec fn gate_upto(pkg: Seq<char>, already: Seq<Seq<char>>, k: int) -> Seq<Seq<char>>
    decreases k,
{
    if k <= 0 {
        seq![]
    } else {
        let prev = gate_upto(pkg, already, k - 1);
        let s = spec_gate()[k - 1];
        if spec_defines_script(pkg, s) && !already.contains(s) {
            prev.push(s)
        } else {
            prev
        }
    }
}

/// `name` alone when the package defines it and no commit-time declaration
/// covers it, else nothing.
pub open spec fn kept_script(pkg: Seq<char>, already: Seq<Seq<char>>, name: Seq<char>) -> Seq<Seq<char>> {
    if spec_defines_script(pkg, name) && !already.contains(name) {
        seq![name]
    } else {
        seq![]
    }
}

/// A package's push gate is `typecheck`, then `test:unit`, then `test` —
/// each exactly when the package defines that script and no commit-time
/// declaration already covers it. So a defined, uncovered `test:unit` is
/// always run.
pub proof fn the_gate_is_typecheck_then_unit_then_test(pkg: Seq<char>, already: Seq<Seq<char>>)
    ensures
        gate_upto(pkg, already, 3) == kept_script(pkg, already, "typecheck"@) + kept_script(pkg, already, "test:unit"@)
            + kept_script(pkg, already, "test"@),
        spec_defines_script(pkg, "test:unit"@) && !already.contains("test:unit"@) ==> gate_upto(pkg, already, 3).contains(
            "test:unit"@,
        ),
{
    reveal_strlit("typecheck");
    reveal_strlit("test:unit");
    reveal_strlit("test");
    reveal_with_fuel(gate_upto, 4);
    let a = kept_script(pkg, already, "typecheck"@);
    let b = kept_script(pkg, already, "test:unit"@);
    let c = kept_script(pkg, already, "test"@);
    assert(gate_upto(pkg, already, 0) =~= Seq::<Seq<char>>::empty());
    assert(gate_upto(pkg, already, 1) =~= a);
    assert(gate_upto(pkg, already, 2) =~= a + b);
    assert(gate_upto(pkg, already, 3) =~= a + b + c);
    if spec_defines_script(pkg, "test:unit"@) && !already.contains("test:unit"@) {
        assert((a + b + c)[a.len() as int] == "test:unit"@);
    }
}

/// The push-time scripts for one package, minus what a commit-time declaration covers.
pub fn gate_for(pkg_json: &str, already: &[&str]) -> (r: Vec<&'static str>)
    ensures
        r@.map_values(|s: &str| s@) == gate_upto(pkg_json@, already@.map_values(|a: &str| a@), 3),
        r@.map_values(|s: &str| s@) == kept_script(pkg_json@, already@.map_values(|a: &str| a@), "typecheck"@)
            + kept_script(pkg_json@, already@.map_values(|a: &str| a@), "test:unit"@)
            + kept_script(pkg_json@, already@.map_values(|a: &str| a@), "test"@),
{
    proof {
        the_gate_is_typecheck_then_unit_then_test(pkg_json@, already@.map_values(|a: &str| a@));
    }
    let gate = ["typecheck", "test:unit", "test"];
    proof {
        reveal_strlit("typecheck");
        reveal_strlit("test:unit");
        reveal_strlit("test");
        assert(gate@.map_values(|g: &str| g@) =~= spec_gate());
    }
    let ghost al = already@.map_values(|a: &str| a@);
    let mut out: Vec<&'static str> = Vec::new();
    let mut k: usize = 0;
    while k < 3
        invariant
            k <= 3,
            gate@.len() == 3,
            gate@.map_values(|g: &str| g@) == spec_gate(),
            al == already@.map_values(|a: &str| a@),
            out@.map_values(|s: &str| s@) == gate_upto(pkg_json@, al, k as int),
        decreases 3 - k,
    {
        let g = gate[k];
        assert(spec_gate()[k as int] == g@);
        let mut listed = false;
        let mut j: usize = 0;
        while j < already.len()
            invariant
                j <= already@.len(),
                al == already@.map_values(|a: &str| a@),
                listed == exists|m: int| 0 <= m < j && al[m] == g@,
            decreases already.len() - j,
        {
            assert(al[j as int] == already@[j as int]@);
            if vec_eq(&chars_of(already[j]), &chars_of(g)) {
                listed = true;
            }
            j += 1;
        }
        proof {
            if listed {
                let m = choose|m: int| 0 <= m < al.len() && al[m] == g@;
                assert(al.contains(g@));
            } else {
                assert(!al.contains(g@));
            }
        }
        if defines_script(pkg_json, g) && !listed {
            let ghost before = out@.map_values(|s: &str| s@);
            out.push(g);
            assert(out@.map_values(|s: &str| s@) =~= before.push(g@));
        }
        k += 1;
    }
    out
}

// ---------------------------------------------------------------------------
// Which packages

/// The strings' contents.
pub open spec fn strs(v: Seq<String>) -> Seq<Seq<char>> {
    v.map_values(|s: String| s@)
}

/// A tracked `package.json`, at the root or in a directory.
pub open spec fn is_package_json(f: Seq<char>) -> bool {
    f == "package.json"@ || ends_with(f, "/package.json"@)
}

/// Each element comes strictly before the next: sorted, no duplicates.
pub open spec fn strictly_sorted(s: Seq<Seq<char>>) -> bool {
    forall|i: int, j: int| 0 <= i < j < s.len() ==> chars_less(#[trigger] s[i], #[trigger] s[j])
}

/// `d` is the directory of some tracked `package.json`.
pub open spec fn is_package_dir(files: Seq<Seq<char>>, d: Seq<char>) -> bool {
    exists|k: int| 0 <= k < files.len() && is_package_json(#[trigger] files[k]) && spec_parent(files[k]) == d
}

fn is_package_json_exec(f: &Vec<char>) -> (r: bool)
    ensures
        r == is_package_json(f@),
{
    proof {
        reveal_strlit("package.json");
        reveal_strlit("/package.json");
    }
    vec_eq(f, &chars_of("package.json")) || vec_ends_with(f, &chars_of("/package.json"))
}

/// Insert `x` into a strictly sorted vector, unless it is already there.
pub fn insert_sorted(v: &mut Vec<Vec<char>>, x: Vec<char>)
    requires
        strictly_sorted(views(old(v)@)),
    ensures
        strictly_sorted(views(final(v)@)),
        forall|d: Seq<char>|
            #[trigger] views(final(v)@).contains(d) <==> (views(old(v)@).contains(d) || d == x@),
{
    let ghost before = views(v@);
    let mut i: usize = 0;
    while i < v.len() && chars_less_exec(&v[i], &x)
        invariant
            i <= v.len(),
            views(v@) == before,
            forall|m: int| 0 <= m < i ==> chars_less(#[trigger] before[m], x@),
        decreases v.len() - i,
    {
        i += 1;
    }
    if i < v.len() && vec_eq(&v[i], &x) {
        proof {
            assert(before[i as int] == x@);
            assert(before.contains(x@));
        }
        return;
    }
    proof {
        if i < v.len() {
            assert(before[i as int] == v@[i as int]@);
            lemma_chars_less_total(x@, before[i as int]);
            assert(chars_less(x@, before[i as int]));
        }
    }
    let ghost xv = x@;
    v.insert(i, x);
    let ghost after = views(v@);
    proof {
        assert(after =~= before.insert(i as int, xv));
        assert forall|a: int, b: int| 0 <= a < b < after.len() implies chars_less(#[trigger] after[a], #[trigger] after[b]) by {
            if b < i {
                assert(after[a] == before[a] && after[b] == before[b]);
            } else if b == i {
                assert(after[a] == before[a] && after[b] == xv);
            } else {
                assert(after[b] == before[b - 1]);
                if a < i {
                    assert(after[a] == before[a]);
                } else if a == i {
                    assert(after[a] == xv);
                    if b - 1 > i {
                        lemma_chars_less_trans(xv, before[i as int], before[b - 1]);
                    }
                } else {
                    assert(after[a] == before[a - 1]);
                }
            }
        }
        assert forall|d: Seq<char>| #[trigger] after.contains(d) <==> (before.contains(d) || d == xv) by {
            if after.contains(d) {
                let m = choose|m: int| 0 <= m < after.len() && after[m] == d;
                if m < i {
                    assert(before[m] == d);
                } else if m > i {
                    assert(before[m - 1] == d);
                }
            }
            if before.contains(d) {
                let m = choose|m: int| 0 <= m < before.len() && before[m] == d;
                if m < i {
                    assert(after[m] == d);
                } else {
                    assert(after[m + 1] == d);
                }
            }
            if d == xv {
                assert(after[i as int] == d);
            }
        }
    }
}

/// The directories of the tracked `package.json` files, sorted and
/// without duplicates; the root package is the empty directory.
pub fn package_dirs(ls_files: &[String]) -> (r: Vec<String>)
    ensures
        strictly_sorted(strs(r@)),
        forall|d: Seq<char>|
            #[trigger] strs(r@).contains(d) <==> is_package_dir(
                strs(ls_files@),
                d,
            ),
{
    let ghost files = strs(ls_files@);
    let mut dirs: Vec<Vec<char>> = Vec::new();
    let mut k: usize = 0;
    while k < ls_files.len()
        invariant
            k <= ls_files@.len(),
            files == strs(ls_files@),
            strictly_sorted(views(dirs@)),
            forall|d: Seq<char>|
                #[trigger] views(dirs@).contains(d) <==> exists|m: int|
                    0 <= m < k && is_package_json(#[trigger] files[m]) && spec_parent(files[m]) == d,
        decreases ls_files.len() - k,
    {
        let f = chars_of(ls_files[k].as_str());
        assert(f@ == files[k as int]);
        let ghost before = views(dirs@);
        if is_package_json_exec(&f) {
            let p = parent_of(&f);
            let ghost pv = p@;
            insert_sorted(&mut dirs, p);
            proof {
                let after = views(dirs@);
                assert forall|d: Seq<char>| #[trigger] after.contains(d) <==> exists|m: int|
                    0 <= m < k + 1 && is_package_json(#[trigger] files[m]) && spec_parent(files[m]) == d by {
                    if d == pv {
                        assert(is_package_json(files[k as int]) && spec_parent(files[k as int]) == d);
                    }
                    if exists|m: int| 0 <= m < k + 1 && is_package_json(#[trigger] files[m]) && spec_parent(files[m]) == d {
                        let m = choose|m: int| 0 <= m < k + 1 && is_package_json(#[trigger] files[m]) && spec_parent(files[m]) == d;
                        if m < k {
                            assert(before.contains(d));
                        }
                    }
                }
            }
        } else {
            proof {
                assert forall|d: Seq<char>| #[trigger] before.contains(d) <==> exists|m: int|
                    0 <= m < k + 1 && is_package_json(#[trigger] files[m]) && spec_parent(files[m]) == d by {
                    if exists|m: int| 0 <= m < k + 1 && is_package_json(#[trigger] files[m]) && spec_parent(files[m]) == d {
                        let m = choose|m: int| 0 <= m < k + 1 && is_package_json(#[trigger] files[m]) && spec_parent(files[m]) == d;
                        assert(m != k);
                    }
                }
            }
        }
        k += 1;
    }
    let mut out: Vec<String> = Vec::new();
    let mut j: usize = 0;
    while j < dirs.len()
        invariant
            j <= dirs@.len(),
            strs(out@) == views(dirs@).take(j as int),
        decreases dirs.len() - j,
    {
        let ghost before = strs(out@);
        assert(views(dirs@)[j as int] == dirs@[j as int]@);
        let d = string_of(&dirs[j]);
        out.push(d);
        proof {
            assert(strs(out@) =~= before.push(dirs@[j as int]@));
            assert(views(dirs@).take(j + 1) =~= views(dirs@).take(j as int).push(views(dirs@)[j as int]));
        }
        j += 1;
    }
    proof {
        assert(views(dirs@).take(dirs@.len() as int) =~= views(dirs@));
    }
    out
}

/// A change in `dir` is inside package `pkg`: the root package holds
/// everything, any other holds itself and what lies under it.
pub open spec fn inside(pkg: Seq<char>, dir: Seq<char>) -> bool {
    pkg.len() == 0 || dir == pkg || starts_with(dir, pkg + seq!['/'])
}

pub open spec fn touched(pkg: Seq<char>, changed: Seq<Seq<char>>) -> bool {
    exists|k: int| 0 <= k < changed.len() && inside(pkg, #[trigger] changed[k])
}

/// The first `k` packages, in the order given, that hold at least one
/// changed directory.
pub open spec fn selected(pkgs: Seq<Seq<char>>, changed: Seq<Seq<char>>, k: int) -> Seq<Seq<char>>
    decreases k,
{
    if k <= 0 {
        seq![]
    } else if touched(pkgs[k - 1], changed) {
        selected(pkgs, changed, k - 1).push(pkgs[k - 1])
    } else {
        selected(pkgs, changed, k - 1)
    }
}

/// The packages, in the order given, that hold at least one changed
/// directory.
pub fn packages_to_test(pkg_dirs: &[String], changed_dirs: &[String]) -> (r: Vec<String>)
    ensures
        strs(r@) == selected(
            strs(pkg_dirs@),
            strs(changed_dirs@),
            pkg_dirs@.len() as int,
        ),
{
    let ghost pk = strs(pkg_dirs@);
    let ghost ch = strs(changed_dirs@);
    let mut out: Vec<String> = Vec::new();
    let mut k: usize = 0;
    while k < pkg_dirs.len()
        invariant
            k <= pkg_dirs@.len(),
            pk == strs(pkg_dirs@),
            ch == strs(changed_dirs@),
            strs(out@) == selected(pk, ch, k as int),
        decreases pkg_dirs.len() - k,
    {
        let p = chars_of(pkg_dirs[k].as_str());
        assert(p@ == pk[k as int]);
        let mut prefix = slice_of(&p, 0, p.len());
        prefix.push('/');
        assert(prefix@ =~= p@ + seq!['/']);
        let mut hit = false;
        let mut j: usize = 0;
        while j < changed_dirs.len()
            invariant
                j <= changed_dirs@.len(),
                ch == strs(changed_dirs@),
                prefix@ == p@ + seq!['/'],
                hit == exists|m: int| 0 <= m < j && inside(p@, #[trigger] ch[m]),
            decreases changed_dirs.len() - j,
        {
            let d = chars_of(changed_dirs[j].as_str());
            assert(d@ == ch[j as int]);
            let here = p.len() == 0 || vec_eq(&d, &p) || (prefix.len() <= d.len() && matches_at(&d, &prefix, 0));
            proof {
                if prefix@.len() <= d@.len() {
                    if occurs_at(d@, prefix@, 0) {
                        assert(d@.subrange(0, prefix@.len() as int) =~= prefix@);
                    }
                    if starts_with(d@, prefix@) {
                        assert(d@.subrange(0, prefix@.len() as int) =~= prefix@);
                    }
                }
                assert(here == inside(p@, d@));
            }
            if here {
                hit = true;
            }
            j += 1;
        }
        let ghost before = strs(out@);
        if hit {
            out.push(string_of(&p));
            assert(strs(out@) =~= before.push(p@));
        }
        k += 1;
    }
    out
}


// ---------------------------------------------------------------------------
// Declarations that already ran at commit time

/// Some stamp entry for `commit` names `script`: the commit carries a
/// record that the declaration ran on it.
pub open spec fn stamped(stamps: Seq<(String, Vec<String>)>, commit: Seq<char>, script: Seq<char>) -> bool {
    exists|k: int| 0 <= k < stamps.len() && (#[trigger] stamps[k]).0@ == commit && strs(stamps[k].1@).contains(script)
}

/// Every pushed commit whose files the declaration's scope matches carries
/// a stamp naming its script.
pub open spec fn judged(d: (String, Scope), per_commit: Seq<(String, Vec<String>)>, stamps: Seq<(String, Vec<String>)>) -> bool {
    forall|c: int| 0 <= c < per_commit.len() && spec_matches(strs(d.1.files@), strs(d.1.names@), strs((#[trigger] per_commit[c]).1@))
        ==> stamped(stamps, per_commit[c].0@, d.0@)
}

/// The declaration stands in for this push: its scope saw every changed JS
/// file, and it ran on every commit it would have fired on.
pub open spec fn stands_in(
    d: (String, Scope),
    js_changed: Seq<Seq<char>>,
    per_commit: Seq<(String, Vec<String>)>,
    stamps: Seq<(String, Vec<String>)>,
) -> bool {
    spec_covers_all(strs(d.1.files@), strs(d.1.names@), js_changed) && judged(d, per_commit, stamps)
}

/// The scripts of the first `k` declarations that stand in, in order.
pub open spec fn covering(
    decls: Seq<(String, Scope)>,
    js_changed: Seq<Seq<char>>,
    per_commit: Seq<(String, Vec<String>)>,
    stamps: Seq<(String, Vec<String>)>,
    k: int,
) -> Seq<Seq<char>>
    decreases k,
{
    if k <= 0 || k > decls.len() {
        Seq::empty()
    } else if stands_in(decls[k - 1], js_changed, per_commit, stamps) {
        covering(decls, js_changed, per_commit, stamps, k - 1).push(decls[k - 1].0@)
    } else {
        covering(decls, js_changed, per_commit, stamps, k - 1)
    }
}

fn names_script(v: &Vec<String>, script: &str) -> (r: bool)
    ensures
        r == strs(v@).contains(script@),
{
    let ghost vs = strs(v@);
    let mut k: usize = 0;
    while k < v.len()
        invariant
            k <= v@.len(),
            vs == strs(v@),
            forall|m: int| 0 <= m < k ==> vs[m] != script@,
        decreases v.len() - k,
    {
        assert(vs[k as int] == v@[k as int]@);
        if str_eq(v[k].as_str(), script) {
            return true;
        }
        k += 1;
    }
    false
}

fn has_stamp(stamps: &[(String, Vec<String>)], commit: &str, script: &str) -> (r: bool)
    ensures
        r == stamped(stamps@, commit@, script@),
{
    let mut k: usize = 0;
    while k < stamps.len()
        invariant
            k <= stamps@.len(),
            forall|m: int| 0 <= m < k ==> !((#[trigger] stamps@[m]).0@ == commit@ && strs(stamps@[m].1@).contains(script@)),
        decreases stamps.len() - k,
    {
        if str_eq(stamps[k].0.as_str(), commit) && names_script(&stamps[k].1, script) {
            return true;
        }
        k += 1;
    }
    false
}

fn ran_everywhere(d: &(String, Scope), per_commit: &[(String, Vec<String>)], stamps: &[(String, Vec<String>)]) -> (r: bool)
    ensures
        r == judged(*d, per_commit@, stamps@),
{
    let mut c: usize = 0;
    while c < per_commit.len()
        invariant
            c <= per_commit@.len(),
            forall|m: int| 0 <= m < c && spec_matches(strs(d.1.files@), strs(d.1.names@), strs((#[trigger] per_commit@[m]).1@))
                ==> stamped(stamps@, per_commit@[m].0@, d.0@),
        decreases per_commit.len() - c,
    {
        let files: &[String] = per_commit[c].1.as_slice();
        if d.1.matches(files) && !has_stamp(stamps, per_commit[c].0.as_str(), d.0.as_str()) {
            return false;
        }
        c += 1;
    }
    true
}

/// Of the scripts declared at commit time, in declaration order, those that
/// already answer for this push: the declaration's scope covers every
/// changed JS file, and every pushed commit (`per_commit`: each commit with
/// the files it touches) whose files the scope matches carries a stamp
/// (`stamps`: each commit with the scripts recorded on it) naming the
/// script. A commit without such a stamp is one the check never judged, so
/// the suite runs for it.
pub fn covered_by_declarations(
    js_changed: &[String],
    decls: &[(String, Scope)],
    per_commit: &[(String, Vec<String>)],
    stamps: &[(String, Vec<String>)],
) -> (r: Vec<String>)
    ensures
        strs(r@) == covering(decls@, strs(js_changed@), per_commit@, stamps@, decls@.len() as int),
{
    let mut r: Vec<String> = Vec::new();
    let mut k: usize = 0;
    while k < decls.len()
        invariant
            k <= decls@.len(),
            strs(r@) == covering(decls@, strs(js_changed@), per_commit@, stamps@, k as int),
        decreases decls.len() - k,
    {
        let d = &decls[k];
        if d.1.covers_all(js_changed) && ran_everywhere(d, per_commit, stamps) {
            let ghost before = r@;
            let name = string_of(&chars_of(d.0.as_str()));
            r.push(name);
            assert(strs(r@) =~= strs(before).push(name@));
        }
        k += 1;
    }
    r
}


// ---------------------------------------------------------------------------
// One pushed ref

/// The JS files among the first `k` of `changed`, in order.
pub open spec fn js_upto(changed: Seq<Seq<char>>, k: int) -> Seq<Seq<char>>
    decreases k,
{
    if k <= 0 || k > changed.len() {
        seq![]
    } else if spec_is_js(changed[k - 1]) {
        js_upto(changed, k - 1).push(changed[k - 1])
    } else {
        js_upto(changed, k - 1)
    }
}

/// The JS files a pushed ref asks the suite about: none when the ref is
/// being deleted (its local id is the all-zero `zero`), which pushes no
/// code; else every changed JS file, in order. An empty answer means the
/// ref needs no suite.
pub fn js_changed_for(local_oid: &str, zero: &str, changed: &[String]) -> (r: Vec<String>)
    ensures
        strs(r@) == (if local_oid@ == zero@ { Seq::<Seq<char>>::empty() } else { js_upto(strs(changed@), changed@.len() as int) }),
{
    let mut r: Vec<String> = Vec::new();
    if str_eq(local_oid, zero) {
        assert(strs(r@) =~= Seq::<Seq<char>>::empty());
        return r;
    }
    let ghost cs = strs(changed@);
    let mut k: usize = 0;
    while k < changed.len()
        invariant
            k <= changed@.len(),
            cs == strs(changed@),
            strs(r@) == js_upto(cs, k as int),
        decreases changed.len() - k,
    {
        assert(cs[k as int] == changed@[k as int]@);
        if is_js(changed[k].as_str()) {
            let ghost before = r@;
            let c = string_of(&chars_of(changed[k].as_str()));
            r.push(c);
            assert(strs(r@) =~= strs(before).push(c@));
        }
        k += 1;
    }
    r
}

/// The scripts to run in one package directory (`folder`, empty for the
/// repository root): the root package leaves out what the commit-time
/// declarations already answered for (`covered`), because that is where
/// the declared commands run; any other package runs its whole suite.
pub fn scripts_for(folder: &str, pkg_json: &str, covered: &[String]) -> (r: Vec<&'static str>)
    ensures
        r@.map_values(|s: &str| s@) == gate_upto(
            pkg_json@,
            if folder@.len() == 0 { strs(covered@) } else { Seq::<Seq<char>>::empty() },
            3,
        ),
{
    let mut already: Vec<&str> = Vec::new();
    if chars_of(folder).len() == 0 {
        let mut k: usize = 0;
        while k < covered.len()
            invariant
                k <= covered@.len(),
                already@.map_values(|a: &str| a@) == strs(covered@).take(k as int),
            decreases covered.len() - k,
        {
            let ghost before = already@;
            already.push(covered[k].as_str());
            proof {
                assert(already@.map_values(|a: &str| a@) =~= before.map_values(|a: &str| a@).push(covered@[k as int]@));
                assert(strs(covered@)[k as int] == covered@[k as int]@);
                assert(strs(covered@).take(k + 1) =~= strs(covered@).take(k as int).push(strs(covered@)[k as int]));
            }
            k += 1;
        }
        assert(strs(covered@).take(covered@.len() as int) =~= strs(covered@));
    } else {
        assert(already@.map_values(|a: &str| a@) =~= Seq::<Seq<char>>::empty());
    }
    gate_for(pkg_json, already.as_slice())
}

} // verus!
