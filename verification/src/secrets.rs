//! Secrets never leave the machine: literal token shapes — private key
//! headers, cloud access key ids, the well-known API token prefixes — found
//! line by line. A line carrying the pragma `amont:allow-secret` opts out.
//! Findings name the kind and the place, never the matched text.

use vstd::prelude::*;
use crate::text::{chars_of, str_contains, contains, occurs_at, matches_at, is_ascii_alnum, split_lines, lines_of, views, push_str, push_chars, string_of, starts_with, slice_of};
use crate::finding::spec_location;
use crate::ui::{spec_sanitize, sanitize};
use crate::pushrefs::PushRef;
use crate::check::Severity;
use crate::finding::Finding;

verus! {

/// What was found — the kind is all a report ever says about it.
#[derive(Debug, Clone, Copy, PartialEq, Eq, Structural)]
pub enum Kind {
    PrivateKey,
    AwsAccessKeyId,
    GithubToken,
    SlackToken,
    GoogleApiKey,
    StripeLiveKey,
    NpmToken,
    ApiKey,
}

pub open spec fn kind_text(k: Kind) -> Seq<char> {
    match k {
        Kind::PrivateKey => "a private key"@,
        Kind::AwsAccessKeyId => "an AWS access key id"@,
        Kind::GithubToken => "a GitHub token"@,
        Kind::SlackToken => "a Slack token"@,
        Kind::GoogleApiKey => "a Google API key"@,
        Kind::StripeLiveKey => "a Stripe live key"@,
        Kind::NpmToken => "an npm token"@,
        Kind::ApiKey => "an API key"@,
    }
}

impl Kind {
    pub fn name(self) -> (r: &'static str)
        ensures
            r@ == kind_text(self),
    {
        match self {
            Kind::PrivateKey => "a private key",
            Kind::AwsAccessKeyId => "an AWS access key id",
            Kind::GithubToken => "a GitHub token",
            Kind::SlackToken => "a Slack token",
            Kind::GoogleApiKey => "a Google API key",
            Kind::StripeLiveKey => "a Stripe live key",
            Kind::NpmToken => "an npm token",
            Kind::ApiKey => "an API key",
        }
    }
}

/// A character a token is made of: ASCII letters and digits, `_` and `-`.
pub open spec fn token_char(c: char) -> bool {
    is_ascii_alnum(c) || c == '_' || c == '-'
}

/// How many token characters run from `at` on.
pub open spec fn token_len(s: Seq<char>, at: int) -> nat
    decreases s.len() - at,
{
    if 0 <= at < s.len() && token_char(s[at]) {
        1 + token_len(s, at + 1)
    } else {
        0
    }
}

/// The character before `at` is not a token character, so the match does
/// not sit inside a longer word.
pub open spec fn boundary_before(s: Seq<char>, at: int) -> bool {
    at == 0 || !token_char(s[at - 1])
}

/// An ASCII capital letter or digit.
pub open spec fn upper_or_digit(c: char) -> bool {
    ('A' <= c <= 'Z') || ('0' <= c <= '9')
}

/// What must follow a prefix for it to be a credential.
#[derive(Clone, Copy, PartialEq, Eq, Structural)]
pub enum Shape {
    /// At least this many token characters.
    Tail(usize),
    /// Sixteen capital letters or digits, as an AWS key id has.
    AwsKey,
}

/// Does the occurrence of prefix `p` at `at` count, under `shape`?
pub open spec fn shape_hit(s: Seq<char>, p: Seq<char>, shape: Shape, at: int) -> bool {
    let after = at + p.len();
    &&& boundary_before(s, at)
    &&& match shape {
        Shape::Tail(min) => token_len(s, after) >= min,
        Shape::AwsKey => after + 16 <= s.len() && forall|k: int|
            after <= k < after + 16 ==> #[trigger] upper_or_digit(s[k]),
    }
}

/// The detector's walk: occurrences of `p` from `from` on, left to right; a
/// miss resumes the search just past it.
pub open spec fn shape_walk(s: Seq<char>, p: Seq<char>, shape: Shape, from: int) -> bool
    decreases s.len() - from,
{
    if p.len() == 0 || from < 0 || from + p.len() > s.len() {
        false
    } else if occurs_at(s, p, from) {
        shape_hit(s, p, shape, from) || shape_walk(s, p, shape, from + p.len())
    } else {
        shape_walk(s, p, shape, from + 1)
    }
}

fn is_token_char(c: char) -> (r: bool)
    ensures
        r == token_char(c),
{
    ('a' <= c && c <= 'z') || ('A' <= c && c <= 'Z') || ('0' <= c && c <= '9') || c == '_' || c
        == '-'
}

fn has_token_run(s: &Vec<char>, at: usize, min: usize) -> (r: bool)
    requires
        at <= s.len(),
    ensures
        r == (token_len(s@, at as int) >= min),
{
    let mut k = at;
    while k < s.len() && is_token_char(s[k])
        invariant
            at <= k <= s.len(),
            token_len(s@, at as int) == (k - at) + token_len(s@, k as int),
        decreases s.len() - k,
    {
        k += 1;
    }
    k - at >= min
}

fn shape_hit_exec(s: &Vec<char>, p: &Vec<char>, shape: Shape, at: usize) -> (r: bool)
    requires
        at + p.len() <= s.len(),
    ensures
        r == shape_hit(s@, p@, shape, at as int),
{
    let boundary = at == 0 || !is_token_char(s[at - 1]);
    if !boundary {
        return false;
    }
    let after = at + p.len();
    match shape {
        Shape::Tail(min) => has_token_run(s, after, min),
        Shape::AwsKey => {
            if s.len() - after < 16 {
                return false;
            }
            let mut k = after;
            while k < after + 16
                invariant
                    after <= k <= after + 16 <= s.len(),
                    after == at + p@.len(),
                    shape == Shape::AwsKey,
                    forall|m: int| after <= m < k ==> #[trigger] upper_or_digit(s@[m]),
                decreases after + 16 - k,
            {
                let c = s[k];
                if !(('A' <= c && c <= 'Z') || ('0' <= c && c <= '9')) {
                    assert(!upper_or_digit(s@[k as int]));
                    return false;
                }
                k += 1;
            }
            true
        },
    }
}

/// Exec form of [`shape_walk`] from the start of `s`.
fn shape_scan(s: &Vec<char>, p: &str, shape: Shape) -> (r: bool)
    requires
        p@.len() > 0,
    ensures
        r == shape_walk(s@, p@, shape, 0),
{
    let w = chars_of(p);
    let mut from: usize = 0;
    while from <= s.len() && w.len() <= s.len() - from
        invariant
            w@ == p@,
            w@.len() > 0,
            shape_walk(s@, w@, shape, from as int) == shape_walk(s@, w@, shape, 0),
        decreases s.len() - from,
    {
        if matches_at(s, &w, from) {
            if shape_hit_exec(s, &w, shape, from) {
                return true;
            }
            from = from + w.len();
        } else {
            from = from + 1;
        }
    }
    false
}

/// The pragma that opts a line out.
pub open spec fn allow_pragma() -> Seq<char> {
    "amont:allow-secret"@
}

/// The kind of secret a line carries, if any, checked in this order: the PEM
/// private-key header; AWS key ids (`AKIA`/`ASIA` and sixteen capitals or
/// digits); GitHub tokens (`ghp_`, `gho_`, `ghu_`, `ghs_`, `ghr_` and 36
/// more, `github_pat_` and 60 more); Slack (`xoxb-` and the like, 10 more);
/// Google (`AIza`, 30 more); Stripe live keys (`sk_live_`, `rk_live_`, 20
/// more); npm (`npm_`, 36 more); and vendored API keys (`sk-proj-`,
/// `sk-ant-`, 20 more). Each prefix must start a word.
pub open spec fn spec_sniff(s: Seq<char>) -> Option<Kind> {
    if contains(s, allow_pragma()) {
        None
    } else if contains(s, "-----BEGIN "@) && contains(s, "PRIVATE KEY-----"@) {
        Some(Kind::PrivateKey)
    } else if shape_walk(s, "AKIA"@, Shape::AwsKey, 0) || shape_walk(s, "ASIA"@, Shape::AwsKey, 0) {
        Some(Kind::AwsAccessKeyId)
    } else if shape_walk(s, "ghp_"@, Shape::Tail(36), 0) || shape_walk(s, "gho_"@, Shape::Tail(36), 0)
        || shape_walk(s, "ghu_"@, Shape::Tail(36), 0) || shape_walk(s, "ghs_"@, Shape::Tail(36), 0)
        || shape_walk(s, "ghr_"@, Shape::Tail(36), 0) || shape_walk(
        s,
        "github_pat_"@,
        Shape::Tail(60),
        0,
    ) {
        Some(Kind::GithubToken)
    } else if shape_walk(s, "xoxb-"@, Shape::Tail(10), 0) || shape_walk(s, "xoxp-"@, Shape::Tail(10), 0)
        || shape_walk(s, "xoxa-"@, Shape::Tail(10), 0) || shape_walk(s, "xoxr-"@, Shape::Tail(10), 0)
        || shape_walk(s, "xoxs-"@, Shape::Tail(10), 0) {
        Some(Kind::SlackToken)
    } else if shape_walk(s, "AIza"@, Shape::Tail(30), 0) {
        Some(Kind::GoogleApiKey)
    } else if shape_walk(s, "sk_live_"@, Shape::Tail(20), 0) || shape_walk(
        s,
        "rk_live_"@,
        Shape::Tail(20),
        0,
    ) {
        Some(Kind::StripeLiveKey)
    } else if shape_walk(s, "npm_"@, Shape::Tail(36), 0) {
        Some(Kind::NpmToken)
    } else if shape_walk(s, "sk-proj-"@, Shape::Tail(20), 0) || shape_walk(
        s,
        "sk-ant-"@,
        Shape::Tail(20),
        0,
    ) {
        Some(Kind::ApiKey)
    } else {
        None
    }
}

/// The walk only ever reports a prefix that occurs.
proof fn lemma_walk_needs_prefix(s: Seq<char>, p: Seq<char>, shape: Shape, from: int)
    requires
        !contains(s, p),
    ensures
        !shape_walk(s, p, shape, from),
    decreases s.len() - from,
{
    if !(p.len() == 0 || from < 0 || from + p.len() > s.len()) {
        assert(!occurs_at(s, p, from));
        lemma_walk_needs_prefix(s, p, shape, from + 1);
    }
}

/// A prefix made of token characters only.
pub open spec fn token_word(p: Seq<char>) -> bool {
    forall|i: int| 0 <= i < p.len() ==> #[trigger] token_char(p[i])
}

/// The walk finds every occurrence that counts: an earlier occurrence it
/// jumps over cannot overlap one that counts, whose start must follow a
/// non-token character.
proof fn lemma_walk_finds(s: Seq<char>, p: Seq<char>, shape: Shape, from: int, at: int)
    requires
        p.len() > 0,
        token_word(p),
        0 <= from <= at,
        occurs_at(s, p, at),
        shape_hit(s, p, shape, at),
    ensures
        shape_walk(s, p, shape, from),
    decreases at - from,
{
    if occurs_at(s, p, from) {
        if from < at {
            if at - from < p.len() {
                assert(s.subrange(from, from + p.len())[at - 1 - from] == s[at - 1]);
                assert(token_char(p[at - 1 - from]));
            }
            if !shape_hit(s, p, shape, from) {
                lemma_walk_finds(s, p, shape, from + p.len(), at);
            }
        }
    } else {
        lemma_walk_finds(s, p, shape, from + 1, at);
    }
}

/// `n` characters from `at` on that are each a letter, a digit, `_` or `-`
/// make a run at least `n` long.
proof fn lemma_token_run(s: Seq<char>, at: int, n: int)
    requires
        0 <= at,
        0 <= n,
        at + n <= s.len(),
        forall|i: int| at <= i < at + n ==> (('a' <= #[trigger] s[i] <= 'z') || ('A' <= s[i] <= 'Z') || ('0' <= s[i]
            <= '9') || s[i] == '_' || s[i] == '-'),
    ensures
        token_len(s, at) >= n,
    decreases n,
{
    if n > 0 {
        assert(('a' <= s[at] <= 'z') || ('A' <= s[at] <= 'Z') || ('0' <= s[at] <= '9') || s[at] == '_' || s[at] == '-');
        lemma_token_run(s, at + 1, n - 1);
    }
}

/// An npm token is reported as one: a line holding `npm_` at the start of
/// a word (no letter, digit, `_` or `-` just before it) followed by at least
/// 36 letters, digits, `_` or `-` is an npm token — unless the line opts out
/// with the pragma or carries one of the kinds checked before it (a
/// private-key header, or the prefix of an AWS, GitHub, Slack, Google or
/// Stripe credential).
pub proof fn an_npm_token_is_reported(s: Seq<char>, at: int)
    requires
        !contains(s, "amont:allow-secret"@),
        !(contains(s, "-----BEGIN "@) && contains(s, "PRIVATE KEY-----"@)),
        !contains(s, "AKIA"@),
        !contains(s, "ASIA"@),
        !contains(s, "ghp_"@),
        !contains(s, "gho_"@),
        !contains(s, "ghu_"@),
        !contains(s, "ghs_"@),
        !contains(s, "ghr_"@),
        !contains(s, "github_pat_"@),
        !contains(s, "xoxb-"@),
        !contains(s, "xoxp-"@),
        !contains(s, "xoxa-"@),
        !contains(s, "xoxr-"@),
        !contains(s, "xoxs-"@),
        !contains(s, "AIza"@),
        !contains(s, "sk_live_"@),
        !contains(s, "rk_live_"@),
        occurs_at(s, "npm_"@, at),
        at == 0 || !(('a' <= s[at - 1] <= 'z') || ('A' <= s[at - 1] <= 'Z') || ('0' <= s[at - 1] <= '9') || s[at - 1]
            == '_' || s[at - 1] == '-'),
        at + 4 + 36 <= s.len(),
        forall|i: int| at + 4 <= i < at + 40 ==> (('a' <= #[trigger] s[i] <= 'z') || ('A' <= s[i] <= 'Z') || ('0'
            <= s[i] <= '9') || s[i] == '_' || s[i] == '-'),
    ensures
        spec_sniff(s) == Some(Kind::NpmToken),
{
    reveal_strlit("amont:allow-secret");
    reveal_strlit("npm_");
    lemma_walk_needs_prefix(s, "AKIA"@, Shape::AwsKey, 0);
    lemma_walk_needs_prefix(s, "ASIA"@, Shape::AwsKey, 0);
    lemma_walk_needs_prefix(s, "ghp_"@, Shape::Tail(36), 0);
    lemma_walk_needs_prefix(s, "gho_"@, Shape::Tail(36), 0);
    lemma_walk_needs_prefix(s, "ghu_"@, Shape::Tail(36), 0);
    lemma_walk_needs_prefix(s, "ghs_"@, Shape::Tail(36), 0);
    lemma_walk_needs_prefix(s, "ghr_"@, Shape::Tail(36), 0);
    lemma_walk_needs_prefix(s, "github_pat_"@, Shape::Tail(60), 0);
    lemma_walk_needs_prefix(s, "xoxb-"@, Shape::Tail(10), 0);
    lemma_walk_needs_prefix(s, "xoxp-"@, Shape::Tail(10), 0);
    lemma_walk_needs_prefix(s, "xoxa-"@, Shape::Tail(10), 0);
    lemma_walk_needs_prefix(s, "xoxr-"@, Shape::Tail(10), 0);
    lemma_walk_needs_prefix(s, "xoxs-"@, Shape::Tail(10), 0);
    lemma_walk_needs_prefix(s, "AIza"@, Shape::Tail(30), 0);
    lemma_walk_needs_prefix(s, "sk_live_"@, Shape::Tail(20), 0);
    lemma_walk_needs_prefix(s, "rk_live_"@, Shape::Tail(20), 0);
    lemma_token_run(s, at + 4, 36);
    assert(token_word("npm_"@));
    assert(shape_hit(s, "npm_"@, Shape::Tail(36), at));
    lemma_walk_finds(s, "npm_"@, Shape::Tail(36), 0, at);
}

/// The token credentials, in the order a line is checked for them: the
/// prefix, how many letters, digits, `_` or `-` must follow it at least,
/// and the kind of secret it is.
pub open spec fn token_credentials() -> Seq<(Seq<char>, usize, Kind)> {
    seq![
        ("ghp_"@, 36usize, Kind::GithubToken),
        ("gho_"@, 36usize, Kind::GithubToken),
        ("ghu_"@, 36usize, Kind::GithubToken),
        ("ghs_"@, 36usize, Kind::GithubToken),
        ("ghr_"@, 36usize, Kind::GithubToken),
        ("github_pat_"@, 60usize, Kind::GithubToken),
        ("xoxb-"@, 10usize, Kind::SlackToken),
        ("xoxp-"@, 10usize, Kind::SlackToken),
        ("xoxa-"@, 10usize, Kind::SlackToken),
        ("xoxr-"@, 10usize, Kind::SlackToken),
        ("xoxs-"@, 10usize, Kind::SlackToken),
        ("AIza"@, 30usize, Kind::GoogleApiKey),
        ("sk_live_"@, 20usize, Kind::StripeLiveKey),
        ("rk_live_"@, 20usize, Kind::StripeLiveKey),
        ("npm_"@, 36usize, Kind::NpmToken),
        ("sk-proj-"@, 20usize, Kind::ApiKey),
        ("sk-ant-"@, 20usize, Kind::ApiKey)
    ]
}

/// `c` is a letter, a digit, `_` or `-`.
pub open spec fn token_class(c: char) -> bool {
    ('a' <= c <= 'z') || ('A' <= c <= 'Z') || ('0' <= c <= '9') || c == '_' || c == '-'
}

/// Every token credential is reported as its kind: a line holding one's
/// prefix at the start of a word, followed by at least as many letters,
/// digits, `_` or `-` as that credential has, is reported as that kind —
/// unless the line opts out with the pragma, or carries a private-key
/// header, an AWS key prefix or the prefix of a credential checked before.
pub proof fn each_token_credential_is_reported(s: Seq<char>, j: int, at: int)
    requires
        0 <= j < token_credentials().len(),
        !contains(s, "amont:allow-secret"@),
        !(contains(s, "-----BEGIN "@) && contains(s, "PRIVATE KEY-----"@)),
        !contains(s, "AKIA"@),
        !contains(s, "ASIA"@),
        forall|i: int| 0 <= i < j ==> !contains(s, #[trigger] token_credentials()[i].0),
        occurs_at(s, token_credentials()[j].0, at),
        at == 0 || !token_class(s[at - 1]),
        at + token_credentials()[j].0.len() + token_credentials()[j].1 <= s.len(),
        forall|i: int| at + token_credentials()[j].0.len() <= i < at + token_credentials()[j].0.len() + token_credentials()[j].1
            ==> token_class(#[trigger] s[i]),
    ensures
        spec_sniff(s) == Some(token_credentials()[j].2),
{
    reveal_strlit("amont:allow-secret");
    reveal_strlit("ghp_");
    reveal_strlit("gho_");
    reveal_strlit("ghu_");
    reveal_strlit("ghs_");
    reveal_strlit("ghr_");
    reveal_strlit("github_pat_");
    reveal_strlit("xoxb-");
    reveal_strlit("xoxp-");
    reveal_strlit("xoxa-");
    reveal_strlit("xoxr-");
    reveal_strlit("xoxs-");
    reveal_strlit("AIza");
    reveal_strlit("sk_live_");
    reveal_strlit("rk_live_");
    reveal_strlit("npm_");
    reveal_strlit("sk-proj-");
    reveal_strlit("sk-ant-");
    lemma_walk_needs_prefix(s, "AKIA"@, Shape::AwsKey, 0);
    lemma_walk_needs_prefix(s, "ASIA"@, Shape::AwsKey, 0);
    if 0 < j {
        assert(token_credentials()[0] == ("ghp_"@, 36usize, Kind::GithubToken));
        assert(!contains(s, token_credentials()[0].0));
        lemma_walk_needs_prefix(s, "ghp_"@, Shape::Tail(36), 0);
    }
    if 1 < j {
        assert(token_credentials()[1] == ("gho_"@, 36usize, Kind::GithubToken));
        assert(!contains(s, token_credentials()[1].0));
        lemma_walk_needs_prefix(s, "gho_"@, Shape::Tail(36), 0);
    }
    if 2 < j {
        assert(token_credentials()[2] == ("ghu_"@, 36usize, Kind::GithubToken));
        assert(!contains(s, token_credentials()[2].0));
        lemma_walk_needs_prefix(s, "ghu_"@, Shape::Tail(36), 0);
    }
    if 3 < j {
        assert(token_credentials()[3] == ("ghs_"@, 36usize, Kind::GithubToken));
        assert(!contains(s, token_credentials()[3].0));
        lemma_walk_needs_prefix(s, "ghs_"@, Shape::Tail(36), 0);
    }
    if 4 < j {
        assert(token_credentials()[4] == ("ghr_"@, 36usize, Kind::GithubToken));
        assert(!contains(s, token_credentials()[4].0));
        lemma_walk_needs_prefix(s, "ghr_"@, Shape::Tail(36), 0);
    }
    if 5 < j {
        assert(token_credentials()[5] == ("github_pat_"@, 60usize, Kind::GithubToken));
        assert(!contains(s, token_credentials()[5].0));
        lemma_walk_needs_prefix(s, "github_pat_"@, Shape::Tail(60), 0);
    }
    if 6 < j {
        assert(token_credentials()[6] == ("xoxb-"@, 10usize, Kind::SlackToken));
        assert(!contains(s, token_credentials()[6].0));
        lemma_walk_needs_prefix(s, "xoxb-"@, Shape::Tail(10), 0);
    }
    if 7 < j {
        assert(token_credentials()[7] == ("xoxp-"@, 10usize, Kind::SlackToken));
        assert(!contains(s, token_credentials()[7].0));
        lemma_walk_needs_prefix(s, "xoxp-"@, Shape::Tail(10), 0);
    }
    if 8 < j {
        assert(token_credentials()[8] == ("xoxa-"@, 10usize, Kind::SlackToken));
        assert(!contains(s, token_credentials()[8].0));
        lemma_walk_needs_prefix(s, "xoxa-"@, Shape::Tail(10), 0);
    }
    if 9 < j {
        assert(token_credentials()[9] == ("xoxr-"@, 10usize, Kind::SlackToken));
        assert(!contains(s, token_credentials()[9].0));
        lemma_walk_needs_prefix(s, "xoxr-"@, Shape::Tail(10), 0);
    }
    if 10 < j {
        assert(token_credentials()[10] == ("xoxs-"@, 10usize, Kind::SlackToken));
        assert(!contains(s, token_credentials()[10].0));
        lemma_walk_needs_prefix(s, "xoxs-"@, Shape::Tail(10), 0);
    }
    if 11 < j {
        assert(token_credentials()[11] == ("AIza"@, 30usize, Kind::GoogleApiKey));
        assert(!contains(s, token_credentials()[11].0));
        lemma_walk_needs_prefix(s, "AIza"@, Shape::Tail(30), 0);
    }
    if 12 < j {
        assert(token_credentials()[12] == ("sk_live_"@, 20usize, Kind::StripeLiveKey));
        assert(!contains(s, token_credentials()[12].0));
        lemma_walk_needs_prefix(s, "sk_live_"@, Shape::Tail(20), 0);
    }
    if 13 < j {
        assert(token_credentials()[13] == ("rk_live_"@, 20usize, Kind::StripeLiveKey));
        assert(!contains(s, token_credentials()[13].0));
        lemma_walk_needs_prefix(s, "rk_live_"@, Shape::Tail(20), 0);
    }
    if 14 < j {
        assert(token_credentials()[14] == ("npm_"@, 36usize, Kind::NpmToken));
        assert(!contains(s, token_credentials()[14].0));
        lemma_walk_needs_prefix(s, "npm_"@, Shape::Tail(36), 0);
    }
    if 15 < j {
        assert(token_credentials()[15] == ("sk-proj-"@, 20usize, Kind::ApiKey));
        assert(!contains(s, token_credentials()[15].0));
        lemma_walk_needs_prefix(s, "sk-proj-"@, Shape::Tail(20), 0);
    }
    if 16 < j {
        assert(token_credentials()[16] == ("sk-ant-"@, 20usize, Kind::ApiKey));
        assert(!contains(s, token_credentials()[16].0));
        lemma_walk_needs_prefix(s, "sk-ant-"@, Shape::Tail(20), 0);
    }
    if j == 0 {
        assert(token_credentials()[0] == ("ghp_"@, 36usize, Kind::GithubToken));
        assert(token_word("ghp_"@));
        lemma_token_run(s, at + 4, 36);
        assert(shape_hit(s, "ghp_"@, Shape::Tail(36), at));
        lemma_walk_finds(s, "ghp_"@, Shape::Tail(36), 0, at);
    } else if j == 1 {
        assert(token_credentials()[1] == ("gho_"@, 36usize, Kind::GithubToken));
        assert(token_word("gho_"@));
        lemma_token_run(s, at + 4, 36);
        assert(shape_hit(s, "gho_"@, Shape::Tail(36), at));
        lemma_walk_finds(s, "gho_"@, Shape::Tail(36), 0, at);
    } else if j == 2 {
        assert(token_credentials()[2] == ("ghu_"@, 36usize, Kind::GithubToken));
        assert(token_word("ghu_"@));
        lemma_token_run(s, at + 4, 36);
        assert(shape_hit(s, "ghu_"@, Shape::Tail(36), at));
        lemma_walk_finds(s, "ghu_"@, Shape::Tail(36), 0, at);
    } else if j == 3 {
        assert(token_credentials()[3] == ("ghs_"@, 36usize, Kind::GithubToken));
        assert(token_word("ghs_"@));
        lemma_token_run(s, at + 4, 36);
        assert(shape_hit(s, "ghs_"@, Shape::Tail(36), at));
        lemma_walk_finds(s, "ghs_"@, Shape::Tail(36), 0, at);
    } else if j == 4 {
        assert(token_credentials()[4] == ("ghr_"@, 36usize, Kind::GithubToken));
        assert(token_word("ghr_"@));
        lemma_token_run(s, at + 4, 36);
        assert(shape_hit(s, "ghr_"@, Shape::Tail(36), at));
        lemma_walk_finds(s, "ghr_"@, Shape::Tail(36), 0, at);
    } else if j == 5 {
        assert(token_credentials()[5] == ("github_pat_"@, 60usize, Kind::GithubToken));
        assert(token_word("github_pat_"@));
        lemma_token_run(s, at + 11, 60);
        assert(shape_hit(s, "github_pat_"@, Shape::Tail(60), at));
        lemma_walk_finds(s, "github_pat_"@, Shape::Tail(60), 0, at);
    } else if j == 6 {
        assert(token_credentials()[6] == ("xoxb-"@, 10usize, Kind::SlackToken));
        assert(token_word("xoxb-"@));
        lemma_token_run(s, at + 5, 10);
        assert(shape_hit(s, "xoxb-"@, Shape::Tail(10), at));
        lemma_walk_finds(s, "xoxb-"@, Shape::Tail(10), 0, at);
    } else if j == 7 {
        assert(token_credentials()[7] == ("xoxp-"@, 10usize, Kind::SlackToken));
        assert(token_word("xoxp-"@));
        lemma_token_run(s, at + 5, 10);
        assert(shape_hit(s, "xoxp-"@, Shape::Tail(10), at));
        lemma_walk_finds(s, "xoxp-"@, Shape::Tail(10), 0, at);
    } else if j == 8 {
        assert(token_credentials()[8] == ("xoxa-"@, 10usize, Kind::SlackToken));
        assert(token_word("xoxa-"@));
        lemma_token_run(s, at + 5, 10);
        assert(shape_hit(s, "xoxa-"@, Shape::Tail(10), at));
        lemma_walk_finds(s, "xoxa-"@, Shape::Tail(10), 0, at);
    } else if j == 9 {
        assert(token_credentials()[9] == ("xoxr-"@, 10usize, Kind::SlackToken));
        assert(token_word("xoxr-"@));
        lemma_token_run(s, at + 5, 10);
        assert(shape_hit(s, "xoxr-"@, Shape::Tail(10), at));
        lemma_walk_finds(s, "xoxr-"@, Shape::Tail(10), 0, at);
    } else if j == 10 {
        assert(token_credentials()[10] == ("xoxs-"@, 10usize, Kind::SlackToken));
        assert(token_word("xoxs-"@));
        lemma_token_run(s, at + 5, 10);
        assert(shape_hit(s, "xoxs-"@, Shape::Tail(10), at));
        lemma_walk_finds(s, "xoxs-"@, Shape::Tail(10), 0, at);
    } else if j == 11 {
        assert(token_credentials()[11] == ("AIza"@, 30usize, Kind::GoogleApiKey));
        assert(token_word("AIza"@));
        lemma_token_run(s, at + 4, 30);
        assert(shape_hit(s, "AIza"@, Shape::Tail(30), at));
        lemma_walk_finds(s, "AIza"@, Shape::Tail(30), 0, at);
    } else if j == 12 {
        assert(token_credentials()[12] == ("sk_live_"@, 20usize, Kind::StripeLiveKey));
        assert(token_word("sk_live_"@));
        lemma_token_run(s, at + 8, 20);
        assert(shape_hit(s, "sk_live_"@, Shape::Tail(20), at));
        lemma_walk_finds(s, "sk_live_"@, Shape::Tail(20), 0, at);
    } else if j == 13 {
        assert(token_credentials()[13] == ("rk_live_"@, 20usize, Kind::StripeLiveKey));
        assert(token_word("rk_live_"@));
        lemma_token_run(s, at + 8, 20);
        assert(shape_hit(s, "rk_live_"@, Shape::Tail(20), at));
        lemma_walk_finds(s, "rk_live_"@, Shape::Tail(20), 0, at);
    } else if j == 14 {
        assert(token_credentials()[14] == ("npm_"@, 36usize, Kind::NpmToken));
        assert(token_word("npm_"@));
        lemma_token_run(s, at + 4, 36);
        assert(shape_hit(s, "npm_"@, Shape::Tail(36), at));
        lemma_walk_finds(s, "npm_"@, Shape::Tail(36), 0, at);
    } else if j == 15 {
        assert(token_credentials()[15] == ("sk-proj-"@, 20usize, Kind::ApiKey));
        assert(token_word("sk-proj-"@));
        lemma_token_run(s, at + 8, 20);
        assert(shape_hit(s, "sk-proj-"@, Shape::Tail(20), at));
        lemma_walk_finds(s, "sk-proj-"@, Shape::Tail(20), 0, at);
    } else if j == 16 {
        assert(token_credentials()[16] == ("sk-ant-"@, 20usize, Kind::ApiKey));
        assert(token_word("sk-ant-"@));
        lemma_token_run(s, at + 7, 20);
        assert(shape_hit(s, "sk-ant-"@, Shape::Tail(20), at));
        lemma_walk_finds(s, "sk-ant-"@, Shape::Tail(20), 0, at);
    }
}

/// An AWS access key id is reported as one: `AKIA` or `ASIA` at the start
/// of a word followed by sixteen capital letters or digits, on a line
/// without the pragma or a private-key header.
pub proof fn an_aws_key_id_is_reported(s: Seq<char>, p: Seq<char>, at: int)
    requires
        p == "AKIA"@ || p == "ASIA"@,
        !contains(s, "amont:allow-secret"@),
        !(contains(s, "-----BEGIN "@) && contains(s, "PRIVATE KEY-----"@)),
        occurs_at(s, p, at),
        at == 0 || !token_class(s[at - 1]),
        at + 4 + 16 <= s.len(),
        forall|i: int| at + 4 <= i < at + 20 ==> ('A' <= #[trigger] s[i] <= 'Z') || ('0' <= s[i] <= '9'),
    ensures
        spec_sniff(s) == Some(Kind::AwsAccessKeyId),
{
    reveal_strlit("amont:allow-secret");
    reveal_strlit("AKIA");
    reveal_strlit("ASIA");
    assert(token_word(p));
    assert(shape_hit(s, p, Shape::AwsKey, at));
    lemma_walk_finds(s, p, Shape::AwsKey, 0, at);
}

/// A private-key header is reported, and the pragma silences any line.
pub proof fn a_private_key_is_reported_and_the_pragma_silences(s: Seq<char>)
    ensures
        contains(s, "amont:allow-secret"@) ==> spec_sniff(s) is None,
        !contains(s, "amont:allow-secret"@) && contains(s, "-----BEGIN "@) && contains(s, "PRIVATE KEY-----"@)
            ==> spec_sniff(s) == Some(Kind::PrivateKey),
{
    reveal_strlit("amont:allow-secret");
}

fn sniff_chars(s: &Vec<char>) -> (r: Option<Kind>)
    ensures
        r == spec_sniff(s@),
{
    proof {
        reveal_strlit("amont:allow-secret");
        reveal_strlit("-----BEGIN ");
        reveal_strlit("PRIVATE KEY-----");
        reveal_strlit("AKIA");
        reveal_strlit("ASIA");
        reveal_strlit("ghp_");
        reveal_strlit("gho_");
        reveal_strlit("ghu_");
        reveal_strlit("ghs_");
        reveal_strlit("ghr_");
        reveal_strlit("github_pat_");
        reveal_strlit("xoxb-");
        reveal_strlit("xoxp-");
        reveal_strlit("xoxa-");
        reveal_strlit("xoxr-");
        reveal_strlit("xoxs-");
        reveal_strlit("AIza");
        reveal_strlit("sk_live_");
        reveal_strlit("rk_live_");
        reveal_strlit("npm_");
        reveal_strlit("sk-proj-");
        reveal_strlit("sk-ant-");
    }
    if crate::text::contains_seq(s, &chars_of("amont:allow-secret")) {
        return None;
    }
    let begin = crate::text::contains_seq(s, &chars_of("-----BEGIN "));
    let tail = crate::text::contains_seq(s, &chars_of("PRIVATE KEY-----"));
    if begin && tail {
        return Some(Kind::PrivateKey);
    }
    if shape_scan(s, "AKIA", Shape::AwsKey) || shape_scan(s, "ASIA", Shape::AwsKey) {
        return Some(Kind::AwsAccessKeyId);
    }
    if shape_scan(s, "ghp_", Shape::Tail(36)) || shape_scan(s, "gho_", Shape::Tail(36))
        || shape_scan(s, "ghu_", Shape::Tail(36)) || shape_scan(s, "ghs_", Shape::Tail(36))
        || shape_scan(s, "ghr_", Shape::Tail(36)) || shape_scan(s, "github_pat_", Shape::Tail(60)) {
        return Some(Kind::GithubToken);
    }
    if shape_scan(s, "xoxb-", Shape::Tail(10)) || shape_scan(s, "xoxp-", Shape::Tail(10))
        || shape_scan(s, "xoxa-", Shape::Tail(10)) || shape_scan(s, "xoxr-", Shape::Tail(10))
        || shape_scan(s, "xoxs-", Shape::Tail(10)) {
        return Some(Kind::SlackToken);
    }
    if shape_scan(s, "AIza", Shape::Tail(30)) {
        return Some(Kind::GoogleApiKey);
    }
    if shape_scan(s, "sk_live_", Shape::Tail(20)) || shape_scan(s, "rk_live_", Shape::Tail(20)) {
        return Some(Kind::StripeLiveKey);
    }
    if shape_scan(s, "npm_", Shape::Tail(36)) {
        return Some(Kind::NpmToken);
    }
    if shape_scan(s, "sk-proj-", Shape::Tail(20)) || shape_scan(s, "sk-ant-", Shape::Tail(20)) {
        return Some(Kind::ApiKey);
    }
    None
}

/// What this line carries, if anything.
pub fn sniff(line: &str) -> (r: Option<Kind>)
    ensures
        r == spec_sniff(line@),
{
    sniff_chars(&chars_of(line))
}

/// git's own binary heuristic: a NUL in the first 8000 bytes.
pub open spec fn spec_looks_binary(bytes: Seq<u8>) -> bool {
    exists|k: int| 0 <= k < bytes.len() && k < 8000 && bytes[k] == 0
}

pub fn looks_binary(bytes: &[u8]) -> (r: bool)
    ensures
        r == spec_looks_binary(bytes@),
{
    let mut k: usize = 0;
    while k < bytes.len() && k < 8000
        invariant
            k <= bytes.len(),
            k <= 8000,
            forall|m: int| 0 <= m < k ==> bytes@[m] != 0,
        decreases bytes.len() - k,
    {
        if bytes[k] == 0 {
            return true;
        }
        k += 1;
    }
    false
}

/// The per-file ceiling: two megabytes.
pub const MAX_BYTES: usize = 2097152;

/// Worth reading as text at all: not binary, and within the ceiling.
pub fn is_scannable(bytes: &[u8]) -> (r: bool)
    ensures
        r == (!spec_looks_binary(bytes@) && bytes@.len() <= MAX_BYTES),
{
    !looks_binary(bytes) && bytes.len() <= MAX_BYTES
}

/// The secrets among the first `k` lines, as 1-based line number and kind.
pub open spec fn hits_upto(ls: Seq<Seq<char>>, k: int) -> Seq<(int, Kind)>
    decreases k,
{
    if k <= 0 {
        seq![]
    } else {
        let prev = hits_upto(ls, k - 1);
        match spec_sniff(ls[k - 1]) {
            Some(kind) => prev.push((k, kind)),
            None => prev,
        }
    }
}

/// Every secret in a text, line by line.
pub open spec fn spec_scan(text: Seq<char>) -> Seq<(int, Kind)> {
    hits_upto(lines_of(text), lines_of(text).len() as int)
}

pub open spec fn hit_view(h: (usize, Kind)) -> (int, Kind) {
    (h.0 as int, h.1)
}

/// Scan one text, collecting `(line number, kind)` for each line that
/// carries a secret.
pub fn scan(text: &str) -> (r: Vec<(usize, Kind)>)
    ensures
        r@.map_values(|h: (usize, Kind)| hit_view(h)) == spec_scan(text@),
{
    let ls = split_lines(&chars_of(text));
    let mut out: Vec<(usize, Kind)> = Vec::new();
    let mut k: usize = 0;
    while k < ls.len()
        invariant
            k <= ls.len(),
            views(ls@) == lines_of(text@),
            out@.map_values(|h: (usize, Kind)| hit_view(h)) == hits_upto(views(ls@), k as int),
        decreases ls.len() - k,
    {
        let ghost before = out@.map_values(|h: (usize, Kind)| hit_view(h));
        assert(views(ls@)[k as int] == ls@[k as int]@);
        match sniff_chars(&ls[k]) {
            Some(kind) => {
                out.push((k + 1, kind));
                assert(out@.map_values(|h: (usize, Kind)| hit_view(h)) =~= before.push(
                    (k + 1, kind),
                ));
            },
            None => {},
        }
        k += 1;
    }
    out
}

/// The check's own short name, and the `check` field of every finding.
pub const NAME: &'static str = "secrets";

/// What a finding about a secret of kind `k` says.
pub open spec fn finding_message(k: Kind) -> Seq<char> {
    kind_text(k) + " — unstage it; once pushed it is not history, it is an incident"@
}

/// Findings for one file's text, one per line that carries a secret: a
/// blocking finding at that line, naming the kind and never the text.
pub fn findings(file: &str, text: &str) -> (r: Vec<Finding>)
    ensures
        r@.len() == spec_scan(text@).len(),
        forall|k: int|
            0 <= k < r@.len() ==> {
                let f = #[trigger] r@[k];
                &&& f.check@ == NAME@
                &&& f.file@ == crate::ui::spec_sanitize(file@)
                &&& f.line == Some(spec_scan(text@)[k].0 as usize)
                &&& f.column is None
                &&& f.severity == Severity::Block
                &&& f.message@ == finding_message(spec_scan(text@)[k].1)
            },
{
    let hits = scan(text);
    let shown = crate::ui::sanitize(file);
    let mut out: Vec<Finding> = Vec::new();
    let mut k: usize = 0;
    while k < hits.len()
        invariant
            k <= hits.len(),
            hits@.map_values(|h: (usize, Kind)| hit_view(h)) == spec_scan(text@),
            shown@ == crate::ui::spec_sanitize(file@),
            out@.len() == k,
            forall|m: int|
                0 <= m < k ==> {
                    let f = #[trigger] out@[m];
                    &&& f.check@ == NAME@
                    &&& f.file@ == crate::ui::spec_sanitize(file@)
                    &&& f.line == Some(spec_scan(text@)[m].0 as usize)
                    &&& f.column is None
                    &&& f.severity == Severity::Block
                    &&& f.message@ == finding_message(spec_scan(text@)[m].1)
                },
        decreases hits.len() - k,
    {
        let (line, kind) = hits[k];
        assert(hit_view(hits@[k as int]) == spec_scan(text@)[k as int]);
        let mut msg: Vec<char> = Vec::new();
        push_str(&mut msg, kind.name());
        push_str(&mut msg, " — unstage it; once pushed it is not history, it is an incident");
        let message = string_of(&msg);
        let f = Finding::new(NAME, shown.as_str(), Severity::Block, message.as_str()).at_line(line);
        out.push(f);
        k += 1;
    }
    out
}


/// The file a `git show` diff is in after its first `k` lines: the last
/// `+++ b/<file>` header, or `?` before any.
pub open spec fn diff_file(ls: Seq<Seq<char>>, k: int) -> Seq<char>
    decreases k,
{
    if k <= 0 {
        "?"@
    } else if starts_with(ls[k - 1], "+++ b/"@) {
        ls[k - 1].skip(6)
    } else {
        diff_file(ls, k - 1)
    }
}

/// The secrets the added lines among the first `k` lines of a diff carry,
/// with the file each is in. A `+++ b/` header is not an added line.
pub open spec fn diff_hits_upto(ls: Seq<Seq<char>>, k: int) -> Seq<(Kind, Seq<char>)>
    decreases k,
{
    if k <= 0 {
        seq![]
    } else {
        let prev = diff_hits_upto(ls, k - 1);
        let l = ls[k - 1];
        if !starts_with(l, "+++ b/"@) && l.len() > 0 && l[0] == '+' {
            match spec_sniff(l.skip(1)) {
                Some(kind) => prev.push((kind, diff_file(ls, k - 1))),
                None => prev,
            }
        } else {
            prev
        }
    }
}

pub open spec fn diff_hit_view(h: (Kind, String)) -> (Kind, Seq<char>) {
    (h.0, h.1@)
}

/// The secrets a commit's diff (`git show --format=`) adds, each with the
/// file it lands in — what a push would publish.
pub fn added_secrets(diff: &str) -> (r: Vec<(Kind, String)>)
    ensures
        r@.map_values(|h: (Kind, String)| diff_hit_view(h)) == diff_hits_upto(
            lines_of(diff@),
            lines_of(diff@).len() as int,
        ),
{
    proof {
        reveal_strlit("+++ b/");
        reveal_strlit("?");
    }
    let ls = split_lines(&chars_of(diff));
    let header = chars_of("+++ b/");
    let mut file: Vec<char> = chars_of("?");
    let mut out: Vec<(Kind, String)> = Vec::new();
    let mut k: usize = 0;
    while k < ls.len()
        invariant
            k <= ls.len(),
            header@ == "+++ b/"@,
            header@.len() == 6,
            views(ls@) == lines_of(diff@),
            file@ == diff_file(views(ls@), k as int),
            out@.map_values(|h: (Kind, String)| diff_hit_view(h)) == diff_hits_upto(
                views(ls@),
                k as int,
            ),
        decreases ls.len() - k,
    {
        let ghost before = out@.map_values(|h: (Kind, String)| diff_hit_view(h));
        let l = &ls[k];
        assert(views(ls@)[k as int] == l@);
        let is_header = l.len() >= 6 && matches_at(l, &header, 0);
        assert(is_header == starts_with(l@, "+++ b/"@));
        if is_header {
            file = crate::text::slice_of(l, 6, l.len());
            assert(file@ =~= l@.skip(6));
        } else if l.len() > 0 && l[0] == '+' {
            let rest = crate::text::slice_of(l, 1, l.len());
            assert(rest@ =~= l@.skip(1));
            match sniff_chars(&rest) {
                Some(kind) => {
                    out.push((kind, string_of(&file)));
                    assert(out@.map_values(|h: (Kind, String)| diff_hit_view(h)) =~= before.push(
                        (kind, file@),
                    ));
                },
                None => {},
            }
        }
        k += 1;
    }
    out
}

/// How a staged secret is refused: where, and what.
pub open spec fn spec_staged_refusal(location: Seq<char>, message: Seq<char>) -> Seq<char> {
    "secrets: "@ + location + " \u{2014} "@ + message
}

pub fn staged_refusal(f: &Finding) -> (r: String)
    ensures
        r@ == spec_staged_refusal(spec_location(f.file@, f.line, f.column), f.message@),
{
    let mut out = chars_of("secrets: ");
    push_str(&mut out, f.location().as_str());
    push_str(&mut out, " \u{2014} ");
    push_str(&mut out, f.message.as_str());
    string_of(&out)
}

/// A commit id shortened for a message: at most its first twelve characters.
pub open spec fn short_commit(commit: Seq<char>) -> Seq<char> {
    if commit.len() <= 12 { commit } else { commit.take(12) }
}

/// How a secret a push would publish is refused: what, in which commit and
/// which file, and what to do.
pub open spec fn spec_pushed_refusal(kind: Kind, commit: Seq<char>, file: Seq<char>) -> Seq<char> {
    "secrets: "@ + kind_text(kind) + " added by commit "@ + short_commit(commit) + " in "@ + spec_sanitize(file)
        + " \u{2014} this push would publish it; rewrite the history first (the secret may already need rotating)"@
}

pub fn pushed_refusal(kind: Kind, commit: &str, file: &str) -> (r: String)
    ensures
        r@ == spec_pushed_refusal(kind, commit@, file@),
{
    let c = chars_of(commit);
    let short = if c.len() <= 12 { slice_of(&c, 0, c.len()) } else { slice_of(&c, 0, 12) };
    assert(c.len() <= 12 ==> short@ =~= c@);
    let mut out = chars_of("secrets: ");
    push_str(&mut out, kind.name());
    push_str(&mut out, " added by commit ");
    push_chars(&mut out, &short);
    push_str(&mut out, " in ");
    push_str(&mut out, sanitize(file).as_str());
    push_str(&mut out, " \u{2014} this push would publish it; rewrite the history first (the secret may already need rotating)");
    string_of(&out)
}

/// Whether a pushed ref can carry new content to scan: not a deletion, and
/// not a ref the remote already has at a tip this push adds nothing to.
pub open spec fn spec_carries_news(r: PushRef, zero: Seq<char>, no_new_commits: bool) -> bool {
    r.local_oid@ != zero && !(no_new_commits && r.remote_oid@ != zero)
}

pub fn carries_news(r: &PushRef, zero: &str, no_new_commits: bool) -> (b: bool)
    ensures
        b == spec_carries_news(*r, zero@, no_new_commits),
{
    let z = chars_of(zero);
    let local = chars_of(r.local_oid.as_str());
    let remote = chars_of(r.remote_oid.as_str());
    !crate::text::vec_eq(&local, &z) && !(no_new_commits && !crate::text::vec_eq(&remote, &z))
}

} // verus!
