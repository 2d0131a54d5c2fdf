use amont::check::Severity;
use amont::finding::Finding;
use amont::pushrefs::PushRef;
use amont::secrets::{
    added_secrets, carries_news, findings, is_scannable, looks_binary, pushed_refusal, scan, sniff, staged_refusal, Kind,
};

fn pem() -> String {
    format!("{}{} RSA {}{}", "-----", "BEGIN", "PRIVATE", " KEY-----")
}
fn aws() -> String {
    format!("{}{}{}", "AK", "IA", "IOSFODNN7EXAMPLE")
}
fn gh() -> String {
    format!("{}{}{}", "gh", "p_", "a".repeat(36))
}

#[test]
fn the_known_shapes_are_recognised() {
    assert_eq!(sniff(&pem()), Some(Kind::PrivateKey));
    assert_eq!(sniff(&format!("key = {}", aws())), Some(Kind::AwsAccessKeyId));
    assert_eq!(sniff(&format!("token: {}", gh())), Some(Kind::GithubToken));
    assert_eq!(
        sniff(&format!("SLACK={}{}", "xox", "b-1234567890-abc")),
        Some(Kind::SlackToken)
    );
    assert_eq!(
        sniff(&format!("{}{}", "AI", "za".to_owned() + &"D".repeat(35))),
        Some(Kind::GoogleApiKey)
    );
    assert_eq!(
        sniff(&format!("{}{}{}", "sk_", "live_", "a".repeat(24))),
        Some(Kind::StripeLiveKey)
    );
    assert_eq!(
        sniff(&format!("{}{}{}", "sk-", "ant-", "api03-".to_owned() + &"x".repeat(20))),
        Some(Kind::ApiKey)
    );
}

#[test]
fn lookalikes_are_left_alone() {
    assert_eq!(sniff("AKIAI is the prefix"), None);
    assert_eq!(sniff(&format!("X{}", aws())), None);
    assert_eq!(sniff("ghp_short"), None);
    assert_eq!(sniff("the sk-1234 identifier"), None);
    assert_eq!(sniff(&format!("{}{}{}", "sk_", "test_", "a".repeat(24))), None);
    assert_eq!(sniff("xoxb- alone"), None);
    assert_eq!(sniff(""), None);
}

#[test]
fn the_allow_pragma_skips_the_line() {
    let line = format!("{} // {}", aws(), "amont:allow-secret");
    assert_eq!(sniff(&line), None);
}

/// A source that assembles every shape, as the scanner's own does, holds
/// none contiguously and passes its own scan.
#[test]
fn the_scanner_does_not_flag_its_own_source() {
    let own = "const AWS: &str = concat!(\"AK\", \"IA\");\n\
               fn pem() -> String { format!(\"{}{} RSA\", \"-----\", \"BEGIN\") }\n\
               let gh = [\"gh\", \"p_\"].concat();\n\
               let slack = \"xox\".to_string() + \"b-\";\n";
    assert!(scan(own).is_empty(), "the scanner flagged: {:?}", scan(own));
}

#[test]
fn binary_content_is_skipped() {
    assert!(looks_binary(b"\x00PNG"));
    assert!(!looks_binary(b"just text"));
}

#[test]
fn scan_reports_each_line_once() {
    let text = format!("clean\n{}\nclean\n{}\n", pem(), aws());
    let hits = scan(&text);
    assert_eq!(hits.len(), 2);
    assert_eq!(hits[0], (2, Kind::PrivateKey));
    assert_eq!(hits[1], (4, Kind::AwsAccessKeyId));
}

#[test]
fn findings_name_the_kind_and_the_line() {
    let text = format!("a\n{}\n", aws());
    let f = findings("conf/\u{1b}keys.env", &text);
    assert_eq!(f.len(), 1);
    assert_eq!(f[0].check, "secrets");
    assert_eq!(f[0].line, Some(2));
    assert!(f[0].message.contains(Kind::AwsAccessKeyId.name()));
    assert!(!f[0].file.contains('\u{1b}'));
}

#[test]
fn only_text_within_the_ceiling_is_scanned() {
    assert!(is_scannable(b"hello"));
    assert!(!is_scannable(b"he\x00llo"));
    assert!(!is_scannable(&vec![b'a'; 2 * 1024 * 1024 + 1]));
}

#[test]
fn a_pushed_diff_reports_only_added_lines() {
    let diff = format!(
        "diff --git a/x b/x\n+++ b/x\n+{}\n-{}\n {}\n",
        aws(),
        gh(),
        pem()
    );
    let got = added_secrets(&diff);
    assert_eq!(got.len(), 1);
    assert_eq!(got[0].0, Kind::AwsAccessKeyId);
}

#[test]
fn refusals_name_where_and_what() {
    let f = Finding::new("secrets", "config/.env", Severity::Block, "a GitHub token");
    assert_eq!(staged_refusal(&f), "secrets: config/.env \u{2014} a GitHub token");
    assert_eq!(
        pushed_refusal(Kind::GithubToken, "0123456789abcdef0123", "src/\u{1b}[31mkeys.rs"),
        "secrets: a GitHub token added by commit 0123456789ab in src/?[31mkeys.rs \u{2014} this push would \
         publish it; rewrite the history first (the secret may already need rotating)"
    );
    assert!(pushed_refusal(Kind::ApiKey, "abc", "f").contains("added by commit abc in f"));
}

#[test]
fn only_refs_that_carry_new_content_are_scanned() {
    let zero = "0".repeat(40);
    let r = |local: &str, remote: &str| PushRef {
        local_ref: "refs/heads/main".into(),
        local_oid: local.into(),
        remote_ref: "refs/heads/main".into(),
        remote_oid: remote.into(),
    };
    assert!(!carries_news(&r(&zero, "abc"), &zero, false), "a deletion pushes no content");
    assert!(carries_news(&r("abc", &zero), &zero, true), "a new branch is scanned whole");
    assert!(!carries_news(&r("abc", "def"), &zero, true), "nothing new leaves");
    assert!(carries_news(&r("abc", "def"), &zero, false));
}
