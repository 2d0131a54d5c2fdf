use amont::bypass;
use amont::check::Stage;
use amont::downgrade;
use amont::listing::{bypasses_json, bypasses_text, downgrades_json, downgrades_text, ListOptions};

const DOWNGRADES: &str = "amont-downgrade-v1\n\
                          100 abcdef0 pre-commit-ban-terms config\n\
                          200 abcdef0 pre-commit-ban-terms config\n\
                          150 bbbbbbb pre-commit-agents-md declared\n";

const NOW: u64 = 7400;

#[test]
fn the_downgrade_ledger_serialises_field_for_field() {
    let l = downgrade::parse(DOWNGRADES);
    assert_eq!(
        downgrades_json(&l),
        "{\"total\":3,\"would_block\":2,\"commits\":2,\"first\":100,\"last\":200,\"by_check\":[\
         {\"check\":\"pre-commit-ban-terms\",\"count\":2,\"would_block\":2,\"last\":200},\
         {\"check\":\"pre-commit-agents-md\",\"count\":1,\"would_block\":0,\"last\":150}]}"
    );
    assert_eq!(
        downgrades_json(&downgrade::Ledger::default()),
        "{\"total\":0,\"would_block\":0,\"commits\":0,\"first\":null,\"last\":null,\"by_check\":[]}"
    );
}

#[test]
fn the_downgrade_report_counts_events_and_commits_apart() {
    let l = downgrade::parse(DOWNGRADES);
    assert_eq!(
        downgrades_text(&l, NOW),
        "\nproblems that did not block\n\
         \x20 pre-commit-ban-terms    2   last 2h ago\n\
         \x20 pre-commit-agents-md    1   last 2h ago  (advisory)\n\
         \x20 3 events over 2 commits, since 2h ago\n\
         \x20 2 of them would have blocked \u{2014} set amont.severity.<check> to keep one advisory when you go back to block\n"
    );
}

#[test]
fn a_repository_that_never_warned_prints_nothing() {
    assert_eq!(downgrades_text(&downgrade::Ledger::default(), NOW), "");
    assert_eq!(bypasses_text(&bypass::Ledger::default(), NOW), "");
}

#[test]
fn one_event_on_one_commit_is_singular() {
    let l = downgrade::parse("amont-downgrade-v1\n7400 abcdef0 x declared\n");
    assert_eq!(
        downgrades_text(&l, NOW),
        "\nproblems that did not block\n  x    1   last just now  (advisory)\n  1 event over 1 commit, since just now\n"
    );
}

#[test]
fn the_bypass_ledger_serialises_and_reads_aloud() {
    let l = bypass::parse("amont-bypass-v1\n100 abcdef0 typecheck\n3400 abcdef0 test\n3500 bbbbbbb typecheck\n");
    assert_eq!(
        bypasses_json(&l),
        "{\"total\":3,\"last\":3500,\"by_script\":[{\"script\":\"typecheck\",\"count\":2,\"last\":3500},\
         {\"script\":\"test\",\"count\":1,\"last\":3400}]}"
    );
    assert_eq!(
        bypasses_text(&l, NOW),
        "\nunverified commits\n\
         \x20 typecheck    2   last 1h ago\n\
         \x20 test         1   last 1h ago\n\
         \x20 these commits carry no record that their commit-time gate ran \u{2014} the push gate ran it instead\n"
    );
}

#[test]
fn list_options_carry_what_was_asked() {
    let o = ListOptions { json: true, stage: Some(Stage::PrePush), pushed: false, all: true };
    assert_eq!(o.stage.map(|s| s.as_str()), Some("pre-push"));
    assert_eq!(Stage::PreCommit.as_str(), "pre-commit");
}
