use amont::audit::{
    conclude, go, js, python, read_cargo_audit, read_govulncheck, read_npm_audit, read_pip_audit,
    releasing, rust, Report,
};
use amont::check::Outcome;
use amont::pushrefs::PushRef;

fn tag(name: &str) -> PushRef {
    PushRef {
        local_ref: name.to_string(),
        local_oid: "a".repeat(40),
        remote_ref: name.to_string(),
        remote_oid: "0".repeat(40),
    }
}

#[test]
fn a_release_is_a_v_number_tag() {
    assert!(releasing(&[tag("refs/tags/v1.6.6")]));
    assert!(releasing(&[tag("refs/tags/v2")]));
    assert!(!releasing(&[tag("refs/tags/vendor-drop")]));
    assert!(!releasing(&[tag("refs/tags/release")]));
    assert!(!releasing(&[tag("refs/heads/v1-styles")]));
    assert!(!releasing(&[tag("refs/heads/main")]));
    assert!(releasing(&[tag("refs/heads/main"), tag("refs/tags/v1.0")]));
}

#[test]
fn cargo_audit_ids_decide_not_the_exit_code() {
    assert_eq!(read_cargo_audit(true, "ok, 312 crates checked"), Report::Clean);
    assert_eq!(
        read_cargo_audit(false, "error: couldn't fetch advisory database"),
        Report::CouldNotCheck
    );
    let warn = "warning: unmaintained RUSTSEC-2024-0436 paste";
    assert_eq!(
        read_cargo_audit(true, warn),
        Report::Advisories(vec!["RUSTSEC-2024-0436".into()])
    );
    let vuln = "Crate: foo\nID: RUSTSEC-2025-0001\nerror: 1 vulnerability found\nRUSTSEC-2025-0001 again";
    assert_eq!(
        read_cargo_audit(false, vuln),
        Report::Vulnerabilities(vec!["RUSTSEC-2025-0001".into()])
    );
    assert_eq!(read_cargo_audit(true, "RUSTSEC-20XX-0001"), Report::Clean);
}

#[test]
fn npm_audit_summary_decides() {
    assert_eq!(read_npm_audit(true, "found 0 vulnerabilities\n"), Report::Clean);
    assert_eq!(
        read_npm_audit(false, "found 3 vulnerabilities (1 moderate, 2 high)\n"),
        Report::Vulnerabilities(vec!["found 3 vulnerabilities (1 moderate, 2 high)".into()])
    );
    assert_eq!(read_npm_audit(true, "up to date, audited 100 packages\n"), Report::Clean);
    assert_eq!(read_npm_audit(false, "npm ERR! network ENOTFOUND\n"), Report::CouldNotCheck);
}

#[test]
fn govulncheck_ids_decide_not_the_exit_code() {
    assert_eq!(read_govulncheck(true, "No vulnerabilities found.\n"), Report::Clean);
    assert_eq!(
        read_govulncheck(
            false,
            "vulncheck: fetching vulnerability database: dial tcp: lookup vuln.go.dev: no such host\n"
        ),
        Report::CouldNotCheck
    );
    assert_eq!(
        read_govulncheck(
            true,
            "=== Informational ===\nVulnerability #1: GO-2023-1840\n  More info: https://pkg.go.dev/vuln/GO-2023-1840\n"
        ),
        Report::Advisories(vec!["GO-2023-1840".into()])
    );
    assert_eq!(
        read_govulncheck(
            false,
            "Vulnerability #1: GO-2022-0969\n  Your code calls it.\nGO-2022-0969 again\n"
        ),
        Report::Vulnerabilities(vec!["GO-2022-0969".into()])
    );
    assert_eq!(read_govulncheck(true, "GO-20XX-0001 GO-2023-1"), Report::Clean);
}

#[test]
fn pip_audit_sentence_decides() {
    assert_eq!(read_pip_audit(true, "No known vulnerabilities found\n"), Report::Clean);
    assert_eq!(
        read_pip_audit(
            false,
            "Found 2 known vulnerabilities in 1 package\nrequests 2.0 PYSEC-2023-74\n"
        ),
        Report::Vulnerabilities(vec!["Found 2 known vulnerabilities in 1 package".into()])
    );
    assert_eq!(read_pip_audit(false, "ERROR: could not resolve\n"), Report::CouldNotCheck);
}

#[test]
fn ids_come_back_sorted_and_once() {
    assert_eq!(
        read_cargo_audit(true, "RUSTSEC-2025-0002 RUSTSEC-2024-0001 RUSTSEC-2025-0002"),
        Report::Advisories(vec!["RUSTSEC-2024-0001".into(), "RUSTSEC-2025-0002".into()])
    );
    assert_eq!(
        read_govulncheck(false, "(GO-2024-12345), GO-2023-0001."),
        Report::Vulnerabilities(vec!["GO-2023-0001".into(), "GO-2024-12345".into()])
    );
}

#[test]
fn the_last_npm_summary_wins() {
    assert_eq!(
        read_npm_audit(false, "found 2 vulnerabilities\n...\n  found 0 vulnerabilities  \n"),
        Report::Clean
    );
}

#[test]
fn only_a_release_is_refused_for_vulnerabilities() {
    let v = Report::Vulnerabilities(vec!["x".into()]);
    assert_eq!(conclude(&v, true), Outcome::Failed);
    assert_eq!(conclude(&v, false), Outcome::Warned);
    assert_eq!(conclude(&Report::Advisories(vec!["x".into()]), true), Outcome::Warned);
    assert_eq!(conclude(&Report::Clean, true), Outcome::Passed);
    assert_eq!(conclude(&Report::CouldNotCheck, true), Outcome::Unavailable);
}

#[test]
fn each_ecosystem_reads_its_own_tool() {
    let release = [tag("refs/tags/v1.0")];
    let branch = [tag("refs/heads/feat")];
    assert_eq!(rust(&release, None), Outcome::Unavailable);
    assert_eq!(rust(&release, Some((false, "RUSTSEC-2025-0001"))), Outcome::Failed);
    assert_eq!(rust(&branch, Some((false, "RUSTSEC-2025-0001"))), Outcome::Warned);
    assert_eq!(js(&release, Some((false, "found 1 vulnerability\n"))), Outcome::Failed);
    assert_eq!(go(&branch, Some((true, "No vulnerabilities found."))), Outcome::Passed);
    assert_eq!(python(&release, Some((false, "boom"))), Outcome::Unavailable);
}
