use amont::agents_md::{desired_pointer_content, generate_block, START};
use amont::agents_md_drift::{drift_outcome, fix_step, names_behind, repairs, run_in, Drift, FixEvent};
use amont::check::Outcome;

const PREFIXES: &[&str] = &["feat", "fix"];

fn run(block: Option<&str>, pointer: Option<&str>) -> Option<Drift> {
    run_in(block, pointer, "AGENTS.md", "POINTER.md", PREFIXES, "10 minutes", "1 hour")
}

#[test]
fn a_repository_without_markers_has_not_opted_in() {
    assert_eq!(run(None, None), None);
    assert_eq!(run(Some("# notes\n"), Some("nothing here")), None);
}

#[test]
fn a_current_block_is_not_drift() {
    let block = generate_block(PREFIXES, "10 minutes", "1 hour");
    let pointer = desired_pointer_content("").unwrap();
    assert_eq!(run(Some(&block), Some(&pointer)), Some(Drift { drifted: vec![], unpaired: vec![] }));
    assert_eq!(run(Some(&block), None), Some(Drift { drifted: vec![], unpaired: vec![] }));
}

#[test]
fn a_stale_block_is_named_and_an_unpaired_marker_reported() {
    let stale = generate_block(PREFIXES, "5 minutes", "1 hour");
    let broken = format!("x\n{START}\n");
    let d = run(Some(&stale), Some(&broken)).unwrap();
    assert_eq!(d.drifted, vec!["AGENTS.md".to_string()]);
    assert_eq!(d.unpaired, vec!["POINTER.md".to_string()]);
}

#[test]
fn the_warning_agrees_with_how_many_drifted() {
    assert_eq!(names_behind(&["AGENTS.md".to_string()]), "AGENTS.md is");
    assert_eq!(names_behind(&["A".to_string(), "B".to_string()]), "A and B are");
}

#[test]
fn drift_warns_and_nothing_else_does() {
    let stale = generate_block(PREFIXES, "5 minutes", "1 hour");
    let current = generate_block(PREFIXES, "10 minutes", "1 hour");
    let broken = format!("x\n{START}\n");
    assert_eq!(drift_outcome(&run(Some(&stale), None)), Outcome::Warned);
    assert_eq!(drift_outcome(&run(Some(&current), Some(&broken))), Outcome::Passed);
    assert_eq!(drift_outcome(&run(None, None)), Outcome::Passed);
}

#[test]
fn only_fixing_with_drift_repairs() {
    let drifted = Some(Drift { drifted: vec!["AGENTS.md".to_string()], unpaired: vec![] });
    let clean = Some(Drift { drifted: vec![], unpaired: vec!["AGENTS.md".to_string()] });
    assert!(repairs(&drifted, true));
    assert!(!repairs(&drifted, false));
    assert!(!repairs(&clean, true));
    assert!(!repairs(&None, true));
}

#[test]
fn a_repair_fixes_fails_or_falls_back_to_a_warning() {
    assert_eq!(fix_step(FixEvent::Wrote), None);
    assert_eq!(fix_step(FixEvent::WriteFailed), Some(Outcome::Failed));
    assert_eq!(fix_step(FixEvent::Staged), Some(Outcome::Fixed));
    assert_eq!(fix_step(FixEvent::StageFailed), Some(Outcome::Failed));
    assert_eq!(fix_step(FixEvent::NothingStaged), Some(Outcome::Warned));
}
