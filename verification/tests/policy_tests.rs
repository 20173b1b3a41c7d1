use txed::model::{Pipeline, Transaction};
use txed::policy::{enforce_pre_execution, PolicyEnforcer};
use txed::reporter::Report;

fn default_pipeline() -> Pipeline {
    Pipeline::default()
}

#[test]
fn enforce_pre_execution_forces_dry_run_if_validate_only() {
    let mut p = default_pipeline();
    p.validate_only = true;
    p.dry_run = false;

    enforce_pre_execution(&mut p);
    assert!(p.dry_run);
}

#[test]
fn should_stage_returns_true_for_transaction_all() {
    let mut p = default_pipeline();
    p.transaction = Transaction::All;
    let enforcer = PolicyEnforcer::new(&p);
    assert!(enforcer.should_stage());
}

#[test]
fn should_stage_returns_false_if_validate_only() {
    let mut p = default_pipeline();
    p.transaction = Transaction::All;
    p.validate_only = true;
    let enforcer = PolicyEnforcer::new(&p);
    assert!(!enforcer.should_stage());
}

#[test]
fn can_write_returns_false_if_not_modified() {
    let p = default_pipeline();
    let enforcer = PolicyEnforcer::new(&p);
    assert!(!enforcer.can_write(false));
}

#[test]
fn can_write_returns_false_if_dry_run() {
    let mut p = default_pipeline();
    p.dry_run = true;
    let enforcer = PolicyEnforcer::new(&p);
    assert!(!enforcer.can_write(true));
}

#[test]
fn can_write_returns_false_if_no_write() {
    let mut p = default_pipeline();
    p.no_write = true;
    let enforcer = PolicyEnforcer::new(&p);
    assert!(!enforcer.can_write(true));
}

#[test]
fn can_write_returns_true_if_modified_and_allowed() {
    let p = default_pipeline();
    let enforcer = PolicyEnforcer::new(&p);
    assert!(enforcer.can_write(true));
}

#[test]
fn enforce_post_run_require_match() {
    let mut p = default_pipeline();
    p.require_match = true;
    let enforcer = PolicyEnforcer::new(&p);
    let mut report = Report::new(false, false);
    report.replacements = 0;

    enforcer.enforce_post_run(&mut report);
    assert!(report.policy_violation.is_some());
    assert!(report.policy_violation.unwrap().contains("No matches found"));
}

#[test]
fn enforce_post_run_fail_on_change() {
    let mut p = default_pipeline();
    p.fail_on_change = true;
    let enforcer = PolicyEnforcer::new(&p);
    let mut report = Report::new(false, false);
    report.modified = 1;

    enforcer.enforce_post_run(&mut report);
    assert!(report.policy_violation.is_some());
    assert!(report.policy_violation.unwrap().contains("Changes detected"));
}

#[test]
fn should_commit_returns_false_if_validate_only() {
    let mut p = default_pipeline();
    p.validate_only = true;
    let enforcer = PolicyEnforcer::new(&p);
    let report = Report::new(false, true);
    assert!(!enforcer.should_commit(&report));
}

#[test]
fn should_commit_returns_false_if_dry_run() {
    let mut p = default_pipeline();
    p.dry_run = true;
    let enforcer = PolicyEnforcer::new(&p);
    let report = Report::new(true, false);
    assert!(!enforcer.should_commit(&report));
}

#[test]
fn should_commit_returns_true_for_a_clean_run() {
    let p = default_pipeline();
    let enforcer = PolicyEnforcer::new(&p);
    let report = Report::new(false, false);
    assert!(enforcer.should_commit(&report));
}

#[test]
fn require_match_message_is_exact() {
    let mut p = default_pipeline();
    p.require_match = true;
    let mut report = Report::new(false, false);
    PolicyEnforcer::new(&p).enforce_post_run(&mut report);
    assert_eq!(
        report.policy_violation.as_deref(),
        Some("No matches found (--require-match)")
    );
    assert_eq!(report.exit_code(), 2);
}

#[test]
fn expect_message_names_both_numbers() {
    let mut p = default_pipeline();
    p.expect = Some(3);
    let mut report = Report::new(false, false);
    report.replacements = 120;
    PolicyEnforcer::new(&p).enforce_post_run(&mut report);
    assert_eq!(
        report.policy_violation.as_deref(),
        Some("Expected 3 replacements, found 120 (--expect)")
    );
}

#[test]
fn fail_on_change_message_counts_files() {
    let mut p = default_pipeline();
    p.fail_on_change = true;
    let mut report = Report::new(false, false);
    report.modified = 10;
    PolicyEnforcer::new(&p).enforce_post_run(&mut report);
    assert_eq!(
        report.policy_violation.as_deref(),
        Some("Changes detected in 10 files (--fail-on-change)")
    );
}

#[test]
fn met_expectation_leaves_fail_on_change_in_force() {
    let mut p = default_pipeline();
    p.expect = Some(2);
    p.fail_on_change = true;
    let mut report = Report::new(false, false);
    report.replacements = 2;
    report.modified = 1;
    PolicyEnforcer::new(&p).enforce_post_run(&mut report);
    assert_eq!(
        report.policy_violation.as_deref(),
        Some("Changes detected in 1 files (--fail-on-change)")
    );
}

#[test]
fn require_match_comes_before_expect() {
    let mut p = default_pipeline();
    p.require_match = true;
    p.expect = Some(1);
    let mut report = Report::new(false, false);
    PolicyEnforcer::new(&p).enforce_post_run(&mut report);
    assert_eq!(
        report.policy_violation.as_deref(),
        Some("No matches found (--require-match)")
    );
}

#[test]
fn no_violation_leaves_the_report_alone() {
    let p = default_pipeline();
    let mut report = Report::new(false, false);
    report.replacements = 4;
    report.modified = 2;
    PolicyEnforcer::new(&p).enforce_post_run(&mut report);
    assert_eq!(report.policy_violation, None);
    assert_eq!(report.exit_code(), 0);
}
