use provision::pipeline::Pipeline;
use provision::steps::{single_invocation_outcome, InstallStep, StepOutcome};

fn b(s: &str) -> Vec<u8> {
    s.as_bytes().to_vec()
}

fn three_steps() -> Vec<InstallStep> {
    vec![
        InstallStep::Apt { label: b("apt apps"), packages: vec![b("vim")] },
        InstallStep::Script { label: b("shell setup") },
        InstallStep::Toolchain { label: b("cargo apps"), packages: vec![b("bat")] },
    ]
}

#[test]
fn a_failed_step_does_not_stop_the_pipeline() {
    let mut p = Pipeline::new(three_steps());
    assert_eq!(p.next_step().unwrap().label(), &b("apt apps"));
    p.record_outcome(single_invocation_outcome(b("apt apps"), true));
    assert_eq!(p.next_step().unwrap().label(), &b("shell setup"));
    p.record_outcome(single_invocation_outcome(b("shell setup"), false));
    // the second step failed; the third still runs
    assert_eq!(p.next_step().unwrap().label(), &b("cargo apps"));
    p.record_outcome(single_invocation_outcome(b("cargo apps"), true));
    assert!(p.next_step().is_none());
    assert_eq!(p.outcomes().len(), 3);
    assert_eq!(p.success_count(), 2);
    assert_eq!(p.failure_count(), 1);
    assert!(p.any_failure());
}

#[test]
fn every_step_gets_exactly_one_report_entry() {
    let mut p = Pipeline::new(three_steps());
    while let Some(step) = p.next_step() {
        let label = step.label().clone();
        p.record_outcome(single_invocation_outcome(label, false));
    }
    assert_eq!(p.outcomes().len(), 3);
    assert_eq!(p.success_count() + p.failure_count(), 3);
    let labels: Vec<&Vec<u8>> = p
        .outcomes()
        .iter()
        .map(|o| match o {
            StepOutcome::Success { label } => label,
            StepOutcome::Failure { label, .. } => label,
        })
        .collect();
    assert_eq!(labels, vec![&b("apt apps"), &b("shell setup"), &b("cargo apps")]);
}

#[test]
fn exit_status_is_zero_only_for_a_clean_run() {
    let mut ok = Pipeline::new(three_steps());
    while let Some(step) = ok.next_step() {
        let label = step.label().clone();
        ok.record_outcome(single_invocation_outcome(label, true));
    }
    assert_eq!(ok.exit_code(true), 0);
    assert_eq!(ok.exit_code(false), 1);

    let mut bad = Pipeline::new(three_steps());
    while let Some(step) = bad.next_step() {
        let label = step.label().clone();
        bad.record_outcome(single_invocation_outcome(label, false));
    }
    assert_eq!(bad.exit_code(true), 1);
    assert_eq!(bad.exit_code(false), 1);
}

#[test]
fn an_empty_pipeline_is_a_clean_run() {
    let p = Pipeline::new(Vec::new());
    assert!(p.next_step().is_none());
    assert_eq!(p.failure_count(), 0);
    assert_eq!(p.exit_code(true), 0);
}
