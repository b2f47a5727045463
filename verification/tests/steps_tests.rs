use provision::steps::{
    single_invocation_outcome, source_unavailable_outcome, FailureCause, InstallStep, StepOutcome,
    ToolchainRun,
};

fn b(s: &str) -> Vec<u8> {
    s.as_bytes().to_vec()
}

fn lines(ls: &[&str]) -> Vec<Vec<u8>> {
    let mut out = Vec::new();
    for l in ls {
        out.push(b(l));
    }
    out
}

#[test]
fn toolchain_failure_does_not_stop_the_run() {
    let mut run = ToolchainRun::new(lines(&["a", "b", "c"]));
    assert_eq!(run.next_package(), Some(&b("a")));
    run.record(true);
    assert_eq!(run.next_package(), Some(&b("b")));
    run.record(false);
    // after b's failure, c is still attempted
    assert_eq!(run.next_package(), Some(&b("c")));
    run.record(true);
    assert_eq!(run.next_package(), None);
    assert_eq!(run.failed_packages(), lines(&["b"]));
    match run.outcome(b("cargo apps")) {
        StepOutcome::Failure { label, cause } => {
            assert_eq!(label, b("cargo apps"));
            match cause {
                FailureCause::PackagesFailed { failed } => {
                    assert_eq!(failed, lines(&["b"]));
                }
                _ => panic!("expected the failed package list"),
            }
        }
        _ => panic!("a failed package must fail the step"),
    }
}

#[test]
fn toolchain_reports_every_failed_package_in_order() {
    let mut run = ToolchainRun::new(lines(&["w", "x", "y", "z"]));
    run.record(false);
    run.record(true);
    run.record(false);
    run.record(false);
    assert_eq!(run.failed_packages(), lines(&["w", "y", "z"]));
}

#[test]
fn toolchain_success_when_every_package_installs() {
    let mut run = ToolchainRun::new(lines(&["a", "b"]));
    run.record(true);
    run.record(true);
    match run.outcome(b("cargo apps")) {
        StepOutcome::Success { label } => assert_eq!(label, b("cargo apps")),
        _ => panic!("no failure was recorded"),
    }
}

#[test]
fn toolchain_with_no_packages_succeeds() {
    let run = ToolchainRun::new(Vec::new());
    assert_eq!(run.next_package(), None);
    assert!(run.outcome(b("cargo apps")).is_success());
}

#[test]
fn single_invocation_success_follows_exit_status() {
    let ok = single_invocation_outcome(b("apt update"), true);
    assert!(ok.is_success());
    let bad = single_invocation_outcome(b("apt update"), false);
    assert!(!bad.is_success());
    match bad {
        StepOutcome::Failure { label, cause } => {
            assert_eq!(label, b("apt update"));
            assert!(matches!(cause, FailureCause::SubprocessFailure));
        }
        _ => panic!("a non-zero exit must fail the step"),
    }
}

#[test]
fn missing_package_list_fails_the_step() {
    let o = source_unavailable_outcome(b("apt apps"));
    assert!(!o.is_success());
    match o {
        StepOutcome::Failure { label, cause } => {
            assert_eq!(label, b("apt apps"));
            assert!(matches!(cause, FailureCause::SourceUnavailable));
        }
        _ => panic!("an unreadable list must fail the step"),
    }
}

#[test]
fn step_kinds_describe_themselves() {
    let apt = InstallStep::Apt { label: b("apt apps"), packages: lines(&["vim", "git"]) };
    let cargo = InstallStep::Toolchain { label: b("cargo apps"), packages: lines(&["bat"]) };
    let script = InstallStep::Script { label: b("shell setup") };
    assert_eq!(apt.label(), &b("apt apps"));
    assert_eq!(cargo.label(), &b("cargo apps"));
    assert_eq!(script.label(), &b("shell setup"));
    assert!(apt.is_batch());
    assert!(!cargo.is_batch());
    assert!(!script.is_batch());
    assert_eq!(apt.packages(), Some(&lines(&["vim", "git"])));
    assert_eq!(cargo.packages(), Some(&lines(&["bat"])));
    assert_eq!(script.packages(), None);
}
