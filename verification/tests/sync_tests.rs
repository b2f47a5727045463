use provision::exports::{
    apply_plan, missing_exports, parse_canonical, starts_with_export, sync_all, sync_target,
    RcSnapshot, SyncPhaseError,
};

fn b(s: &str) -> Vec<u8> {
    s.as_bytes().to_vec()
}

fn lines(ls: &[&str]) -> Vec<Vec<u8>> {
    let mut out = Vec::new();
    for l in ls {
        out.push(b(l));
    }
    out
}

#[test]
fn first_sync_appends_only_missing() {
    let canonical = lines(&["export FOO=1", "export BAR=2"]);
    let target = lines(&["# comment", "export FOO=1"]);
    let plan = sync_target(&canonical, &target);
    assert_eq!(plan, lines(&["export BAR=2"]));
}

#[test]
fn second_sync_appends_nothing() {
    let canonical = lines(&["export FOO=1", "export BAR=2"]);
    let target = lines(&["export FOO=1"]);
    let plan = sync_target(&canonical, &target);
    let after = apply_plan(&target, &plan);
    assert_eq!(after, lines(&["export FOO=1", "export BAR=2"]));
    let second = sync_target(&canonical, &after);
    assert_eq!(second, Vec::<Vec<u8>>::new());
    assert_eq!(apply_plan(&after, &second), after);
}

#[test]
fn targets_are_independent() {
    let canonical = lines(&["export FOO=1"]);
    let target_a = lines(&["export FOO=1"]);
    let target_b = lines(&["alias ll='ls -l'"]);
    let plans = sync_all(&canonical, &vec![target_a.clone(), target_b.clone()]);
    assert_eq!(plans.len(), 2);
    assert_eq!(plans[0], Vec::<Vec<u8>>::new());
    assert_eq!(plans[1], lines(&["export FOO=1"]));
    assert_eq!(apply_plan(&target_a, &plans[0]), target_a);
}

#[test]
fn appends_keep_canonical_order() {
    let canonical = lines(&["export A=1", "export B=2", "export C=3"]);
    let target = lines(&["export B=2"]);
    let plan = sync_target(&canonical, &target);
    assert_eq!(plan, lines(&["export A=1", "export C=3"]));
}

#[test]
fn existing_lines_survive_unchanged() {
    let target = lines(&[
        "export DUP=1",
        "export DUP=1",
        "exportmalformed",
        "  export indented",
        "plain text",
    ]);
    let canonical = lines(&["export NEW=1"]);
    let plan = sync_target(&canonical, &target);
    let after = apply_plan(&target, &plan);
    assert_eq!(&after[..target.len()], &target[..]);
    assert_eq!(after.len(), target.len() + 1);
    assert_eq!(after[target.len()], b("export NEW=1"));
}

#[test]
fn snapshot_collapses_duplicates_and_keeps_only_exports() {
    let target = lines(&["export X=1", "export X=1", "# export X=1", "export Y=2"]);
    let snap = RcSnapshot::of_lines(&target);
    assert!(snap.contains_line(&b("export X=1")));
    assert!(snap.contains_line(&b("export Y=2")));
    assert!(!snap.contains_line(&b("# export X=1")));
    assert!(!snap.contains_line(&b("export Z=3")));
    let plan = missing_exports(&lines(&["export X=1", "export Z=3"]), &snap);
    assert_eq!(plan, lines(&["export Z=3"]));
}

#[test]
fn duplicate_canonical_entries_follow_the_snapshot_alone() {
    // The snapshot is computed once per pass, so a declaration listed
    // twice and absent from the target is appended twice; the next run
    // appends nothing.
    let canonical = lines(&["export D=1", "export D=1"]);
    let target: Vec<Vec<u8>> = Vec::new();
    let plan = sync_target(&canonical, &target);
    assert_eq!(plan, lines(&["export D=1", "export D=1"]));
    let after = apply_plan(&target, &plan);
    assert_eq!(sync_target(&canonical, &after), Vec::<Vec<u8>>::new());
}

#[test]
fn parse_canonical_keeps_export_lines_in_order() {
    let content = b("# exports\nexport PATH=$PATH:~/bin\n\nEDITOR=vim\nexport EDITOR\n");
    let canonical = parse_canonical(&content);
    assert_eq!(canonical, lines(&["export PATH=$PATH:~/bin", "export EDITOR"]));
}

#[test]
fn export_prefix_must_match_exactly() {
    assert!(starts_with_export(&b("export PATH=1")));
    assert!(starts_with_export(&b("export ")));
    assert!(!starts_with_export(&b("export")));
    assert!(!starts_with_export(&b("Export FOO=1")));
    assert!(!starts_with_export(&b(" export FOO=1")));
    assert!(!starts_with_export(&b("exports FOO=1")));
    assert!(!starts_with_export(&b("")));
}

#[test]
fn sync_phase_errors_tell_config_from_target() {
    assert!(SyncPhaseError::ConfigUnavailable.is_config());
    assert!(!SyncPhaseError::TargetMissing.is_config());
}

#[test]
fn empty_canonical_list_changes_nothing() {
    let target = lines(&["export A=1"]);
    let plan = sync_target(&Vec::new(), &target);
    assert_eq!(plan, Vec::<Vec<u8>>::new());
}
