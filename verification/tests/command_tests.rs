use bwrap_run::command::{
    command_lookup_candidates, command_to_run_inside_sandbox, home_command_directory_target,
    resolve_target_command_absolute_path, target_command_label, CandidateProbe, CommandPlacement,
};

#[test]
fn command_with_slash_is_a_path() {
    let c = command_lookup_candidates(b"./Desktop/hello", &Some(b"/usr/bin".to_vec()), &None);
    assert_eq!(c, vec![b"./Desktop/hello".to_vec()]);
    let c = command_lookup_candidates(b"/usr/bin/env", &None, &None);
    assert_eq!(c, vec![b"/usr/bin/env".to_vec()]);
}

#[test]
fn command_looked_up_in_path() {
    let c = command_lookup_candidates(b"firefox", &Some(b"/usr/local/bin:/usr/bin/:".to_vec()), &Some(b"/tmp".to_vec()));
    assert_eq!(
        c,
        vec![b"/usr/local/bin/firefox".to_vec(), b"/usr/bin/firefox".to_vec(), b"firefox".to_vec()]
    );
    let c = command_lookup_candidates(b"firefox", &Some(Vec::new()), &None);
    assert_eq!(c, vec![b"firefox".to_vec()]);
}

#[test]
fn command_looked_up_in_current_dir_without_path() {
    let c = command_lookup_candidates(b"hello", &None, &Some(b"/home/elysia".to_vec()));
    assert_eq!(c, vec![b"/home/elysia/hello".to_vec()]);
    assert!(command_lookup_candidates(b"hello", &None, &None).is_empty());
}

#[test]
fn first_existing_candidate_wins() {
    let probes = vec![
        CandidateProbe { path: b"/usr/local/bin/firefox".to_vec(), exists: false, canonical: None },
        CandidateProbe { path: b"/usr/bin/firefox".to_vec(), exists: true, canonical: Some(b"/usr/lib/firefox/firefox".to_vec()) },
        CandidateProbe { path: b"/bin/firefox".to_vec(), exists: true, canonical: None },
    ];
    assert_eq!(resolve_target_command_absolute_path(&probes), Some(b"/usr/lib/firefox/firefox".to_vec()));
}

#[test]
fn existing_candidate_without_canonical_form() {
    let probes = vec![CandidateProbe { path: b"./hello".to_vec(), exists: true, canonical: None }];
    assert_eq!(resolve_target_command_absolute_path(&probes), Some(b"./hello".to_vec()));
}

#[test]
fn no_existing_candidate() {
    let probes = vec![CandidateProbe { path: b"/x".to_vec(), exists: false, canonical: Some(b"/y".to_vec()) }];
    assert_eq!(resolve_target_command_absolute_path(&probes), None);
    assert_eq!(resolve_target_command_absolute_path(&Vec::new()), None);
}

#[test]
fn system_command_runs_by_name() {
    let (inside, placement) = command_to_run_inside_sandbox(b"/usr/sbin/firefox", b"/home/elysia");
    assert_eq!(inside, b"firefox".to_vec());
    assert_eq!(placement, CommandPlacement::InSystemDirs);
    let (inside, placement) = command_to_run_inside_sandbox(b"/usr/bin/bash", b"/home/elysia");
    assert_eq!(inside, b"bash".to_vec());
    assert_eq!(placement, CommandPlacement::InSystemDirs);
}

#[test]
fn home_command_runs_by_absolute_path() {
    let (inside, placement) = command_to_run_inside_sandbox(b"/home/elysia/Desktop/hello", b"/home/elysia");
    assert_eq!(inside, b"/home/elysia/Desktop/hello".to_vec());
    assert_eq!(placement, CommandPlacement::InHome);
}

#[test]
fn other_command_runs_by_absolute_path() {
    let (inside, placement) = command_to_run_inside_sandbox(b"/opt/app/run", b"/home/elysia");
    assert_eq!(inside, b"/opt/app/run".to_vec());
    assert_eq!(placement, CommandPlacement::OutsideSystemDirs);
    // `/lib` does not count as a system directory here.
    let (_, placement) = command_to_run_inside_sandbox(b"/lib/x", b"/home/elysia");
    assert_eq!(placement, CommandPlacement::OutsideSystemDirs);
}

#[test]
fn home_command_gets_its_parent_directory() {
    let t = home_command_directory_target(
        b"/home/elysia/Desktop/hello",
        b"/home/elysia",
        b"/home/elysia/.sandbox_data/test_sandbox",
        true,
    );
    assert_eq!(t, Some(b"/home/elysia/.sandbox_data/test_sandbox/Desktop".to_vec()));
}

#[test]
fn home_directory_command_gets_its_own_directory() {
    let t = home_command_directory_target(b"/home/elysia/tools", b"/home/elysia", b"/p", false);
    assert_eq!(t, Some(b"/p/tools".to_vec()));
    let t = home_command_directory_target(b"/home/elysia/hello", b"/home/elysia", b"/p", true);
    assert_eq!(t, Some(b"/p/".to_vec()));
}

#[test]
fn command_outside_home_needs_no_directory() {
    assert_eq!(home_command_directory_target(b"/usr/bin/bash", b"/home/elysia", b"/p", true), None);
}

#[test]
fn target_label() {
    assert_eq!(target_command_label(b"/bin/bash", true), "/bin/bash");
    assert_eq!(target_command_label(b"/bin//bash/", true), "/bin/bash");
    assert_eq!(target_command_label(b"/bin/bash", false), "bash");
    assert_eq!(target_command_label(b"/usr/bin/bash", true), "bash");
    assert_eq!(target_command_label(b"/home/elysia/Desktop/hello", false), "hello");
    assert_eq!(target_command_label(b"/", false), "");
}
