use build_matrix::cancel::JobContext;
use build_matrix::config::{RawValueMap};
use build_matrix::models::BuildConfig;
use build_matrix::process::{
    direct_children, is_alive, processes_named, KillAction, ProcessInfo, Terminator,
};

fn proc_row(pid: u64, parent: Option<u64>, name: &str) -> ProcessInfo {
    ProcessInfo { pid, parent, name: name.to_string() }
}

fn job_config() -> BuildConfig {
    BuildConfig {
        project_path: "/work/demo".to_string(),
        build_dir: "/work/out".to_string(),
        cube_ide_exe_path: "/opt/ide/headless".to_string(),
        workspace_path: "/work/ws".to_string(),
        project_name: None,
        config_name: None,
        clean_build: false,
        custom_console_args: None,
        settings: RawValueMap::new(),
        cancelled: None,
    }
}

#[test]
fn snapshot_helpers_report_children_and_liveness() {
    let snap = vec![
        proc_row(1, None, "init"),
        proc_row(100, Some(1), "tool"),
        proc_row(101, Some(100), "toolchild"),
        proc_row(102, Some(100), "toolchild"),
        proc_row(200, Some(1), "other"),
    ];
    assert_eq!(direct_children(&snap, 100), vec![101, 102]);
    assert_eq!(direct_children(&snap, 999), Vec::<u64>::new());
    assert!(is_alive(&snap, 101));
    assert!(!is_alive(&snap, 999));
    let names = vec!["toolchild".to_string()];
    assert_eq!(processes_named(&snap, &names), vec![101, 102]);
}

#[test]
fn a_process_that_dies_after_the_soft_signal_is_not_escalated() {
    let alive = vec![proc_row(100, None, "tool"), proc_row(101, Some(100), "kid")];
    let after_exit = vec![proc_row(101, Some(100), "kid")];
    let empty: Vec<ProcessInfo> = vec![];
    let mut walk = Terminator::new(100);
    // The root is alive: ask for the graceful stop first.
    assert!(matches!(walk.next(&alive), KillAction::SoftKill(100)));
    // After the wait it is gone; its child is discovered and walked.
    assert!(matches!(walk.next(&after_exit), KillAction::Proceed));
    assert!(matches!(walk.next(&after_exit), KillAction::SoftKill(101)));
    assert!(matches!(walk.next(&empty), KillAction::Proceed));
    match walk.next(&empty) {
        KillAction::Done { ok } => assert!(ok),
        _ => panic!("expected the walk to be done"),
    }
}

#[test]
fn a_surviving_process_is_escalated_and_then_reported() {
    let alive = vec![proc_row(100, None, "tool")];
    let mut walk = Terminator::new(100);
    assert!(matches!(walk.next(&alive), KillAction::SoftKill(100)));
    // Still alive after the soft signal: escalate.
    assert!(matches!(walk.next(&alive), KillAction::ForceKill(100)));
    // Still alive after the kill: recorded as a failure, walk goes on.
    assert!(matches!(walk.next(&alive), KillAction::Proceed));
    match walk.next(&alive) {
        KillAction::Done { ok } => assert!(!ok),
        _ => panic!("expected the walk to be done"),
    }
}

#[test]
fn an_absent_process_is_skipped_without_error() {
    let empty: Vec<ProcessInfo> = vec![];
    let mut walk = Terminator::new(4242);
    match walk.next(&empty) {
        KillAction::Done { ok } => assert!(ok),
        _ => panic!("expected the walk to be done"),
    }
}

#[test]
fn the_final_sweep_queues_detached_processes() {
    let snap = vec![proc_row(300, Some(1), "tool")];
    let empty: Vec<ProcessInfo> = vec![];
    let mut walk = Terminator::new(100);
    match walk.next(&empty) {
        KillAction::Done { ok } => assert!(ok),
        _ => panic!("expected the walk to be done"),
    }
    let leftovers = processes_named(&snap, &vec!["tool".to_string()]);
    walk.enqueue(&leftovers);
    assert!(matches!(walk.next(&snap), KillAction::SoftKill(300)));
    assert!(matches!(walk.next(&empty), KillAction::Proceed));
    match walk.next(&empty) {
        KillAction::Done { ok } => assert!(ok),
        _ => panic!("expected the walk to be done"),
    }
}

#[test]
fn a_process_is_never_walked_twice() {
    let alive = vec![proc_row(100, Some(100), "tool")];
    let empty: Vec<ProcessInfo> = vec![];
    // The row lists itself as its own parent: the visited guard keeps
    // the walk from cycling.
    let mut walk = Terminator::new(100);
    assert!(matches!(walk.next(&alive), KillAction::SoftKill(100)));
    assert!(matches!(walk.next(&empty), KillAction::Proceed));
    match walk.next(&empty) {
        KillAction::Done { ok } => assert!(ok),
        _ => panic!("expected the walk to be done"),
    }
}

#[test]
fn only_one_job_may_be_active_and_cancel_is_idempotent() {
    let mut job = JobContext::new();
    assert!(job.begin(job_config()));
    assert!(!job.begin(job_config()));
    job.attach_child(7777);
    assert_eq!(job.request_cancel(), Some(7777));
    assert!(job.is_cancelled());
    // A second request changes nothing and reports the same process.
    assert_eq!(job.request_cancel(), Some(7777));
    assert!(job.is_cancelled());
    job.release_child();
    assert_eq!(job.request_cancel(), None);
    job.finish();
    assert!(!job.is_cancelled());
    assert!(job.begin(job_config()));
}
