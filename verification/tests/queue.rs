use win_app_delete_controller::queue::{RunAction, RunReport, UninstallRun};
use win_app_delete_controller::uninstaller::{
    CommandLaunchMode, UninstallAssessment, UninstallEvent, UninstallReadiness, UninstallTarget,
};

fn target(id: &str, command: &str) -> UninstallTarget {
    UninstallTarget {
        app_id: id.to_string(),
        name: id.to_uppercase(),
        raw_command: command.to_string(),
        command: command.to_string(),
        launch_mode: CommandLaunchMode::Direct,
        assessment: UninstallAssessment {
            status: UninstallReadiness::Verified,
            detail: String::new(),
        },
    }
}

fn describe(events: &[UninstallEvent]) -> Vec<String> {
    events
        .iter()
        .map(|e| match e {
            UninstallEvent::Launching { app_id, index, total, name } => {
                format!("launching {app_id} {index}/{total} {name}")
            }
            UninstallEvent::Launched { app_id, pid, .. } => format!("launched {app_id} {pid}"),
            UninstallEvent::Exited { app_id, code, .. } => format!("exited {app_id} {code:?}"),
            UninstallEvent::Failed { app_id, elevation_required, target, .. } => {
                format!("failed {app_id} {elevation_required} {}", target.is_some())
            }
            UninstallEvent::Done => "done".to_string(),
        })
        .collect()
}

#[test]
fn queue_runs_jobs_one_after_another() {
    let mut run = UninstallRun::new(vec![target("a", "a.exe /S"), target("b", "b.exe")]);
    let mut log = Vec::new();
    let (events, action) = run.step(RunReport::Begin);
    log.extend(describe(&events));
    match action {
        RunAction::Start(plan) => {
            assert_eq!(plan.program, "a.exe");
            assert_eq!(plan.args, vec!["/S".to_string()]);
        }
        _ => panic!("expected a start"),
    }
    let (events, action) = run.step(RunReport::Started { pid: 7 });
    log.extend(describe(&events));
    assert!(matches!(action, RunAction::Wait));
    let (events, action) = run.step(RunReport::Ended { code: Some(0) });
    log.extend(describe(&events));
    assert!(matches!(action, RunAction::Pause));
    let (events, action) = run.step(RunReport::Paused);
    log.extend(describe(&events));
    assert!(matches!(action, RunAction::Start(_)));
    let (events, action) = run.step(RunReport::StartFailed {
        message: "nope".to_string(),
        elevation_required: true,
    });
    log.extend(describe(&events));
    assert!(matches!(action, RunAction::Pause));
    let (events, action) = run.step(RunReport::Paused);
    log.extend(describe(&events));
    assert!(matches!(action, RunAction::Stop));
    assert_eq!(
        log,
        vec![
            "launching a 1/2 A",
            "launched a 7",
            "exited a Some(0)",
            "launching b 2/2 B",
            "failed b true true",
            "done",
        ]
    );
}

#[test]
fn elevated_run_is_one_job_then_done() {
    let mut run = UninstallRun::new_elevated(target("a", "a.exe"));
    let (events, action) = run.step(RunReport::Begin);
    assert_eq!(describe(&events), vec!["launching a 1/1 A (관리자 권한)"]);
    match action {
        RunAction::Start(plan) => assert_eq!(plan.program, "powershell.exe"),
        _ => panic!("expected a start"),
    }
    let (events, action) = run.step(RunReport::StartFailed {
        message: "denied".to_string(),
        elevation_required: false,
    });
    assert_eq!(describe(&events), vec!["failed a false true", "done"]);
    assert!(matches!(action, RunAction::Stop));
}

#[test]
fn empty_queue_is_done_at_once() {
    let mut run = UninstallRun::new(Vec::new());
    let (events, action) = run.step(RunReport::Begin);
    assert_eq!(describe(&events), vec!["done"]);
    assert!(matches!(action, RunAction::Stop));
}

#[test]
fn a_failed_wait_keeps_the_job_for_a_retry() {
    let mut run = UninstallRun::new(vec![target("a", "a.exe")]);
    run.step(RunReport::Begin);
    run.step(RunReport::Started { pid: 1 });
    let (events, _) = run.step(RunReport::WaitFailed {
        message: "lost".to_string(),
        elevation_required: false,
    });
    assert_eq!(describe(&events), vec!["failed a false true"]);
}
