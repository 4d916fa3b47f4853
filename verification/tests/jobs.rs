use win_app_delete_controller::jobs::{JobBoard, JobPhase};
use win_app_delete_controller::uninstaller::UninstallEvent;

fn launching(id: &str) -> UninstallEvent {
    UninstallEvent::Launching { app_id: id.to_string(), index: 1, total: 2, name: "App".to_string() }
}

#[test]
fn events_drive_the_jobs() {
    let mut board = JobBoard::new();
    board.start_batch();
    let (status, rescan) = board.apply_event(launching("a"), 0);
    assert_eq!(status, "[1/2] App 제거 창을 여는 중입니다.");
    assert!(!rescan);
    assert_eq!(board.jobs[0].phase, JobPhase::Launching);
    let (status, _) = board.apply_event(
        UninstallEvent::Launched { app_id: "a".to_string(), name: "App".to_string(), pid: 42 },
        10,
    );
    assert_eq!(status, "App 제거 프로세스 실행 중입니다. PID 42");
    assert_eq!(board.jobs[0].status, "실행 중 - PID 42");
    assert_eq!(board.jobs[0].pid, Some(42));
    let (status, rescan) = board.apply_event(
        UninstallEvent::Exited { app_id: "a".to_string(), name: "App".to_string(), code: Some(-3) },
        100,
    );
    assert_eq!(status, "App 제거 명령 프로세스가 종료되었습니다. 삭제 여부를 자동 확인합니다.");
    assert!(rescan);
    let job = &board.jobs[0];
    assert_eq!(job.phase, JobPhase::Verifying);
    assert_eq!(job.status, "명령 프로세스 종료 - 코드 -3, 목록 제거 여부 자동 확인 중");
    assert_eq!(job.pid, Some(42));
    assert_eq!(job.verify_until, Some(90_100));
    assert_eq!(job.next_verify_at, Some(100));
    assert!(board.should_scan(100));
    assert!(!board.should_scan(99));
    board.refresh_job_verification(&["a".to_string()], 200);
    assert_eq!(board.jobs[0].phase, JobPhase::Verifying);
    assert_eq!(board.jobs[0].verify_checks, 1);
    assert_eq!(board.jobs[0].next_verify_at, Some(4_200));
    assert_eq!(board.jobs[0].status, "아직 목록에 있음 - 제거 창 진행 중일 수 있어 자동 재확인 중 (1회)");
    board.refresh_job_verification(&["a".to_string()], 90_101);
    assert_eq!(board.jobs[0].phase, JobPhase::StillListed);
    board.refresh_job_verification(&[], 90_200);
    assert_eq!(board.jobs[0].phase, JobPhase::VerifiedRemoved);
    assert_eq!(board.jobs[0].status, "목록에서 제거 확인");
    let (status, _) = board.apply_event(UninstallEvent::Done, 90_300);
    assert_eq!(status, "제거 명령 실행 큐가 끝났습니다. 삭제 여부는 작업 상태에서 자동 확인됩니다.");
    assert_eq!(board.active_launch_batches, 0);
    board.apply_event(UninstallEvent::Done, 90_300);
    assert_eq!(board.active_launch_batches, 0);
    board.clear_finished();
    assert!(board.jobs.is_empty());
}

#[test]
fn failures_keep_the_retry_job() {
    let mut board = JobBoard::new();
    let (status, _) = board.apply_event(
        UninstallEvent::Failed {
            app_id: "a".to_string(),
            name: "App".to_string(),
            message: "denied".to_string(),
            elevation_required: true,
            target: None,
        },
        0,
    );
    assert_eq!(status, "App 제거 명령에 관리자 권한이 필요합니다.");
    assert_eq!(board.jobs[0].status, "관리자 권한 필요 - denied");
    assert!(board.jobs[0].elevation_required);
    assert!(!board.any_verifying());
}

#[test]
fn at_most_twelve_jobs_one_per_app() {
    let mut board = JobBoard::new();
    for i in 0..20 {
        board.apply_event(launching(&format!("app{i}")), 0);
        board.apply_event(launching(&format!("app{i}")), 0);
    }
    assert_eq!(board.jobs.len(), 12);
    assert_eq!(board.jobs[0].app_id, "app8");
    assert_eq!(board.jobs[11].app_id, "app19");
}

#[test]
fn exit_then_gone_is_confirmed_removed() {
    let exited = || UninstallEvent::Exited {
        app_id: "b".to_string(),
        name: "Bee".to_string(),
        code: None,
    };
    let mut board = JobBoard::new();
    board.apply_event(launching("a"), 0);
    let (status, rescan) = board.apply_event(exited(), 1_000);
    assert!(rescan);
    assert_eq!(status, "Bee 제거 명령 프로세스가 종료되었습니다. 삭제 여부를 자동 확인합니다.");
    assert_eq!(board.jobs[1].status, "명령 프로세스 종료 - 코드 알 수 없음, 목록 제거 여부 자동 확인 중");
    board.refresh_job_verification(&["a".to_string()], 5_000);
    assert_eq!(board.jobs[1].phase, JobPhase::VerifiedRemoved);
    assert_eq!(board.jobs[1].next_verify_at, None);
    // A job that is not being verified is left as it was.
    assert_eq!(board.jobs[0].phase, JobPhase::Launching);
    assert_eq!(board.jobs[0].status, "제거 명령 시작 준비 중");

    let mut board = JobBoard::new();
    board.apply_event(exited(), 1_000);
    board.refresh_job_verification(&["b".to_string()], 91_000);
    assert_eq!(board.jobs[0].phase, JobPhase::Verifying);
    assert_eq!(board.jobs[0].next_verify_at, Some(95_000));
    board.refresh_job_verification(&["b".to_string()], 91_001);
    assert_eq!(board.jobs[0].phase, JobPhase::StillListed);
    assert_eq!(board.jobs[0].verify_checks, 2);
    assert_eq!(board.jobs[0].status, "제거 완료를 확인하지 못함 - Windows 목록에 아직 남아 있음");
    assert!(!board.should_scan(200_000));
}

#[test]
fn retry_offered_only_for_elevation_failures_with_a_job() {
    let mut board = JobBoard::new();
    board.apply_event(
        UninstallEvent::Failed {
            app_id: "a".to_string(),
            name: "A".to_string(),
            message: "x".to_string(),
            elevation_required: true,
            target: None,
        },
        0,
    );
    assert!(!board.jobs[0].offers_elevated_retry());
    board.apply_event(launching("b"), 0);
    assert!(!board.jobs[1].offers_elevated_retry());
}
