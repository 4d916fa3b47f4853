use std::cell::RefCell;
use win_app_delete_controller::uninstaller::{assess_with_lookup, Probe};
use win_app_delete_controller::uninstaller::{
    assess_resolved_command, assess_uninstall_command, elevated_process_plan, failed_event,
    is_elevation_required_error, is_known_windows_launcher, is_msi_install_arg,
    is_msi_uninstall_arg, is_msiexec_program, launch_mode_for_command, launching_event,
    looks_like_msiexec_install, make_uninstall_command, powershell_single_quoted, process_plan,
    replace_first_msi_install_flag, requires_shell, split_program_and_args, CommandLaunchMode,
    UninstallAssessment, UninstallEvent, UninstallReadiness, UninstallTarget,
};

#[test]
fn converts_msiexec_install_to_uninstall() {
    let command = make_uninstall_command("MsiExec.exe /I{ABC-123}");
    assert_eq!(command, "MsiExec.exe /X{ABC-123}");
}

#[test]
fn keeps_existing_uninstall_command() {
    let command = make_uninstall_command(r#""C:\App\uninstall.exe" /remove"#);
    assert_eq!(command, r#""C:\App\uninstall.exe" /remove"#);
}

#[test]
fn converts_quoted_msiexec_install_argument() {
    let command = make_uninstall_command(r#""C:\Windows\System32\msiexec.exe" /I {ABC-123}"#);
    assert_eq!(command, r#"C:\Windows\System32\msiexec.exe /X {ABC-123}"#);
}

#[test]
fn keeps_non_msiexec_install_flags() {
    let command = make_uninstall_command(r#""C:\App\setup.exe" /install"#);
    assert_eq!(command, r#""C:\App\setup.exe" /install"#);
}

#[test]
fn uses_direct_launch_for_plain_executables() {
    assert_eq!(
        launch_mode_for_command(r#""C:\App\uninstall.exe" /remove"#),
        CommandLaunchMode::Direct
    );
}

#[test]
fn falls_back_to_shell_for_environment_expansion() {
    assert_eq!(
        launch_mode_for_command(r#"%ProgramFiles%\App\uninstall.exe /remove"#),
        CommandLaunchMode::Shell
    );
}

#[test]
fn marks_missing_direct_program_as_unsupported() {
    let assessment =
        assess_uninstall_command(r#""C:\DefinitelyMissingApp\uninstall.exe" /remove"#, &[]);
    assert_eq!(assessment.status, UninstallReadiness::Unsupported);
}

#[test]
fn marks_shell_commands_as_limited_verification() {
    let assessment = assess_uninstall_command(r#"%ProgramFiles%\App\uninstall.exe /remove"#, &[]);
    assert_eq!(assessment.status, UninstallReadiness::NeedsShell);
}

#[test]
fn make_uninstall_command_is_idempotent_on_examples() {
    for raw in [
        "MsiExec.exe /I{ABC-123}",
        r#""C:\Windows\System32\msiexec.exe" /I {ABC-123}"#,
        "  msiexec -i{X} /quiet  ",
        r#""C:\App\uninstall.exe" /remove"#,
        "msiexec /x{A} /i{B}",
    ] {
        let once = make_uninstall_command(raw);
        let twice = make_uninstall_command(&once);
        assert_eq!(once, twice);
        assert!(!looks_like_msiexec_install(&once));
    }
}

#[test]
fn lowercase_install_switch_with_dash_is_converted() {
    assert_eq!(make_uninstall_command("  msiexec -i{X} /quiet  "), "msiexec -X{X} /quiet");
}

#[test]
fn existing_uninstall_switch_blocks_conversion() {
    assert_eq!(make_uninstall_command("msiexec /x{A} /i{B}"), "msiexec /x{A} /i{B}");
}

#[test]
fn only_first_install_switch_is_replaced() {
    assert_eq!(
        replace_first_msi_install_flag("msiexec /i{A} /I{B}"),
        "msiexec /X{A} /I{B}"
    );
}

#[test]
fn msi_switches_are_recognised() {
    assert!(is_msi_install_arg("/I"));
    assert!(is_msi_install_arg("-i{ABC}"));
    assert!(!is_msi_install_arg("/install"));
    assert!(is_msi_uninstall_arg("/X{ABC}"));
    assert!(!is_msi_uninstall_arg("/xyz"));
}

#[test]
fn program_names_are_matched_by_file_name() {
    assert!(is_msiexec_program(r"C:\Windows\System32\MSIEXEC.EXE"));
    assert!(is_msiexec_program("C:/Windows/msiexec"));
    assert!(!is_msiexec_program(r"C:\msiexec\setup.exe"));
    assert!(is_known_windows_launcher("RunDll32.exe"));
    assert!(is_known_windows_launcher(r"C:\Windows\System32\pwsh"));
    assert!(!is_known_windows_launcher("uninstall.exe"));
}

#[test]
fn shell_operators_require_the_shell() {
    assert!(requires_shell("a.exe > log.txt"));
    assert!(requires_shell("a.exe | more"));
    assert!(!requires_shell("a.exe /quiet"));
    assert_eq!(launch_mode_for_command(""), CommandLaunchMode::Shell);
    assert_eq!(launch_mode_for_command(r#""   " /x"#), CommandLaunchMode::Shell);
}

#[test]
fn program_and_args_are_split() {
    let (program, args) = split_program_and_args(r#""C:\Program Files\A\u.exe" /S "x y""#).unwrap();
    assert_eq!(program, r"C:\Program Files\A\u.exe");
    assert_eq!(args, vec!["/S".to_string(), "x y".to_string()]);
    assert!(split_program_and_args("   ").is_none());
}

#[test]
fn assessment_of_each_kind() {
    let empty = assess_resolved_command("   ", false);
    assert_eq!(empty.status, UninstallReadiness::Unsupported);
    assert_eq!(empty.detail, "제거 명령이 비어 있습니다.");
    let launcher = assess_resolved_command("MsiExec.exe /X{A}", false);
    assert_eq!(launcher.status, UninstallReadiness::Verified);
    let found = assess_resolved_command(r"C:\App\u.exe /S", true);
    assert_eq!(found.status, UninstallReadiness::Verified);
    let missing = assess_resolved_command(r"C:\App\u.exe /S", false);
    assert_eq!(missing.status, UninstallReadiness::Unsupported);
    assert_eq!(missing.detail, r"실행 파일을 찾지 못했습니다: C:\App\u.exe");
    let shell = assess_resolved_command("%X%\\u.exe", true);
    assert_eq!(shell.status, UninstallReadiness::NeedsShell);
}

#[test]
fn assessment_labels_and_selectability() {
    let a = UninstallAssessment { status: UninstallReadiness::Unsupported, detail: String::new() };
    assert!(!a.is_selectable());
    assert_eq!(a.label(), "실행 불가");
    let b = UninstallAssessment { status: UninstallReadiness::NeedsShell, detail: String::new() };
    assert!(b.is_selectable());
    assert_eq!(b.label(), "셸 검증 제한");
    assert_eq!(CommandLaunchMode::Direct.label(), "직접 실행");
}

#[test]
fn elevation_errors_are_recognised() {
    assert!(is_elevation_required_error(Some(740), "x"));
    assert!(is_elevation_required_error(None, "The requested operation requires elevation. (os error 740)"));
    assert!(!is_elevation_required_error(Some(5), "Access is denied. (os error 5)"));
}

#[test]
fn process_plans() {
    let shell = process_plan("%WINDIR%\\x.exe /q");
    assert_eq!(shell.program, "cmd.exe");
    assert_eq!(shell.args, vec!["/C".to_string(), "%WINDIR%\\x.exe /q".to_string()]);
    let direct = process_plan(r#""C:\A B\u.exe" /q"#);
    assert_eq!(direct.program, r"C:\A B\u.exe");
    assert_eq!(direct.args, vec!["/q".to_string()]);
    assert_eq!(powershell_single_quoted("it's"), "'it''s'");
    let elevated = elevated_process_plan("a 'b'");
    assert_eq!(elevated.program, "powershell.exe");
    assert_eq!(
        elevated.args[4],
        "$p = Start-Process -FilePath 'cmd.exe' -ArgumentList @('/C', 'a ''b''') -Verb RunAs -Wait -PassThru; if ($null -ne $p.ExitCode) { exit $p.ExitCode }"
    );
}

fn target() -> UninstallTarget {
    UninstallTarget {
        app_id: "id".to_string(),
        name: "App".to_string(),
        raw_command: "u.exe".to_string(),
        command: "u.exe".to_string(),
        launch_mode: CommandLaunchMode::Direct,
        assessment: UninstallAssessment { status: UninstallReadiness::Verified, detail: String::new() },
    }
}

#[test]
fn events_for_the_queue() {
    match launching_event(&target(), 0, 3) {
        UninstallEvent::Launching { app_id, index, total, name } => {
            assert_eq!((app_id.as_str(), index, total, name.as_str()), ("id", 1, 3, "App"));
        }
        other => panic!("unexpected {other:?}"),
    }
    match failed_event(target(), "boom".to_string(), false, false) {
        UninstallEvent::Failed { target, elevation_required, .. } => {
            assert!(target.is_none());
            assert!(!elevation_required);
        }
        other => panic!("unexpected {other:?}"),
    }
    match failed_event(target(), "boom".to_string(), true, false) {
        UninstallEvent::Failed { target, .. } => assert!(target.is_some()),
        other => panic!("unexpected {other:?}"),
    }
}

fn probe_text(probe: &Probe) -> String {
    match &probe.dir {
        Some(dir) => format!("{dir}|{}", probe.name),
        None => probe.name.clone(),
    }
}

#[test]
fn lookup_asks_each_place_in_order_until_found() {
    let dirs = vec!["D1".to_string(), "D2".to_string(), "D3".to_string()];

    let asked = RefCell::new(Vec::new());
    let a = assess_with_lookup("tool /x", &dirs, |p| {
        asked.borrow_mut().push(probe_text(p));
        false
    });
    assert_eq!(a.status, UninstallReadiness::Unsupported);
    assert_eq!(a.detail, "실행 파일을 찾지 못했습니다: tool");
    assert_eq!(
        asked.into_inner(),
        vec!["D1|tool", "D1|tool.exe", "D2|tool", "D2|tool.exe", "D3|tool", "D3|tool.exe"]
    );

    let asked = RefCell::new(Vec::new());
    let a = assess_with_lookup("tool.exe /x", &dirs, |p| {
        asked.borrow_mut().push(probe_text(p));
        p.dir.as_deref() == Some("D2")
    });
    assert_eq!(a.status, UninstallReadiness::Verified);
    assert_eq!(asked.into_inner(), vec!["D1|tool.exe", "D2|tool.exe"]);

    let asked = RefCell::new(Vec::new());
    let a = assess_with_lookup(r#""C:\App\un.exe" /S"#, &dirs, |p| {
        asked.borrow_mut().push(probe_text(p));
        true
    });
    assert_eq!(a.status, UninstallReadiness::Verified);
    assert_eq!(asked.into_inner(), vec![r"C:\App\un.exe"]);

    let asked = RefCell::new(Vec::new());
    let a = assess_with_lookup("msiexec /x{A}", &dirs, |p| {
        asked.borrow_mut().push(probe_text(p));
        false
    });
    assert_eq!(a.status, UninstallReadiness::Verified);
    assert!(asked.into_inner().is_empty());
}
