use std::cmp::Ordering;
use win_app_delete_controller::browse::{
    detail_indices, ids_still_listed,
    can_move_page, move_page, PageMove,
    clamp_page, compare_option_u32, compare_text, is_app_selectable, matches_readiness_filter,
    next_sort, page_count, page_span, paged_indices, publisher_filter_after_rebuild,
    publisher_options, readiness_filter_label, readiness_filter_options, selectable_ids_on_page,
    selected_targets, summarize, visible_indices, SortKey,
};
use win_app_delete_controller::installed_app::InstalledApp;
use win_app_delete_controller::settings::AppSettings;
use win_app_delete_controller::uninstaller::{UninstallAssessment, UninstallReadiness};

fn app(id: &str, name: &str, publisher: Option<&str>, size: Option<u32>, no_remove: bool, system: bool) -> InstalledApp {
    InstalledApp::new(
        id.to_string(),
        name.to_string(),
        publisher.map(str::to_string),
        None,
        None,
        size,
        None,
        format!("{id}.exe"),
        format!("HKLM\\{id}"),
        "HKLM".to_string(),
        system,
        no_remove,
    )
}

fn assessment(status: UninstallReadiness) -> UninstallAssessment {
    UninstallAssessment { status, detail: String::new() }
}

fn fixture() -> (Vec<InstalledApp>, Vec<UninstallAssessment>) {
    let apps = vec![
        app("a", "Zeta", Some("Contoso"), Some(10), false, false),
        app("b", "alpha", Some("fabrikam"), None, false, false),
        app("c", "Mid", Some("contoso"), Some(300), true, false),
        app("d", "Hidden", None, Some(5), false, true),
        app("e", "Broken", Some("Contoso"), Some(1), false, false),
    ];
    let assessments = vec![
        assessment(UninstallReadiness::Verified),
        assessment(UninstallReadiness::NeedsShell),
        assessment(UninstallReadiness::Verified),
        assessment(UninstallReadiness::Verified),
        assessment(UninstallReadiness::Unsupported),
    ];
    (apps, assessments)
}

#[test]
fn comparisons() {
    assert_eq!(compare_text("abc", "ABD"), Ordering::Less);
    assert_eq!(compare_text("ABC", "abc"), Ordering::Equal);
    assert_eq!(compare_option_u32(Some(3), None), Ordering::Greater);
    assert_eq!(compare_option_u32(None, Some(3)), Ordering::Less);
    assert_eq!(compare_option_u32(Some(2), Some(3)), Ordering::Less);
    assert_eq!(compare_option_u32(None, None), Ordering::Equal);
}

#[test]
fn paging() {
    assert_eq!(page_count(0, 50), 1);
    assert_eq!(page_count(50, 50), 1);
    assert_eq!(page_count(51, 50), 2);
    assert_eq!(page_count(3, 0), 3);
    assert_eq!(clamp_page(5, 51, 50), 1);
    assert_eq!(clamp_page(0, 0, 50), 0);
    let visible: Vec<usize> = (0..7).collect();
    assert_eq!(paged_indices(&visible, 1, 3), vec![3, 4, 5]);
    assert_eq!(paged_indices(&visible, 2, 3), vec![6]);
    assert!(paged_indices(&visible, 3, 3).is_empty());
    assert_eq!(page_span(7, 2, 3), (7, 7));
    assert_eq!(page_span(0, 0, 3), (0, 0));
}

#[test]
fn readiness_options_and_labels() {
    let options = readiness_filter_options();
    assert_eq!(options[0], ("selectable", "삭제 가능"));
    assert_eq!(options[5], ("all", "전체"));
    assert_eq!(readiness_filter_label("blocked"), "제거 제한");
    assert_eq!(readiness_filter_label("nonsense"), "삭제 가능");
    let verified = assessment(UninstallReadiness::Verified);
    assert!(matches_readiness_filter("verified", false, &verified));
    assert!(!matches_readiness_filter("verified", true, &verified));
    assert!(matches_readiness_filter("blocked", true, &verified));
    assert!(matches_readiness_filter("whatever", false, &verified));
    assert!(!matches_readiness_filter("unsupported", false, &verified));
}

#[test]
fn sort_toggle() {
    assert_eq!(next_sort(SortKey::Name, false, SortKey::Name), (SortKey::Name, true));
    assert_eq!(next_sort(SortKey::Name, false, SortKey::Size), (SortKey::Size, true));
    assert_eq!(next_sort(SortKey::Size, true, SortKey::Version), (SortKey::Version, false));
}

#[test]
fn visible_indices_filter_and_sort() {
    let (apps, assessments) = fixture();
    let mut settings = AppSettings::default();
    assert_eq!(visible_indices(&apps, &assessments, &settings, SortKey::Name, false), vec![1, 0]);
    settings.uninstall_filter = "all".to_string();
    assert_eq!(visible_indices(&apps, &assessments, &settings, SortKey::Name, false), vec![1, 4, 2, 0]);
    assert_eq!(visible_indices(&apps, &assessments, &settings, SortKey::Size, true), vec![2, 0, 4, 1]);
    settings.include_system_components = true;
    settings.publisher_filter = "Contoso".to_string();
    assert_eq!(visible_indices(&apps, &assessments, &settings, SortKey::Name, false), vec![4, 0]);
    settings.publisher_filter.clear();
    settings.query = "  ZETA   contoso ".to_string();
    assert_eq!(visible_indices(&apps, &assessments, &settings, SortKey::Name, false), vec![0]);
    settings.query.clear();
    settings.show_no_remove = false;
    assert_eq!(visible_indices(&apps, &assessments, &settings, SortKey::Publisher, false), vec![3, 4, 0, 1]);
}

#[test]
fn publishers_are_listed_once() {
    let (apps, _) = fixture();
    assert_eq!(publisher_options(&apps), vec!["Contoso".to_string(), "fabrikam".to_string()]);
    let pubs = publisher_options(&apps);
    assert_eq!(publisher_filter_after_rebuild("Contoso", &pubs), "Contoso");
    assert_eq!(publisher_filter_after_rebuild("contoso", &pubs), "");
    assert_eq!(publisher_filter_after_rebuild("", &pubs), "");
}

#[test]
fn selection_and_summary() {
    let (apps, assessments) = fixture();
    assert!(is_app_selectable(&apps[0], &assessments[0]));
    assert!(!is_app_selectable(&apps[2], &assessments[2]));
    assert!(!is_app_selectable(&apps[4], &assessments[4]));
    let ids = selectable_ids_on_page(&apps, &assessments, &[4, 2, 1, 0]);
    assert_eq!(ids, vec!["b".to_string(), "a".to_string()]);
    let chosen = vec!["a".to_string(), "c".to_string(), "e".to_string()];
    let targets = selected_targets(&apps, &assessments, &chosen, &[]);
    assert_eq!(targets.len(), 1);
    assert_eq!(targets[0].app_id, "a");
    assert_eq!(targets[0].command, "a.exe");
    let summary = summarize(&apps, &assessments);
    assert_eq!((summary.hidden, summary.blocked, summary.runnable, summary.unsupported), (1, 1, 3, 1));
}

#[test]
fn pages_together_are_the_whole_list() {
    let visible: Vec<usize> = (0..53).map(|i| i * 2).collect();
    for size in [1usize, 7, 25, 50, 53, 100] {
        let mut joined = Vec::new();
        for page in 0..page_count(visible.len(), size) {
            joined.extend(paged_indices(&visible, page, size));
        }
        assert_eq!(joined, visible);
    }
}

#[test]
fn size_order_puts_missing_sizes_first() {
    let (apps, assessments) = fixture();
    let mut settings = AppSettings::default();
    settings.uninstall_filter = "all".to_string();
    assert_eq!(visible_indices(&apps, &assessments, &settings, SortKey::Size, false), vec![1, 4, 0, 2]);
    let mut order = vec![1usize, 4, 0, 2];
    order.sort_by(|a, b| compare_option_u32(apps[*a].estimated_size_kb, apps[*b].estimated_size_kb));
    assert_eq!(order, vec![1, 4, 0, 2]);
}

#[test]
fn page_buttons() {
    assert!(!can_move_page(0, 3, PageMove::First));
    assert!(!can_move_page(0, 3, PageMove::Previous));
    assert!(can_move_page(0, 3, PageMove::Next));
    assert!(!can_move_page(2, 3, PageMove::Last));
    assert!(!can_move_page(0, 1, PageMove::Next));
    assert_eq!(move_page(2, 3, PageMove::First), 0);
    assert_eq!(move_page(2, 3, PageMove::Previous), 1);
    assert_eq!(move_page(0, 3, PageMove::Next), 1);
    assert_eq!(move_page(0, 3, PageMove::Last), 2);
}

#[test]
fn selection_after_rescan_and_details() {
    let (apps, _) = fixture();
    let chosen = vec!["e".to_string(), "gone".to_string(), "a".to_string()];
    assert_eq!(ids_still_listed(&chosen, &apps), vec!["e".to_string(), "a".to_string()]);
    let chosen = vec!["e".to_string(), "c".to_string(), "a".to_string(), "b".to_string()];
    assert_eq!(detail_indices(&apps, &chosen, 3), vec![0, 1, 2]);
    assert_eq!(detail_indices(&apps, &chosen, 10), vec![0, 1, 2, 4]);
    assert!(detail_indices(&apps, &[], 3).is_empty());
}
