use win_app_delete_controller::installed_app::InstalledApp;

fn app(size: Option<u32>, date: Option<&str>, system: bool, no_remove: bool) -> InstalledApp {
    InstalledApp::new(
        "hklm\\x".to_string(),
        "Example App".to_string(),
        Some("Contoso Ltd".to_string()),
        Some("1.2.3".to_string()),
        None,
        size,
        date.map(|d| d.to_string()),
        "uninstall.exe".to_string(),
        "HKLM\\Software\\X".to_string(),
        "HKLM".to_string(),
        system,
        no_remove,
    )
}

#[test]
fn size_text_matches_float_formatting() {
    let mut sizes: Vec<u32> = vec![
        0, 1, 1023, 1024, 1535, 1536, 2559, 2560, 2561, 1_048_575, 1_048_576, 1_310_720,
        1_572_864, 1_363_148, 16_777_215, 16_777_216, 16_777_217, 16_777_219, 33_554_435,
        4_294_967_295, 4_294_967_040, 4_294_967_168, 4_294_967_167,
    ];
    let mut x: u32 = 12345;
    for _ in 0..2000 {
        x = x.wrapping_mul(1_103_515_245).wrapping_add(12345);
        sizes.push(x);
        sizes.push(x >> 8);
        sizes.push(x >> 16);
    }
    for k in 0..64u32 {
        sizes.push(1_048_576 + k * 52_429);
        sizes.push(1024 * (k + 1) + 512);
    }
    for size in sizes {
        let expected = if size >= 1024 * 1024 {
            format!("{:.1} GB", size as f32 / 1024.0 / 1024.0)
        } else if size >= 1024 {
            format!("{:.0} MB", size as f32 / 1024.0)
        } else {
            format!("{size} KB")
        };
        assert_eq!(app(Some(size), None, false, false).size_text(), expected, "size {size}");
    }
    assert_eq!(app(None, None, false, false).size_text(), "-");
}

#[test]
fn size_text_examples() {
    assert_eq!(app(Some(512), None, false, false).size_text(), "512 KB");
    assert_eq!(app(Some(2048), None, false, false).size_text(), "2 MB");
    assert_eq!(app(Some(1_048_576), None, false, false).size_text(), "1.0 GB");
}

#[test]
fn install_date_text_formats_compact_dates() {
    assert_eq!(app(None, Some("20240131"), false, false).install_date_text(), "2024-01-31");
    assert_eq!(app(None, Some("2024-01-31"), false, false).install_date_text(), "2024-01-31");
    assert_eq!(app(None, Some("2024013"), false, false).install_date_text(), "2024013");
    assert_eq!(app(None, Some("2024013x"), false, false).install_date_text(), "2024013x");
    assert_eq!(app(None, None, false, false).install_date_text(), "-");
}

#[test]
fn info_text_joins_parts() {
    assert_eq!(app(None, None, false, false).info_text(), "-");
    assert_eq!(
        app(Some(2048), Some("20240131"), true, true).info_text(),
        "2 MB / 2024-01-31 / 숨김 / 제거 제한"
    );
    assert_eq!(app(None, Some("-"), false, true).info_text(), "제거 제한");
}

#[test]
fn optional_texts_fall_back_to_dash() {
    let a = app(None, None, false, false);
    assert_eq!(a.publisher_text(), "Contoso Ltd");
    assert_eq!(a.version_text(), "1.2.3");
    assert_eq!(a.location_text(), "-");
}

#[test]
fn search_text_is_lowercased_fields() {
    let a = app(Some(2048), Some("20240131"), false, false);
    assert_eq!(a.search_blob, "example app contoso ltd 1.2.3  20240131 2048 hklm\\software\\x");
    assert!(a.matches_terms(&[]));
    assert!(a.matches_terms(&["contoso".to_string(), "2048".to_string()]));
    assert!(!a.matches_terms(&["contoso".to_string(), "fabrikam".to_string()]));
}
