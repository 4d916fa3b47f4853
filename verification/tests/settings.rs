use win_app_delete_controller::settings::{parse_bool, parse_page_size, AppSettings};

#[test]
fn default_settings() {
    let s = AppSettings::default();
    assert_eq!(s.uninstall_filter, "selectable");
    assert_eq!(s.page_size, 50);
    assert!(s.show_no_remove);
    assert!(!s.include_system_components);
    assert!(!s.show_details);
}

#[test]
fn page_size_parsing() {
    assert_eq!(parse_page_size("25"), 25);
    assert_eq!(parse_page_size(" 100 "), 100);
    assert_eq!(parse_page_size("+200"), 200);
    assert_eq!(parse_page_size("0050"), 50);
    assert_eq!(parse_page_size("30"), 50);
    assert_eq!(parse_page_size("-25"), 50);
    assert_eq!(parse_page_size("abc"), 50);
    assert_eq!(parse_page_size(""), 50);
    assert_eq!(parse_page_size("99999999999999999999999"), 50);
}

#[test]
fn bool_parsing() {
    for v in ["true", " 1", "yes ", "on"] {
        assert!(parse_bool(v), "{v}");
    }
    for v in ["false", "TRUE", "0", "", "no"] {
        assert!(!parse_bool(v), "{v}");
    }
}

#[test]
fn settings_round_trip() {
    let s = AppSettings {
        query: "foo\nbar=baz".to_string(),
        publisher_filter: "Contoso\r".to_string(),
        uninstall_filter: "verified".to_string(),
        page_size: 100,
        include_system_components: true,
        show_no_remove: false,
        show_details: true,
    };
    let text = s.to_contents();
    assert_eq!(
        text,
        "query=foo bar=baz\npublisher_filter=Contoso \nuninstall_filter=verified\npage_size=100\ninclude_system_components=true\nshow_no_remove=false\nshow_details=true\n"
    );
    let back = AppSettings::from_contents(&text);
    assert_eq!(back.query, "foo bar=baz");
    assert_eq!(back.publisher_filter, "Contoso ");
    assert_eq!(back.uninstall_filter, "verified");
    assert_eq!(back.page_size, 100);
    assert!(back.include_system_components);
    assert!(!back.show_no_remove);
    assert!(back.show_details);
}

#[test]
fn settings_text_parsing() {
    let s = AppSettings::from_contents("junk\r\nquery=a=b\r\nunknown=1\npage_size=7\nshow_details=on");
    assert_eq!(s.query, "a=b");
    assert_eq!(s.page_size, 50);
    assert!(s.show_details);
    let empty = AppSettings::from_contents("");
    assert_eq!(empty, AppSettings::default());
    let cr = AppSettings::from_contents("query=x\r");
    assert_eq!(cr.query, "x\r");
}
