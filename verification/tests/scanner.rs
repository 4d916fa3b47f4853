use win_app_delete_controller::scanner::{
    clean_registry_string, scan_installed_apps, uninstall_roots, RegistryEntry, RegistryHive,
    RegistryListing,
};

const ROOT: &str = r"Software\Microsoft\Windows\CurrentVersion\Uninstall";

fn entry(subkey: &str, name: Option<&str>, command: Option<&str>) -> RegistryEntry {
    RegistryEntry {
        subkey_name: subkey.to_string(),
        display_name: name.map(str::to_string),
        uninstall_string: command.map(str::to_string),
        publisher: Some("  Contoso  ".to_string()),
        display_version: Some("   ".to_string()),
        install_location: None,
        estimated_size: Some(2048),
        install_date: Some("20240101".to_string()),
        system_component: Some(1),
        no_remove: Some(0),
    }
}

#[test]
fn roots_are_the_four_uninstall_keys() {
    let roots = uninstall_roots();
    assert_eq!(roots.len(), 4);
    assert_eq!(roots[0].hive, RegistryHive::LocalMachine);
    assert_eq!(roots[0].hive_label, "HKLM");
    assert_eq!(roots[0].path, r"Software\Microsoft\Windows\CurrentVersion\Uninstall");
    assert_eq!(roots[3].hive, RegistryHive::CurrentUser);
    assert_eq!(roots[3].path, r"Software\WOW6432Node\Microsoft\Windows\CurrentVersion\Uninstall");
}

#[test]
fn registry_strings_are_trimmed() {
    assert_eq!(clean_registry_string(&Some("  a b ".to_string())), Some("a b".to_string()));
    assert_eq!(clean_registry_string(&Some(" \t ".to_string())), None);
    assert_eq!(clean_registry_string(&None), None);
}

#[test]
fn scan_skips_dedupes_and_orders() {
    let listings = vec![
        RegistryListing {
            hive_label: "HKLM".to_string(),
            path: ROOT.to_string(),
            entries: vec![
                entry("{B}", Some(" beta "), Some(" b.exe ")),
                entry("{N}", None, Some("n.exe")),
                entry("{E}", Some("   "), Some("e.exe")),
                entry("{A}", Some("Alpha"), Some("a.exe")),
                entry("{C}", Some("alpha"), Some("c.exe")),
            ],
        },
        RegistryListing {
            hive_label: "HKCU".to_string(),
            path: ROOT.to_string(),
            entries: vec![
                entry("{B2}", Some("BETA"), Some("B.EXE")),
                entry("{A2}", Some("alpha"), Some("z.exe")),
            ],
        },
    ];
    let apps = scan_installed_apps(&listings);
    let names: Vec<(&str, &str)> =
        apps.iter().map(|a| (a.display_name.as_str(), a.source_hive.as_str())).collect();
    assert_eq!(
        names,
        vec![("alpha", "HKCU"), ("Alpha", "HKLM"), ("alpha", "HKLM"), ("beta", "HKLM")]
    );
    let beta = &apps[3];
    assert_eq!(beta.id, r"hklm\software\microsoft\windows\currentversion\uninstall\{b}");
    assert_eq!(beta.registry_path, r"HKLM\Software\Microsoft\Windows\CurrentVersion\Uninstall\{B}");
    assert_eq!(beta.uninstall_string, "b.exe");
    assert_eq!(beta.publisher.as_deref(), Some("Contoso"));
    assert_eq!(beta.version, None);
    assert!(beta.is_system_component);
    assert!(!beta.no_remove);
}

#[test]
fn every_app_comes_from_a_machine_or_user_root() {
    let roots = uninstall_roots();
    let listings: Vec<RegistryListing> = roots
        .iter()
        .map(|root| RegistryListing {
            hive_label: root.hive_label.to_string(),
            path: root.path.to_string(),
            entries: vec![entry("{X}", Some(root.hive_label), Some("x.exe"))],
        })
        .collect();
    let apps = scan_installed_apps(&listings);
    // The same name and command under both 64- and 32-bit keys is listed once.
    assert_eq!(apps.len(), 2);
    for app in &apps {
        assert!(app.source_hive == "HKLM" || app.source_hive == "HKCU");
        assert!(app.registry_path.starts_with(&format!("{}\\", app.source_hive)));
    }
}
