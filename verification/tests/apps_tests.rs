use limen::apps::{
    app_display_name, frontmost_app, icon_file_name, is_system_or_background, icon_save_from_decoded, plan_icon_save,
    select_visible_apps, AppInfo, IconSave, VisibleWindow, WindowApp,
};

#[test]
fn system_bundles_are_filtered() {
    assert!(is_system_or_background("com.apple.dock", None));
    assert!(is_system_or_background("COM.APPLE.Spotlight", None));
    assert!(is_system_or_background("com.apple.SafariHelper", None));
    assert!(is_system_or_background("com.apple.controlcenter.ui", None));
    assert!(!is_system_or_background("com.apple.Safari", None));
    assert!(!is_system_or_background("com.example.agent", None));
    assert!(is_system_or_background("com.example.app", Some("Window Server")));
    assert!(is_system_or_background("com.example.app", Some("My Dock Thing")));
    assert!(!is_system_or_background("com.example.app", Some("")));
    assert!(!is_system_or_background("com.example.app", Some("Editor")));
}

fn window(layer: Option<i64>, bundle: Option<&str>, hidden: bool, owner: Option<&str>) -> VisibleWindow {
    VisibleWindow {
        layer,
        has_pid: true,
        app: Some(WindowApp {
            hidden,
            bundle_id: bundle.map(|s| s.to_string()),
            localized_name: None,
        }),
        owner_name: owner.map(|s| s.to_string()),
    }
}

#[test]
fn visible_apps_are_distinct_normal_windows() {
    let ws = vec![
        window(Some(0), Some("com.example.a"), false, Some("A")),
        window(Some(3), Some("com.example.b"), false, None),
        window(None, Some("com.example.a"), false, None),
        window(Some(0), Some("com.apple.dock"), false, Some("Dock")),
        window(Some(0), Some("com.example.c"), true, None),
        window(Some(0), Some(""), false, None),
        window(Some(0), None, false, None),
        VisibleWindow { layer: Some(0), has_pid: false, app: None, owner_name: None },
        VisibleWindow { layer: Some(0), has_pid: true, app: None, owner_name: None },
        window(None, Some("com.example.d"), false, Some("")),
        window(Some(0), Some("com.example.e"), false, Some("notification center")),
        window(Some(0), Some("com.example.f"), false, None),
    ];
    assert_eq!(select_visible_apps(&ws, 10), vec![0, 9, 11]);
    assert_eq!(select_visible_apps(&ws, 2), vec![0, 9]);
    assert_eq!(select_visible_apps(&ws, 0), Vec::<usize>::new());
}

#[test]
fn display_name_falls_back_to_bundle() {
    assert_eq!(app_display_name(&Some("Safari".to_string()), &"com.apple.Safari".to_string()), "Safari");
    assert_eq!(app_display_name(&None, &"com.x".to_string()), "com.x");
}

#[test]
fn frontmost_app_filters_system() {
    assert_eq!(frontmost_app(None, Some("X".to_string())), None);
    assert_eq!(frontmost_app(Some("com.apple.dock".to_string()), None), None);
    assert_eq!(
        frontmost_app(Some("com.example.a".to_string()), None),
        Some(("com.example.a".to_string(), "com.example.a".to_string()))
    );
    assert_eq!(
        frontmost_app(Some("com.example.a".to_string()), Some("A".to_string())),
        Some(("com.example.a".to_string(), "A".to_string()))
    );
}

#[test]
fn icon_file_names_replace_slashes() {
    assert_eq!(icon_file_name("com.example.app"), "com.example.app.png");
    assert_eq!(icon_file_name("a/b/c"), "a_b_c.png");
}

fn app(icon: Option<&str>) -> AppInfo {
    AppInfo { bundle_id: "org/x".to_string(), name: "X".to_string(), icon_b64: icon.map(|s| s.to_string()) }
}

#[test]
fn icon_save_plan_decodes_base64() {
    assert!(matches!(plan_icon_save(&app(None), false), IconSave::NoIcon));
    assert!(matches!(plan_icon_save(&app(Some("aGk=")), true), IconSave::AlreadyCached));
    match plan_icon_save(&app(Some("aGk=")), false) {
        IconSave::Write { file_name, png } => {
            assert_eq!(file_name, "org_x.png");
            assert_eq!(png, b"hi".to_vec());
        }
        _ => panic!("expected a write"),
    }
    match plan_icon_save(&app(Some("not base64!")), false) {
        IconSave::Undecodable { error } => assert!(!error.is_empty()),
        _ => panic!("expected a decode error"),
    }
}

#[test]
fn icon_save_from_decoded_result() {
    match icon_save_from_decoded("com.example/app", Ok(vec![1, 2, 3])) {
        IconSave::Write { file_name, png } => {
            assert_eq!(file_name, "com.example_app.png");
            assert_eq!(png, vec![1, 2, 3]);
        }
        _ => panic!("expected a write"),
    }
    match icon_save_from_decoded("com.example.app", Err("Invalid padding".to_string())) {
        IconSave::Undecodable { error } => assert_eq!(error, "Invalid padding"),
        _ => panic!("expected a decode error"),
    }
}
