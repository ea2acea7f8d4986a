use limen::tray::{
    parse_menu_id, space_labels, tray_icon_file_name, tray_menu_items, MenuCommand, MenuEntry,
    SpaceEntry,
};

fn entry(id: u32, name: &str) -> SpaceEntry {
    SpaceEntry { id, name: name.to_string() }
}

#[test]
fn labels_hide_default_names() {
    let names = space_labels(&vec![
        entry(1, "Space 1"),
        entry(2, "Work"),
        entry(3, "  Space 3 "),
        entry(4, "Space 5"),
        entry(0, "ignored"),
        entry(10, "ignored"),
        entry(2, "Mail"),
    ]);
    assert_eq!(names.len(), 9);
    assert_eq!(names[0], "");
    assert_eq!(names[1], "Mail");
    assert_eq!(names[2], "");
    assert_eq!(names[3], "Space 5");
    assert!(names[4..].iter().all(|n| n.is_empty()));
}

fn labels(menu: &[MenuEntry]) -> Vec<String> {
    menu.iter()
        .map(|e| match e {
            MenuEntry::Item { id, label } => format!("{id}={label}"),
            MenuEntry::Separator => "---".to_string(),
        })
        .collect()
}

#[test]
fn tray_menu_layout() {
    let mut names: Vec<String> = vec![String::new(); 9];
    names[1] = "Work".to_string();
    names[4] = "  ".to_string();
    let menu = tray_menu_items(&names, Some(2));
    assert_eq!(
        labels(&menu),
        vec![
            "space-1=1", "space-2=✓ 2 Work", "space-3=3", "---",
            "space-4=4", "space-5=5", "space-6=6", "---",
            "space-7=7", "space-8=8", "space-9=9", "---",
            "show=Show Limen", "---", "settings=Settings...", "---", "quit=Quit Limen",
        ]
    );
    let short = tray_menu_items(&vec!["A".to_string()], None);
    assert_eq!(labels(&short)[0], "space-1=1 A");
    assert_eq!(labels(&short)[1], "space-2=2");
}

#[test]
fn menu_ids_parse_back() {
    for i in 1..=9u32 {
        assert_eq!(parse_menu_id(&format!("space-{i}")), MenuCommand::SwitchToSpace(i));
    }
    assert_eq!(parse_menu_id("space-+7"), MenuCommand::SwitchToSpace(7));
    assert_eq!(parse_menu_id("space-"), MenuCommand::Ignore);
    assert_eq!(parse_menu_id("space-x"), MenuCommand::Ignore);
    assert_eq!(parse_menu_id("show"), MenuCommand::ShowMain);
    assert_eq!(parse_menu_id("settings"), MenuCommand::OpenSettings);
    assert_eq!(parse_menu_id("quit"), MenuCommand::Quit);
    assert_eq!(parse_menu_id("other"), MenuCommand::Ignore);
}

#[test]
fn tray_icon_files() {
    assert_eq!(tray_icon_file_name(Some(3)), "3.png");
    assert_eq!(tray_icon_file_name(Some(0)), "dot.png");
    assert_eq!(tray_icon_file_name(Some(10)), "dot.png");
    assert_eq!(tray_icon_file_name(None), "dot.png");
}
