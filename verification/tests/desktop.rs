use package_run::desktop::{
    editor_candidates, menu_action, menu_event, next_open_action, terminal_candidates,
    toggle_hides_window, tray_title, tray_tooltip, MenuAction, OpenAction, Os, Settings,
};

#[test]
fn tray_texts() {
    assert_eq!(tray_tooltip(0), "Package Run");
    assert_eq!(tray_tooltip(3), "Package Run — 3 running");
    assert_eq!(tray_title(0), None);
    assert_eq!(tray_title(12).as_deref(), Some("12"));
}

#[test]
fn menu_items() {
    assert_eq!(menu_action("open"), MenuAction::ShowWindow);
    assert_eq!(menu_action("quit"), MenuAction::Quit);
    assert_eq!(menu_action("bogus"), MenuAction::Ignore);
    assert_eq!(menu_event(menu_action("add_project")).as_deref(), Some("tray-add-project"));
    assert_eq!(menu_event(menu_action("settings")).as_deref(), Some("open-settings"));
    assert_eq!(menu_event(menu_action("updates")).as_deref(), Some("check-updates"));
    assert_eq!(menu_event(menu_action("releases")), None);
}

#[test]
fn window_toggle_and_tools() {
    assert!(toggle_hides_window(true, true));
    assert!(!toggle_hides_window(true, false));
    assert_eq!(editor_candidates(Os::MacOs), vec!["Cursor", "Visual Studio Code", "Zed", "WebStorm"]);
    assert_eq!(editor_candidates(Os::Linux), vec!["cursor", "code"]);
    assert_eq!(terminal_candidates(Os::Linux), vec!["x-terminal-emulator", "gnome-terminal", "konsole"]);
    assert_eq!(terminal_candidates(Os::Windows), vec!["wt", "cmd"]);
    assert_eq!(Settings::default().shortcut, None);
}

#[test]
fn open_tries_candidates_in_order() {
    let c = editor_candidates(Os::Linux);
    assert_eq!(next_open_action(&c, &vec![], "ERR_NO_EDITOR"), OpenAction::Try("cursor".to_string()));
    assert_eq!(next_open_action(&c, &vec![false], "ERR_NO_EDITOR"), OpenAction::Try("code".to_string()));
    assert_eq!(next_open_action(&c, &vec![false, true], "ERR_NO_EDITOR"), OpenAction::Opened);
    assert_eq!(next_open_action(&c, &vec![true], "ERR_NO_EDITOR"), OpenAction::Opened);
    assert_eq!(
        next_open_action(&c, &vec![false, false], "ERR_NO_EDITOR"),
        OpenAction::Failed("ERR_NO_EDITOR".to_string())
    );
    let none: Vec<String> = vec![];
    assert_eq!(next_open_action(&none, &vec![], "E"), OpenAction::Failed("E".to_string()));
}
