use jb_vmoptions_helper::app::{
    App, AppLayout, AppReport, AppendResult, ButtonFocus, Focus, KeyCode, KeyInput, MouseKind, Outcome, Rect,
    Severity, NOTIFICATIONS_SHOWN,
};

fn found(pairs: &[(&str, &str)]) -> Vec<(String, String)> {
    pairs.iter().map(|(n, b)| (n.to_string(), b.to_string())).collect()
}

fn two_apps() -> App {
    App::new(&found(&[("webstorm", "/opt/ws/bin/webstorm.sh"), ("idea", "/opt/idea/bin/idea.sh")]), None)
}

fn rect(x: u16, y: u16, width: u16, height: u16) -> Rect {
    Rect { x, y, width, height }
}

fn layout() -> AppLayout {
    AppLayout {
        list_area: rect(0, 0, 20, 10),
        apply_area: rect(0, 10, 10, 3),
        quit_area: rect(10, 10, 10, 3),
        preview_area: rect(20, 0, 30, 6),
        input_area: rect(20, 6, 30, 7),
    }
}

fn key(code: KeyCode) -> KeyInput {
    KeyInput { code, ctrl: false, release: false }
}

fn messages(app: &App) -> Vec<(String, Severity)> {
    app.notifications.iter().map(|n| (n.message.clone(), n.severity)).collect()
}

#[test]
fn new_sorts_names_and_keeps_first_launcher() {
    let app = App::new(
        &found(&[("rider", "/a/rider.sh"), ("clion", "/a/clion.sh"), ("rider", "/b/rider.sh")]),
        None,
    );
    assert_eq!(app.app_names, vec!["clion".to_string(), "rider".to_string()]);
    assert_eq!(app.binaries, vec!["/a/clion.sh".to_string(), "/a/rider.sh".to_string()]);
    assert_eq!(app.check_states, vec![false, false, false]);
    assert_eq!(app.selected, Some(0));
    assert_eq!(app.focus, Focus::AppList);
    assert_eq!(app.button_focus, ButtonFocus::Apply);
    assert!(app.notifications.is_empty());
}

#[test]
fn new_orders_by_code_point() {
    let app = App::new(&found(&[("b", "1"), ("B", "2"), ("ab", "3"), ("a", "4"), ("é", "5")]), None);
    assert_eq!(app.app_names, vec!["B", "a", "ab", "b", "é"]);
    assert_eq!(app.binaries, vec!["2", "4", "3", "1", "5"]);
}

#[test]
fn toggle_all_apps_sets_every_entry() {
    let mut app = two_apps();
    app.toggle_item(0);
    assert_eq!(app.check_states, vec![true, true, true]);
    app.toggle_item(0);
    assert_eq!(app.check_states, vec![false, false, false]);
}

#[test]
fn toggle_app_updates_all_apps_entry() {
    let mut app = two_apps();
    app.toggle_item(1);
    assert_eq!(app.check_states, vec![false, true, false]);
    app.toggle_item(2);
    assert_eq!(app.check_states, vec![true, true, true]);
    app.toggle_item(1);
    assert_eq!(app.check_states, vec![false, false, true]);
    app.toggle_item(1);
    assert_eq!(app.check_states, vec![true, true, true]);
}

#[test]
fn toggle_past_the_list_changes_nothing() {
    let mut app = two_apps();
    app.toggle_item(3);
    assert_eq!(app.check_states, vec![false, false, false]);
}

#[test]
fn toggle_with_no_apps_flips_only_all_entry() {
    let mut app = App::new(&Vec::new(), None);
    app.toggle_item(0);
    assert_eq!(app.check_states, vec![true]);
}

#[test]
fn toggle_selected_uses_highlight() {
    let mut app = two_apps();
    app.selected = Some(2);
    app.toggle_selected();
    assert_eq!(app.check_states, vec![false, false, true]);
    app.selected = None;
    app.toggle_selected();
    assert_eq!(app.check_states, vec![false, false, true]);
}

#[test]
fn move_list_wraps_around() {
    let mut app = two_apps();
    app.move_list(-1);
    assert_eq!(app.selected, Some(2));
    app.move_list(1);
    assert_eq!(app.selected, Some(0));
    app.move_list(1);
    app.move_list(1);
    assert_eq!(app.selected, Some(2));
    app.selected = None;
    app.move_list(1);
    assert_eq!(app.selected, Some(1));
}

#[test]
fn selected_apps_follows_check_boxes() {
    let mut app = two_apps();
    assert!(app.selected_apps().is_empty());
    app.toggle_item(2);
    assert_eq!(app.selected_apps(), vec![("webstorm".to_string(), "/opt/ws/bin/webstorm.sh".to_string())]);
    app.toggle_item(0);
    assert_eq!(
        app.selected_apps(),
        vec![
            ("idea".to_string(), "/opt/idea/bin/idea.sh".to_string()),
            ("webstorm".to_string(), "/opt/ws/bin/webstorm.sh".to_string()),
        ]
    );
}

#[test]
fn list_index_at_respects_border_and_length() {
    let mut app = two_apps();
    app.layout = layout();
    assert_eq!(app.list_index_at(1, 1), Some(0));
    assert_eq!(app.list_index_at(5, 3), Some(2));
    assert_eq!(app.list_index_at(5, 4), None);
    assert_eq!(app.list_index_at(0, 1), None);
    assert_eq!(app.list_index_at(19, 1), None);
    assert_eq!(app.list_index_at(1, 0), None);
    assert_eq!(app.list_index_at(1, 9), None);
}

#[test]
fn rect_contains_is_half_open() {
    let r = rect(2, 3, 4, 5);
    assert!(jb_vmoptions_helper::app::rect_contains(r, 2, 3));
    assert!(jb_vmoptions_helper::app::rect_contains(r, 5, 7));
    assert!(!jb_vmoptions_helper::app::rect_contains(r, 6, 7));
    assert!(!jb_vmoptions_helper::app::rect_contains(r, 5, 8));
    assert!(!jb_vmoptions_helper::app::rect_contains(r, 1, 3));
}

#[test]
fn click_on_list_entry_focuses_and_toggles() {
    let mut app = two_apps();
    app.layout = layout();
    app.focus = Focus::Input;
    assert_eq!(app.handle_mouse(3, 2, MouseKind::LeftDown), Outcome::Continue);
    assert_eq!(app.focus, Focus::AppList);
    assert_eq!(app.selected, Some(1));
    assert_eq!(app.check_states, vec![false, true, false]);
}

#[test]
fn click_on_buttons() {
    let mut app = two_apps();
    app.layout = layout();
    app.button_focus = ButtonFocus::Quit;
    assert_eq!(app.handle_mouse(2, 11, MouseKind::LeftDown), Outcome::Apply);
    assert_eq!(app.focus, Focus::Buttons);
    assert_eq!(app.button_focus, ButtonFocus::Apply);
    assert_eq!(app.handle_mouse(12, 11, MouseKind::LeftDown), Outcome::Quit);
}

#[test]
fn click_in_input_places_cursor() {
    let mut app = App::new(&Vec::new(), Some("aé\nxyz".to_string()));
    app.layout = layout();
    // inner row 0, inner column 2: byte 2 is inside 'é', so the cursor goes to 1
    assert_eq!(app.handle_mouse(23, 7, MouseKind::LeftDown), Outcome::Continue);
    assert_eq!(app.focus, Focus::Input);
    assert_eq!((app.cursor_row, app.cursor_col), (0, 1));
    // below the last line: last line, clamped to its end
    app.handle_mouse(40, 12, MouseKind::LeftDown);
    assert_eq!((app.cursor_row, app.cursor_col), (1, 3));
    // on the border: row and column 0
    app.handle_mouse(20, 6, MouseKind::LeftDown);
    assert_eq!((app.cursor_row, app.cursor_col), (0, 0));
}

#[test]
fn click_elsewhere_leaves_editor() {
    let mut app = two_apps();
    app.layout = layout();
    app.focus = Focus::Input;
    assert_eq!(app.handle_mouse(60, 20, MouseKind::LeftDown), Outcome::Continue);
    assert_eq!(app.focus, Focus::AppList);
    app.focus = Focus::Buttons;
    app.handle_mouse(60, 20, MouseKind::LeftDown);
    assert_eq!(app.focus, Focus::Buttons);
}

#[test]
fn scrolling_moves_list_or_preview() {
    let mut app = two_apps();
    app.layout = layout();
    assert_eq!(app.handle_mouse(3, 3, MouseKind::ScrollUp), Outcome::Continue);
    assert_eq!(app.selected, Some(2));
    app.handle_mouse(3, 3, MouseKind::ScrollDown);
    assert_eq!(app.selected, Some(0));
    app.handle_mouse(25, 2, MouseKind::ScrollDown);
    app.handle_mouse(25, 2, MouseKind::ScrollDown);
    assert_eq!(app.preview_scroll, 2);
    app.handle_mouse(25, 2, MouseKind::ScrollUp);
    assert_eq!(app.preview_scroll, 1);
    app.handle_mouse(25, 2, MouseKind::ScrollUp);
    app.handle_mouse(25, 2, MouseKind::ScrollUp);
    assert_eq!(app.preview_scroll, 0);
    assert_eq!(app.handle_mouse(25, 2, MouseKind::Other), Outcome::Continue);
}

#[test]
fn ctrl_c_quits_everywhere() {
    for focus in [Focus::AppList, Focus::Buttons, Focus::Input] {
        let mut app = two_apps();
        app.focus = focus;
        let out = app.handle_key(KeyInput { code: KeyCode::Char('c'), ctrl: true, release: false });
        assert_eq!(out, Outcome::Quit);
    }
}

#[test]
fn released_keys_are_ignored() {
    let mut app = two_apps();
    let out = app.handle_key(KeyInput { code: KeyCode::Char('q'), ctrl: false, release: true });
    assert_eq!(out, Outcome::Continue);
}

#[test]
fn keys_in_app_list() {
    let mut app = two_apps();
    assert_eq!(app.handle_key(key(KeyCode::Char('j'))), Outcome::Continue);
    assert_eq!(app.selected, Some(1));
    app.handle_key(key(KeyCode::Up));
    assert_eq!(app.selected, Some(0));
    app.handle_key(key(KeyCode::Char('k')));
    assert_eq!(app.selected, Some(2));
    app.handle_key(key(KeyCode::Char(' ')));
    assert_eq!(app.check_states, vec![false, false, true]);
    app.handle_key(key(KeyCode::Enter));
    assert_eq!(app.check_states, vec![false, false, false]);
    app.handle_key(key(KeyCode::PageDown));
    assert_eq!(app.preview_scroll, 5);
    app.handle_key(key(KeyCode::PageUp));
    app.handle_key(key(KeyCode::PageUp));
    assert_eq!(app.preview_scroll, 0);
    app.handle_key(key(KeyCode::Tab));
    assert_eq!(app.focus, Focus::Buttons);
    assert_eq!(app.handle_key(key(KeyCode::Char('q'))), Outcome::Quit);
}

#[test]
fn keys_on_buttons() {
    let mut app = two_apps();
    app.focus = Focus::Buttons;
    app.handle_key(key(KeyCode::Char('l')));
    assert_eq!(app.button_focus, ButtonFocus::Quit);
    assert_eq!(app.handle_key(key(KeyCode::Enter)), Outcome::Quit);
    app.handle_key(key(KeyCode::Left));
    assert_eq!(app.button_focus, ButtonFocus::Apply);
    assert_eq!(app.handle_key(key(KeyCode::Char(' '))), Outcome::Apply);
    app.handle_key(key(KeyCode::Tab));
    assert_eq!(app.focus, Focus::Input);
    app.focus = Focus::Buttons;
    app.handle_key(key(KeyCode::Esc));
    assert_eq!(app.focus, Focus::AppList);
}

#[test]
fn keys_in_input() {
    let mut app = two_apps();
    app.focus = Focus::Input;
    assert_eq!(app.handle_key(key(KeyCode::Char('q'))), Outcome::Continue);
    app.handle_key(key(KeyCode::Char('x')));
    assert_eq!(app.lines, vec!["qx".to_string()]);
    app.handle_key(key(KeyCode::Enter));
    assert_eq!(app.lines, vec!["qx".to_string(), String::new()]);
    app.handle_key(key(KeyCode::Backspace));
    app.handle_key(key(KeyCode::Left));
    app.handle_key(key(KeyCode::Delete));
    assert_eq!(app.lines, vec!["q".to_string()]);
    let out = app.handle_key(KeyInput { code: KeyCode::Enter, ctrl: true, release: false });
    assert_eq!(out, Outcome::Apply);
    app.handle_key(key(KeyCode::Esc));
    assert_eq!(app.focus, Focus::AppList);
}

#[test]
fn notifications_keep_the_latest_five() {
    let mut app = two_apps();
    for i in 0..7u64 {
        app.notify(&format!("m{i}"), Severity::Info, i);
    }
    let msgs: Vec<String> = app.notifications.iter().map(|n| n.message.clone()).collect();
    assert_eq!(msgs, vec!["m2", "m3", "m4", "m5", "m6"]);
    assert_eq!(app.notifications[0].born, 2);
}

#[test]
fn prune_drops_notifications_older_than_four_seconds() {
    let mut app = two_apps();
    app.notify("old", Severity::Info, 1_000_000_000);
    app.notify("new", Severity::Warning, 3_000_000_000);
    app.notify("future", Severity::Error, 9_000_000_000);
    app.prune_notifications(4_999_999_999);
    assert_eq!(
        messages(&app),
        vec![
            ("old".to_string(), Severity::Info),
            ("new".to_string(), Severity::Warning),
            ("future".to_string(), Severity::Error)
        ]
    );
    app.prune_notifications(5_000_000_000);
    assert_eq!(
        messages(&app),
        vec![("new".to_string(), Severity::Warning), ("future".to_string(), Severity::Error)]
    );
}

#[test]
fn begin_apply_warns_without_options_or_apps() {
    let mut app = two_apps();
    assert!(app.begin_apply(7).is_none());
    assert_eq!(messages(&app), vec![("No options entered".to_string(), Severity::Warning)]);
    app.input_insert('x');
    assert!(app.begin_apply(8).is_none());
    assert_eq!(messages(&app)[1], ("No apps selected".to_string(), Severity::Warning));
    app.toggle_item(1);
    let (opts, apps) = app.begin_apply(9).unwrap();
    assert_eq!(opts, vec!["x".to_string()]);
    assert_eq!(apps, vec![("idea".to_string(), "/opt/idea/bin/idea.sh".to_string())]);
    assert_eq!(app.notifications.len(), 2);
}

#[test]
fn report_app_messages() {
    let mut app = two_apps();
    app.report_app("idea", false, &Vec::new(), 1);
    app.report_app(
        "idea",
        true,
        &vec![AppendResult::Failed("boom".to_string()), AppendResult::AlreadySet],
        2,
    );
    app.report_app("webstorm", true, &vec![AppendResult::AlreadySet, AppendResult::Appended], 3);
    app.finish_apply(4);
    assert_eq!(
        messages(&app),
        vec![
            ("idea: vmoptions not found".to_string(), Severity::Error),
            ("idea: error \u{2013} boom".to_string(), Severity::Error),
            ("idea: already set".to_string(), Severity::Warning),
            ("webstorm: updated".to_string(), Severity::Info),
            ("Done".to_string(), Severity::Info),
        ]
    );
}

#[test]
fn preview_lists_selected_apps() {
    let mut app = two_apps();
    assert_eq!(app.preview_text(&Vec::new()), "No apps selected");
    app.toggle_item(0);
    let text = app.preview_text(&vec![Some("/opt/idea/bin/idea.sh.vmoptions".to_string()), None]);
    assert_eq!(
        text,
        "idea\n  /opt/idea/bin/idea.sh\n  \u{2192} /opt/idea/bin/idea.sh.vmoptions\n\nwebstorm\n  /opt/ws/bin/webstorm.sh\n  \u{2192} NOT FOUND\n"
    );
}

#[test]
fn toggling_an_app_twice_restores_states() {
    let mut app = two_apps();
    app.toggle_item(2);
    let before = app.check_states.clone();
    app.toggle_item(1);
    app.toggle_item(1);
    assert_eq!(app.check_states, before);
}

#[test]
fn list_down_then_up_returns() {
    let mut app = two_apps();
    for start in 0..3usize {
        app.selected = Some(start);
        app.move_list(1);
        app.move_list(-1);
        assert_eq!(app.selected, Some(start));
    }
}

#[test]
fn complete_apply_reports_each_app_then_done() {
    let mut app = two_apps();
    app.toggle_item(0);
    app.input_insert('x');
    let before_lines = app.lines.clone();
    let before_checks = app.check_states.clone();
    let reports = vec![
        AppReport { name: "idea".to_string(), resolved: true, results: vec![AppendResult::Appended] },
        AppReport { name: "webstorm".to_string(), resolved: false, results: Vec::new() },
    ];
    app.complete_apply(&reports, 5);
    assert_eq!(
        messages(&app),
        vec![
            ("idea: updated".to_string(), Severity::Info),
            ("webstorm: vmoptions not found".to_string(), Severity::Error),
            ("Done".to_string(), Severity::Info),
        ]
    );
    assert_eq!(app.lines, before_lines);
    assert_eq!(app.check_states, before_checks);
    assert_eq!(app.cursor_col, 1);
}

#[test]
fn notification_bar_shows_latest_first() {
    let mut app = two_apps();
    assert!(app.latest_notifications(NOTIFICATIONS_SHOWN).is_empty());
    for (i, sev) in [Severity::Info, Severity::Warning, Severity::Error, Severity::Info].into_iter().enumerate() {
        app.notify(&format!("m{i}"), sev, i as u64);
    }
    assert_eq!(
        app.latest_notifications(NOTIFICATIONS_SHOWN),
        vec![
            ("m3".to_string(), Severity::Info),
            ("m2".to_string(), Severity::Error),
            ("m1".to_string(), Severity::Warning),
        ]
    );
    assert_eq!(app.latest_notifications(10).len(), 4);
}

#[test]
fn list_index_at_reads_only_the_list_area() {
    let mut app = two_apps();
    app.layout = AppLayout {
        list_area: rect(u16::MAX - 4, u16::MAX - 5, 4, 5),
        apply_area: rect(u16::MAX, u16::MAX, 0, 0),
        quit_area: rect(u16::MAX, u16::MAX, 0, 0),
        preview_area: rect(u16::MAX, u16::MAX, 0, 0),
        input_area: rect(u16::MAX, u16::MAX, 0, 0),
    };
    assert_eq!(app.list_index_at(u16::MAX - 3, u16::MAX - 4), Some(0));
    assert_eq!(app.list_index_at(u16::MAX - 2, u16::MAX - 2), Some(2));
    assert_eq!(app.list_index_at(u16::MAX - 1, u16::MAX - 4), None);
    assert_eq!(app.list_index_at(u16::MAX - 4, u16::MAX - 4), None);
    assert_eq!(app.handle_mouse(u16::MAX, u16::MAX, MouseKind::LeftDown), Outcome::Continue);
}
