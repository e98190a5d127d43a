use jb_vmoptions_helper::app::App;

fn app_with(text: &str) -> App {
    App::new(&Vec::new(), Some(text.to_string()))
}

fn lines(app: &App) -> Vec<String> {
    app.lines.clone()
}

#[test]
fn new_without_text_has_one_empty_line() {
    let app = App::new(&Vec::new(), None);
    assert_eq!(lines(&app), vec![String::new()]);
    assert_eq!((app.cursor_row, app.cursor_col, app.input_scroll), (0, 0, 0));
}

#[test]
fn new_with_empty_text_has_one_empty_line() {
    let app = app_with("");
    assert_eq!(lines(&app), vec![String::new()]);
    assert_eq!((app.cursor_row, app.cursor_col), (0, 0));
}

#[test]
fn new_puts_cursor_at_end_of_text() {
    let app = app_with("-Xmx4g\n-Dfoo=bär");
    assert_eq!(lines(&app), vec!["-Xmx4g".to_string(), "-Dfoo=bär".to_string()]);
    assert_eq!(app.cursor_row, 1);
    assert_eq!(app.cursor_col, "-Dfoo=bär".len());
}

#[test]
fn new_splits_lines_like_str_lines() {
    let app = app_with("a\r\nb\n\nc\r");
    assert_eq!(lines(&app), vec!["a".to_string(), "b".to_string(), String::new(), "c\r".to_string()]);
    let app = app_with("x\n");
    assert_eq!(lines(&app), vec!["x".to_string()]);
}

#[test]
fn insert_multibyte_moves_cursor_by_its_width() {
    let mut app = app_with("ab");
    app.input_home();
    app.input_move_right();
    app.input_insert('é');
    assert_eq!(lines(&app), vec!["aéb".to_string()]);
    assert_eq!(app.cursor_col, 3);
    app.input_insert('€');
    assert_eq!(lines(&app), vec!["aé€b".to_string()]);
    assert_eq!(app.cursor_col, 6);
}

#[test]
fn newline_splits_line_at_cursor() {
    let mut app = app_with("-Xmx4g");
    app.input_home();
    app.input_move_right();
    app.input_move_right();
    app.input_scroll = 7;
    app.input_newline();
    assert_eq!(lines(&app), vec!["-X".to_string(), "mx4g".to_string()]);
    assert_eq!((app.cursor_row, app.cursor_col, app.input_scroll), (1, 0, 0));
}

#[test]
fn backspace_removes_whole_character() {
    let mut app = app_with("aé");
    app.input_backspace();
    assert_eq!(lines(&app), vec!["a".to_string()]);
    assert_eq!(app.cursor_col, 1);
}

#[test]
fn backspace_at_line_start_joins_lines() {
    let mut app = app_with("ab\ncd");
    app.input_home();
    app.input_backspace();
    assert_eq!(lines(&app), vec!["abcd".to_string()]);
    assert_eq!((app.cursor_row, app.cursor_col), (0, 2));
}

#[test]
fn backspace_at_text_start_does_nothing() {
    let mut app = app_with("ab");
    app.input_home();
    app.input_backspace();
    assert_eq!(lines(&app), vec!["ab".to_string()]);
    assert_eq!((app.cursor_row, app.cursor_col), (0, 0));
}

#[test]
fn delete_removes_character_at_cursor() {
    let mut app = app_with("aéb");
    app.input_home();
    app.input_move_right();
    app.input_delete();
    assert_eq!(lines(&app), vec!["ab".to_string()]);
    assert_eq!(app.cursor_col, 1);
}

#[test]
fn delete_at_line_end_joins_next_line() {
    let mut app = app_with("ab\ncd");
    app.input_move_up();
    app.input_end();
    app.input_delete();
    assert_eq!(lines(&app), vec!["abcd".to_string()]);
    assert_eq!((app.cursor_row, app.cursor_col), (0, 2));
}

#[test]
fn delete_at_text_end_does_nothing() {
    let mut app = app_with("ab");
    app.input_delete();
    assert_eq!(lines(&app), vec!["ab".to_string()]);
    assert_eq!(app.cursor_col, 2);
}

#[test]
fn left_and_right_step_over_characters_and_lines() {
    let mut app = app_with("é\nx");
    app.input_home();
    app.input_move_left();
    assert_eq!((app.cursor_row, app.cursor_col), (0, 2));
    app.input_move_left();
    assert_eq!((app.cursor_row, app.cursor_col), (0, 0));
    app.input_move_left();
    assert_eq!((app.cursor_row, app.cursor_col), (0, 0));
    app.input_move_right();
    assert_eq!((app.cursor_row, app.cursor_col), (0, 2));
    app.input_scroll = 3;
    app.input_move_right();
    assert_eq!((app.cursor_row, app.cursor_col, app.input_scroll), (1, 0, 0));
    app.input_move_right();
    app.input_move_right();
    assert_eq!((app.cursor_row, app.cursor_col), (1, 1));
}

#[test]
fn up_and_down_keep_column_on_a_boundary() {
    let mut app = app_with("aé\nabcd");
    app.input_home();
    app.input_move_right();
    app.input_move_right();
    assert_eq!(app.cursor_col, 2);
    app.input_move_up();
    assert_eq!((app.cursor_row, app.cursor_col), (0, 1));
    app.input_move_up();
    assert_eq!((app.cursor_row, app.cursor_col), (0, 1));
    app.input_end();
    assert_eq!(app.cursor_col, 3);
    app.input_move_down();
    assert_eq!((app.cursor_row, app.cursor_col), (1, 3));
    app.input_move_down();
    assert_eq!((app.cursor_row, app.cursor_col), (1, 3));
}

#[test]
fn home_resets_scroll_and_end_goes_to_line_end() {
    let mut app = app_with("abc");
    app.input_scroll = 2;
    app.input_home();
    assert_eq!((app.cursor_col, app.input_scroll), (0, 0));
    app.input_end();
    assert_eq!(app.cursor_col, 3);
}

#[test]
fn ensure_cursor_visible_scrolls_both_ways() {
    let mut app = app_with("0123456789");
    app.ensure_cursor_visible(5);
    assert_eq!(app.input_scroll, 6);
    app.input_home();
    app.input_scroll = 5;
    app.input_move_right();
    app.input_move_right();
    app.input_move_right();
    app.ensure_cursor_visible(5);
    assert_eq!(app.input_scroll, 3);
    app.ensure_cursor_visible(0);
    assert_eq!(app.input_scroll, 3);
    app.ensure_cursor_visible(4);
    assert_eq!(app.input_scroll, 3);
}

#[test]
fn options_are_trimmed_non_empty_lines() {
    let app = app_with("  -Xmx4g \n\n \t \n\t-Dfoo=1\u{3000}");
    assert_eq!(app.options(), vec!["-Xmx4g".to_string(), "-Dfoo=1".to_string()]);
    let app = app_with("   ");
    assert!(app.options().is_empty());
}

#[test]
fn backspace_after_insert_restores_text() {
    let mut app = app_with("ab\ncd");
    app.input_move_left();
    let before = (lines(&app), app.cursor_row, app.cursor_col);
    app.input_insert('ß');
    app.input_backspace();
    assert_eq!((lines(&app), app.cursor_row, app.cursor_col), before);
}

#[test]
fn backspace_after_newline_restores_text() {
    let mut app = app_with("abc\ndéf");
    app.input_move_left();
    let before = (lines(&app), app.cursor_row, app.cursor_col);
    app.input_newline();
    app.input_backspace();
    assert_eq!((lines(&app), app.cursor_row, app.cursor_col), before);
}

#[test]
fn left_after_right_restores_cursor() {
    let mut app = app_with("aé\nb");
    app.input_move_up();
    app.input_home();
    for _ in 0..3 {
        let before = (app.cursor_row, app.cursor_col);
        app.input_move_right();
        let after = (app.cursor_row, app.cursor_col);
        app.input_move_left();
        assert_eq!((app.cursor_row, app.cursor_col), before);
        app.input_move_right();
        assert_eq!((app.cursor_row, app.cursor_col), after);
    }
}

#[test]
fn visible_text_starts_at_scroll_offset() {
    let mut app = app_with("héllo\nab");
    app.input_scroll = 1;
    assert_eq!(app.visible_text(0), "éllo");
    assert_eq!(app.visible_text(1), "b");
    app.input_scroll = 3;
    assert_eq!(app.visible_text(1), "");
}

#[test]
fn cursor_line_splits_at_cursor() {
    let mut app = app_with("héllo");
    app.input_scroll = 1;
    app.cursor_col = 3;
    let c = app.cursor_line();
    assert_eq!((c.before.as_str(), c.cursor, c.after.as_str()), ("é", 'l', "lo"));
    app.input_end();
    let c = app.cursor_line();
    assert_eq!((c.before.as_str(), c.cursor, c.after.as_str()), ("éllo", ' ', ""));
    app.input_home();
    app.input_scroll = 1;
    let c = app.cursor_line();
    assert_eq!((c.before.as_str(), c.cursor, c.after.as_str()), ("", 'é', "llo"));
    app.input_scroll = 9;
    let c = app.cursor_line();
    assert_eq!((c.before.as_str(), c.cursor, c.after.as_str()), ("", ' ', ""));
}
