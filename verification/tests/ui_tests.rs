use hdu::backend::Platform;
use hdu::config::Config;
use hdu::scanner::{Entry, SortField, SortOrder};
use hdu::ui::theme::{theme_from_name, theme_name_at, Color, Theme};
use hdu::ui::{button_layout, button_span, detail_lines, terminal_fits, items_text, scan_line, tree_line, AppMode, AppUi, Key, MouseKind, UiAction};

fn leaf(name: &str, size: u64) -> Entry {
    Entry::file(format!("./{}", name), name.to_string(), size, None)
}

fn sample_root() -> Entry {
    let sub = Entry::directory("./sub".into(), "sub".into(), None, vec![leaf("deep", 7)]).unwrap();
    Entry::directory(
        ".".into(),
        ".".into(),
        None,
        vec![leaf("bravo", 30), leaf("Alpha", 10), sub, leaf("charlie", 20)],
    )
    .unwrap()
}

fn ready_app() -> AppUi {
    let mut app = AppUi::new(Platform::Linux, &Config::default(), 1000);
    assert!(app.scanning);
    assert!(app.finish_scan(Ok(sample_root())).is_ok());
    app
}

fn listed(app: &AppUi) -> Vec<String> {
    app.current_entries.iter().map(|&i| app.root.children[i].name.clone()).collect()
}

#[test]
fn new_view_follows_configuration() {
    let mut config = Config::default();
    config.settings.sort_by = "name".into();
    config.settings.sort_order = "asc".into();
    config.settings.theme = "nord".into();
    let app = AppUi::new(Platform::Windows, &config, 500);
    assert_eq!(app.sort_field, SortField::Name);
    assert_eq!(app.sort_order, SortOrder::Asc);
    assert_eq!(app.theme_name, "nord");
    assert_eq!(app.theme, Theme::nord());
    assert_eq!(app.refresh_rate, 500);
    assert_eq!(app.scan_path, ".");
    let app = AppUi::new(Platform::Linux, &Config::default(), 1000);
    assert_eq!(app.sort_field, SortField::Size);
    assert_eq!(app.sort_order, SortOrder::Desc);
    assert_eq!(app.theme, Theme::dark());
}

#[test]
fn scan_result_lists_children_by_size() {
    let app = ready_app();
    assert!(!app.scanning);
    assert_eq!(listed(&app), ["bravo", "charlie", "Alpha", "sub"]);
    let mut app = AppUi::new(Platform::Linux, &Config::default(), 1000);
    let err = app.finish_scan(Err("denied".into())).unwrap_err();
    assert_eq!(err, "Scan error: denied");
    assert!(!app.scanning);
}

#[test]
fn keys_move_the_selection_and_wrap() {
    let mut app = ready_app();
    assert_eq!(app.handle_key(Key::Down), UiAction::Nothing);
    assert_eq!(app.selected, Some(1));
    app.handle_key(Key::Up);
    app.handle_key(Key::Up);
    assert_eq!(app.selected, Some(3));
    app.handle_key(Key::Char('j'));
    assert_eq!(app.selected, Some(0));
    app.handle_key(Key::End);
    assert_eq!(app.selected, Some(3));
    app.handle_key(Key::Home);
    assert_eq!(app.selected, Some(0));
    app.handle_key(Key::PageDown);
    assert_eq!(app.selected, Some(0));
    app.handle_key(Key::PageUp);
    assert_eq!(app.selected, Some(0));
}

#[test]
fn sort_keys_cycle_and_flip() {
    let mut app = ready_app();
    app.handle_key(Key::Char('s'));
    assert_eq!(app.sort_field, SortField::Name);
    assert_eq!(listed(&app), ["sub", "charlie", "bravo", "Alpha"]);
    app.handle_key(Key::Char('S'));
    assert_eq!(app.sort_order, SortOrder::Asc);
    assert_eq!(listed(&app), ["Alpha", "bravo", "charlie", "sub"]);
    app.handle_key(Key::Char('s'));
    assert_eq!(app.sort_field, SortField::Count);
    app.handle_key(Key::Char('s'));
    assert_eq!(app.sort_field, SortField::Size);
}

#[test]
fn search_filters_and_escape_clears() {
    let mut app = ready_app();
    app.handle_key(Key::Char('/'));
    assert_eq!(app.mode, AppMode::Search);
    app.handle_key(Key::Char('A'));
    assert_eq!(listed(&app), ["bravo", "charlie", "Alpha"]);
    app.handle_key(Key::Char('r'));
    assert_eq!(listed(&app), ["charlie"]);
    assert_eq!(app.table_title(), " Contents (1/4) ");
    app.handle_key(Key::Backspace);
    assert_eq!(app.search_query, "A");
    app.handle_key(Key::Enter);
    assert_eq!(app.mode, AppMode::List);
    assert_eq!(app.search_query, "A");
    app.handle_key(Key::Char('/'));
    app.handle_key(Key::Esc);
    assert_eq!(app.mode, AppMode::List);
    assert_eq!(listed(&app).len(), 4);
    assert_eq!(app.table_title(), " Contents (4) ");
}

#[test]
fn entering_and_leaving_directories() {
    let mut app = ready_app();
    app.selected = Some(3);
    assert_eq!(app.handle_key(Key::Enter), UiAction::Rescan);
    assert_eq!(app.current_stack, ["sub"]);
    assert!(app.scanning);
    assert_eq!(app.handle_key(Key::Down), UiAction::Nothing);
    let sub = Entry::directory("./sub".into(), "sub".into(), None, vec![leaf("deep", 7)]).unwrap();
    app.finish_scan(Ok(sub)).unwrap();
    assert_eq!(listed(&app), ["deep"]);
    assert_eq!(app.handle_key(Key::Enter), UiAction::Nothing);
    assert_eq!(app.handle_key(Key::Left), UiAction::Rescan);
    assert!(app.current_stack.is_empty());
    app.finish_scan(Ok(sample_root())).unwrap();
    assert_eq!(app.handle_key(Key::Backspace), UiAction::ResolveParent);
    assert_eq!(app.ascend(Some("/home".into())), UiAction::Rescan);
    assert_eq!(app.scan_path, "/home");
    assert!(app.scanning);
    app.finish_scan(Ok(sample_root())).unwrap();
    assert_eq!(app.ascend(None), UiAction::Nothing);
}

#[test]
fn details_rates_themes_and_quit() {
    let mut app = ready_app();
    app.handle_key(Key::Char('d'));
    assert_eq!(app.mode, AppMode::List);
    app.selected = Some(0);
    app.handle_key(Key::Char('d'));
    assert_eq!(app.mode, AppMode::Detail);
    app.handle_key(Key::Char('j'));
    app.handle_key(Key::Down);
    assert_eq!(app.detail_scroll, 2);
    app.handle_key(Key::Up);
    assert_eq!(app.detail_scroll, 1);
    app.handle_key(Key::Char('q'));
    assert_eq!(app.mode, AppMode::List);
    assert!(!app.should_quit);
    app.handle_key(Key::Char('+'));
    assert_eq!(app.refresh_rate, 1100);
    app.refresh_rate = 9950;
    app.handle_key(Key::Char('='));
    assert_eq!(app.refresh_rate, 10000);
    app.refresh_rate = 150;
    app.handle_key(Key::Char('-'));
    assert_eq!(app.refresh_rate, 100);
    app.refresh_rate = u64::MAX - 10;
    assert_eq!(app.handle_key(Key::Char('+')), UiAction::Overflow);
    app.refresh_rate = 1000;
    assert_eq!(app.handle_key(Key::Char('T')), UiAction::SaveTheme);
    assert_eq!(app.theme_name, "light");
    assert_eq!(app.theme, Theme::light());
    app.theme_name = "ayu-mirage".into();
    app.handle_key(Key::Char('T'));
    assert_eq!(app.theme_name, "dark");
    app.theme_name = "unknown".into();
    app.handle_key(Key::Char('T'));
    assert_eq!(app.theme_name, "dark");
    assert_eq!(app.handle_key(Key::Char('g')), UiAction::Rescan);
    assert_eq!(app.scan_path, ".");
    assert_eq!(app.handle_key(Key::Char('r')), UiAction::Rescan);
    app.handle_key(Key::Esc);
    assert!(app.should_quit);
}

#[test]
fn mouse_clicks_rows_buttons_and_headers() {
    let mut app = ready_app();
    app.set_columns(1, 80);
    assert_eq!(app.col_starts, [2, 14, 56, 66, 78]);
    // a click on the third row selects it, a quick second one enters nothing (a file)
    assert_eq!(app.handle_mouse(MouseKind::LeftDown, 20, 8, 80, 24, 1_000), UiAction::Nothing);
    assert_eq!(app.selected, Some(2));
    // double click on "sub" (fourth row) enters it
    app.handle_mouse(MouseKind::LeftDown, 20, 9, 80, 24, 2_000_000_000);
    assert_eq!(app.handle_mouse(MouseKind::LeftDown, 20, 9, 80, 24, 2_100_000_000), UiAction::Rescan);
    assert_eq!(app.current_stack, ["sub"]);
    app.finish_scan(Ok(sample_root())).unwrap();
    // header: name column orders by name, a second click flips
    app.handle_mouse(MouseKind::LeftDown, 20, 5, 80, 24, 0);
    assert_eq!(app.sort_field, SortField::Name);
    app.handle_mouse(MouseKind::LeftDown, 20, 5, 80, 24, 0);
    assert_eq!(app.sort_order, SortOrder::Asc);
    // the last button of the bar quits
    let (per, off) = button_layout(78);
    assert_eq!((per, off), (7, 0));
    let col = 1 + off + 10 * per + 1;
    app.handle_mouse(MouseKind::LeftDown, col, 21, 80, 24, 0);
    assert_eq!(app.pressed_button, Some(10));
    assert!(app.should_quit);
    app.handle_mouse(MouseKind::ScrollDown, 0, 0, 80, 24, 0);
    assert_eq!(app.selected, Some(3));
}

#[test]
fn buttons_do_what_their_keys_do() {
    let mut app = ready_app();
    assert_eq!(app.handle_button_click(0), UiAction::Nothing);
    assert_eq!(app.sort_field, SortField::Name);
    assert_eq!(app.handle_button_click(5), UiAction::Rescan);
    assert!(app.scanning);
    assert_eq!(app.handle_button_click(6), UiAction::Nothing);
    app.finish_scan(Ok(sample_root())).unwrap();
    assert_eq!(app.handle_button_click(8), UiAction::Nothing);
    assert_eq!(app.refresh_rate, 1100);
    assert_eq!(app.handle_button_click(7), UiAction::SaveTheme);
    assert_eq!(app.handle_button_click(3), UiAction::ResolveParent);
}

#[test]
fn texts_of_the_view() {
    let mut app = ready_app();
    assert_eq!(app.header_text("0.1.0"), " hdu v0.1.0 | Linux | . | Size\u{2193} | 1000ms ");
    app.current_stack = vec!["a".into(), "b".into()];
    app.sort_order = SortOrder::Asc;
    assert_eq!(app.header_text("2"), " hdu v2 | Linux | a/b | Size\u{2191} | 1000ms ");
    assert_eq!(app.column_header("SIZE", SortField::Size), " SIZE\u{2191} ");
    assert_eq!(app.column_header("NAME", SortField::Name), " NAME ");
    assert_eq!(app.dir_info_text(), " .  4 items  67 B ");
    assert_eq!(app.sort_field_label(), "Size");
    assert_eq!(app.table_top(), 6);
    assert_eq!(app.current_dir_size(), 67);
    let f = leaf("notes", 2048);
    assert_eq!(items_text(&f), "-");
    assert_eq!(tree_line(&f, 2), "    2.00 KiB     notes");
    assert_eq!(scan_line(&f), format!("{:<12} {:<6} {:<50} ", "2.00 KiB", "-", "notes"));
    let lines = detail_lines(&f);
    assert_eq!(lines[0], " Name:       notes");
    assert_eq!(lines[1], " Type:       File");
    assert_eq!(lines[2], " Size:       2.00 KiB");
    assert_eq!(lines[3], " Items:      1");
    assert_eq!(lines[4], " Path:       ./notes");
}

#[test]
fn disks_and_timing() {
    let mut app = ready_app();
    app.disks = vec![
        hdu::system::disk_usage_from_stats("/boot", 1, 0, 1).unwrap(),
        hdu::system::disk_usage_from_stats("/home/", 1, 0, 1).unwrap(),
    ];
    app.scan_path = "/home/user".into();
    assert_eq!(app.find_disk(), Some(1));
    app.scan_path = "/tmp".into();
    assert_eq!(app.find_disk(), None);
    app.last_tick = 1_000;
    assert!(!app.tick_due(1_000 + 999_999_999));
    assert!(app.tick_due(1_000 + 1_000_000_000));
    assert_eq!(app.poll_timeout(1_000 + 400_000_000), 600_000_000);
    assert_eq!(app.poll_timeout(0), 1_000_000_000);
    app.notification = Some(("hi".into(), 50));
    app.expire_notification(49);
    assert!(app.notification.is_some());
    app.expire_notification(50);
    assert!(app.notification.is_none());
}

#[test]
fn themes_by_name() {
    assert_eq!(theme_from_name("dracula"), Theme::dracula());
    assert_eq!(theme_from_name("tokyo-night"), Theme::tokyo_night());
    assert_eq!(theme_from_name("nope"), Theme::dark());
    assert_eq!(theme_name_at(9), "ayu-mirage");
    assert_eq!(Theme::gruvbox().header, Color::Rgb(0xfe, 0x80, 0x19));
    assert_eq!(Theme::light().file, Color::Black);
}

#[test]
fn buttons_are_drawn_where_clicks_find_them() {
    // a bar 78 columns wide at column 1: buttons of 7 columns, not moved
    assert_eq!(button_span(1, 78, 0), Some((1, 7)));
    assert_eq!(button_span(1, 78, 10), Some((71, 7)));
    // a wide bar: buttons of 10 columns, centred
    assert_eq!(button_layout(200), (10, 45));
    assert_eq!(button_span(0, 200, 3), Some((75, 10)));
    // a narrow bar: the last buttons are cut at its end
    assert_eq!(button_span(0, 40, 6), Some((36, 4)));
    assert_eq!(button_span(0, 40, 7), Some((42, 0)));
    assert_eq!(button_span(u16::MAX - 5, 40, 1), None);
    assert!(terminal_fits(50, 10));
    assert!(!terminal_fits(49, 30));
    assert!(!terminal_fits(120, 9));
}
