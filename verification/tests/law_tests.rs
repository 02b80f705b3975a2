use hdu::backend::Platform;
use hdu::config::Config;
use hdu::scanner::{Entry, SortField, SortOrder};
use hdu::ui::theme::theme_from_name;
use hdu::ui::{AppMode, AppUi, Key, UiAction};

fn leaf(name: &str, size: u64) -> Entry {
    Entry::file(format!("./{}", name), name.to_string(), size, None)
}

fn root() -> Entry {
    let sub = Entry::directory("./sub".into(), "sub".into(), None, vec![leaf("deep", 7)]).unwrap();
    Entry::directory(
        ".".into(),
        ".".into(),
        None,
        vec![leaf("bravo", 30), leaf("Alpha", 10), sub, leaf("charlie", 20), leaf("echo", 20)],
    )
    .unwrap()
}

fn ready_app() -> AppUi {
    let mut app = AppUi::new(Platform::Linux, &Config::default(), 1000);
    app.finish_scan(Ok(root())).unwrap();
    app
}

fn listed(app: &AppUi) -> Vec<String> {
    app.current_entries.iter().map(|&i| app.root.children[i].name.clone()).collect()
}

#[test]
fn flipping_twice_restores_the_list() {
    let mut app = ready_app();
    let before = listed(&app);
    assert_eq!(before, ["bravo", "charlie", "echo", "Alpha", "sub"]);
    app.handle_key(Key::Char('S'));
    assert_eq!(app.sort_order, SortOrder::Asc);
    assert_eq!(listed(&app), ["sub", "Alpha", "charlie", "echo", "bravo"]);
    app.handle_key(Key::Char('S'));
    assert_eq!(app.sort_order, SortOrder::Desc);
    assert_eq!(listed(&app), before);
}

#[test]
fn cycling_the_sort_key_thrice_restores_the_list() {
    let mut app = ready_app();
    let before = listed(&app);
    for _ in 0..3 {
        app.handle_key(Key::Char('s'));
    }
    assert_eq!(app.sort_field, SortField::Size);
    assert_eq!(listed(&app), before);
}

#[test]
fn typing_then_erasing_restores_the_query() {
    let mut app = ready_app();
    app.handle_key(Key::Char('/'));
    app.handle_key(Key::Char('e'));
    assert_eq!(listed(&app), ["charlie", "echo"]);
    app.handle_key(Key::Char('x'));
    assert_eq!(listed(&app), Vec::<String>::new());
    app.handle_key(Key::Backspace);
    assert_eq!(app.search_query, "e");
    assert_eq!(app.mode, AppMode::Search);
    assert_eq!(listed(&app), ["charlie", "echo"]);
}

#[test]
fn entering_then_going_up_comes_back() {
    let mut app = ready_app();
    app.selected = Some(4);
    assert_eq!(app.handle_key(Key::Right), UiAction::Rescan);
    let sub = Entry::directory("./sub".into(), "sub".into(), None, vec![leaf("deep", 7)]).unwrap();
    app.finish_scan(Ok(sub)).unwrap();
    assert_eq!(app.header_text("1.0"), " hdu v1.0 | Linux | sub | Size\u{2193} | 1000ms ");
    assert_eq!(app.handle_key(Key::Backspace), UiAction::Rescan);
    assert!(app.current_stack.is_empty());
    assert_eq!(app.scan_path, ".");
}

#[test]
fn raising_then_lowering_the_rate_restores_it() {
    let mut app = ready_app();
    app.handle_key(Key::Char('+'));
    assert_eq!(app.refresh_rate, 1100);
    app.handle_key(Key::Char('-'));
    assert_eq!(app.refresh_rate, 1000);
    app.refresh_rate = 10000;
    app.handle_key(Key::Char('='));
    assert_eq!(app.refresh_rate, 10000);
    app.refresh_rate = 100;
    app.handle_key(Key::Char('_'));
    assert_eq!(app.refresh_rate, 100);
}

#[test]
fn ten_theme_changes_come_back_to_the_first() {
    let mut app = ready_app();
    assert_eq!(app.theme_name, "dark");
    let mut seen = Vec::new();
    for _ in 0..10 {
        assert_eq!(app.handle_key(Key::Char('T')), UiAction::SaveTheme);
        seen.push(app.theme_name.clone());
    }
    assert_eq!(
        seen,
        ["light", "gruvbox", "monokai", "solarized", "nord", "catppuccin", "dracula", "tokyo-night", "ayu-mirage", "dark"]
    );
    assert_eq!(app.theme, theme_from_name("dark"));
}

fn names_of(v: &[&Entry]) -> Vec<String> {
    v.iter().map(|e| e.name.clone()).collect()
}

#[test]
fn a_longer_query_keeps_part_of_what_a_shorter_keeps() {
    let v = vec![leaf("Report.PDF", 1), leaf("rep", 2), leaf("notes", 3), leaf("REPORT-old", 4), leaf("x", 5)];
    let short = hdu::scanner::filter_entries(&v, "rep");
    let long = hdu::scanner::filter_entries(&v, "RePort");
    assert_eq!(names_of(&short), ["Report.PDF", "rep", "REPORT-old"]);
    assert_eq!(names_of(&long), ["Report.PDF", "REPORT-old"]);
    let none = hdu::scanner::filter_entries(&v, "reportx");
    assert!(none.is_empty());
    assert_eq!(hdu::scanner::filter_entries(&v, "").len(), v.len());
}

fn check_scanned(e: &Entry) {
    if e.is_dir {
        assert_eq!(e.size, e.children.iter().map(|c| c.size).sum::<u64>());
        assert_eq!(e.item_count, e.children.iter().map(|c| c.item_count).sum::<u64>());
        for w in e.children.windows(2) {
            assert!(w[0].size >= w[1].size);
        }
    } else {
        assert!(e.children.is_empty());
        assert_eq!(e.item_count, 1);
    }
    for c in &e.children {
        check_scanned(c);
    }
}

#[test]
fn every_node_of_a_built_tree_holds_its_totals() {
    let r = root();
    check_scanned(&r);
    assert_eq!(r.size, 30 + 10 + 7 + 20 + 20);
    assert_eq!(r.item_count, 5);
    let empty = Entry::directory("/e".into(), "e".into(), None, vec![]).unwrap();
    check_scanned(&empty);
    assert_eq!(empty.item_count, 0);
}

#[test]
fn each_button_does_what_its_key_does() {
    let keys = [
        Key::Char('s'),
        Key::Char('/'),
        Key::Enter,
        Key::Backspace,
        Key::Char('d'),
        Key::Char('g'),
        Key::Char('r'),
        Key::Char('T'),
        Key::Char('+'),
        Key::Char('-'),
        Key::Char('q'),
    ];
    for (i, key) in keys.iter().enumerate() {
        let mut by_click = ready_app();
        let mut by_key = ready_app();
        by_click.selected = Some(4);
        by_key.selected = Some(4);
        let a = by_click.handle_button_click(i);
        let b = by_key.handle_key(*key);
        assert_eq!(a, b, "button {}", i);
        assert_eq!(by_click.pressed_button, Some(i));
        assert_eq!(by_key.pressed_button, None);
        assert_eq!(listed(&by_click), listed(&by_key), "button {}", i);
        assert_eq!(by_click.sort_field, by_key.sort_field);
        assert_eq!(by_click.mode, by_key.mode);
        assert_eq!(by_click.current_stack, by_key.current_stack);
        assert_eq!(by_click.scan_path, by_key.scan_path);
        assert_eq!(by_click.theme_name, by_key.theme_name);
        assert_eq!(by_click.refresh_rate, by_key.refresh_rate);
        assert_eq!(by_click.should_quit, by_key.should_quit);
        assert_eq!(by_click.selected, by_key.selected);
        if i == 5 {
            assert!(by_click.scanning);
            assert!(!by_key.scanning);
        } else {
            assert_eq!(by_click.scanning, by_key.scanning, "button {}", i);
        }
    }
}
