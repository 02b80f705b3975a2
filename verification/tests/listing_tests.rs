use hdu::backend::Platform;
use hdu::config::Config;
use hdu::scanner::Entry;
use hdu::ui::listing::{scan_rows, tree_listing, SCAN_ROWS};
use hdu::ui::AppUi;

fn leaf(path: &str, name: &str, size: u64) -> Entry {
    Entry::file(path.to_string(), name.to_string(), size, None)
}

fn tree() -> Entry {
    let sub = Entry::directory(
        "/r/sub".into(),
        "sub".into(),
        None,
        vec![leaf("/r/sub/a", "a", 1), leaf("/r/sub/b", "b", 3000)],
    )
    .unwrap();
    Entry::directory("/r".into(), "r".into(), None, vec![leaf("/r/x", "x", 10), sub, leaf("/r/y", "y", 2048)]).unwrap()
}

#[test]
fn tree_listing_goes_depth_first_largest_first() {
    let lines = tree_listing(&tree()).unwrap();
    assert_eq!(
        lines,
        [
            "4.94 KiB     r/",
            "  2.93 KiB     sub/",
            "    2.93 KiB     b",
            "    1 B          a",
            "  2.00 KiB     y",
            "  10 B         x",
        ]
    );
}

#[test]
fn tree_listing_of_a_file_is_one_line() {
    let lines = tree_listing(&leaf("/f", "f", 5)).unwrap();
    assert_eq!(lines, ["5 B          f"]);
}

#[test]
fn scan_rows_are_the_largest_sixty() {
    let root = tree();
    let rows = scan_rows(&root);
    let names: Vec<&str> = rows.iter().map(|&i| root.children[i].name.as_str()).collect();
    assert_eq!(names, ["sub", "y", "x"]);
    let many: Vec<Entry> = (0..75u64).map(|k| leaf(&format!("/m/{}", k), &k.to_string(), k)).collect();
    let big = Entry::directory("/m".into(), "m".into(), None, many).unwrap();
    let rows = scan_rows(&big);
    assert_eq!(rows.len(), SCAN_ROWS);
    assert_eq!(big.children[rows[0]].size, 74);
    assert_eq!(big.children[rows[59]].size, 15);
}

#[test]
fn scan_target_adds_the_names_entered() {
    let mut app = AppUi::new(Platform::Linux, &Config::default(), 1000);
    assert_eq!(app.scan_target(), ".");
    app.current_stack = vec!["a".into(), "b".into()];
    assert_eq!(app.scan_target(), "./a/b");
    app.scan_path = "/".into();
    assert_eq!(app.scan_target(), "/a/b");
    app.scan_path = "/home/".into();
    app.current_stack = vec!["u".into()];
    assert_eq!(app.scan_target(), "/home/u");
    assert!(app.listing_in_range());
    app.current_entries = vec![0];
    assert!(!app.listing_in_range());
}

#[test]
fn scan_target_follows_the_platform_path_rules() {
    let mut app = AppUi::new(hdu::backend::Platform::Windows, &Config::default(), 1000);
    app.scan_path = "C:\\foo".into();
    app.current_stack = vec!["bar".into(), "baz".into()];
    assert_eq!(app.scan_target(), "C:\\foo\\bar\\baz");
    app.scan_path = "C:\\".into();
    app.current_stack = vec!["bar".into()];
    assert_eq!(app.scan_target(), "C:\\bar");
    app.scan_path = "C:".into();
    assert_eq!(app.scan_target(), "C:bar");
    app.scan_path = "C:\\foo".into();
    app.current_stack = vec!["\\top".into()];
    assert_eq!(app.scan_target(), "C:\\top");
    app.current_stack = vec!["D:\\x".into()];
    assert_eq!(app.scan_target(), "D:\\x");
    let mut unix = AppUi::new(hdu::backend::Platform::Linux, &Config::default(), 1000);
    unix.scan_path = "/a".into();
    unix.current_stack = vec!["b\\c".into(), "/abs".into(), "d".into()];
    assert_eq!(unix.scan_target(), "/abs/d");
}
