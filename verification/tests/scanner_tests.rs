use hdu::scanner::{
    filter_entries, find_child, find_child_mut, find_entry_by_path, sort_entries, sort_order, Entry,
    SortField, SortOrder,
};

fn leaf(name: &str, size: u64) -> Entry {
    Entry::file(format!("/x/{}", name), name.to_string(), size, None)
}

fn dir(name: &str, children: Vec<Entry>) -> Entry {
    Entry::directory(format!("/x/{}", name), name.to_string(), None, children).unwrap()
}

fn names(v: &[Entry]) -> Vec<String> {
    v.iter().map(|e| e.name.clone()).collect()
}

#[test]
fn sort_is_stable_for_equal_keys() {
    let mut v = vec![leaf("a", 5), leaf("b", 7), leaf("c", 5), leaf("d", 7), leaf("e", 1)];
    sort_entries(&mut v, SortField::Size, SortOrder::Desc);
    assert_eq!(names(&v), ["b", "d", "a", "c", "e"]);
    let mut v = vec![leaf("a", 5), leaf("b", 7), leaf("c", 5), leaf("d", 7), leaf("e", 1)];
    sort_entries(&mut v, SortField::Size, SortOrder::Asc);
    assert_eq!(names(&v), ["e", "a", "c", "b", "d"]);
}

#[test]
fn sort_by_name_ignores_case() {
    let mut v = vec![leaf("beta", 1), leaf("Alpha", 1), leaf("gamma", 1), leaf("ALPHA", 1), leaf("Delta", 1)];
    sort_entries(&mut v, SortField::Name, SortOrder::Asc);
    assert_eq!(names(&v), ["Alpha", "ALPHA", "beta", "Delta", "gamma"]);
    sort_entries(&mut v, SortField::Name, SortOrder::Desc);
    assert_eq!(names(&v), ["gamma", "Delta", "beta", "Alpha", "ALPHA"]);
}

#[test]
fn sort_by_count() {
    let mut v = vec![
        dir("one", vec![leaf("x", 1)]),
        dir("three", vec![leaf("x", 1), leaf("y", 1), leaf("z", 1)]),
        dir("two", vec![leaf("x", 1), leaf("y", 1)]),
    ];
    sort_entries(&mut v, SortField::Count, SortOrder::Desc);
    assert_eq!(names(&v), ["three", "two", "one"]);
    let order = sort_order(&v, SortField::Count, SortOrder::Asc);
    assert_eq!(order, [2, 1, 0]);
}

#[test]
fn sort_order_lists_positions() {
    let v = vec![leaf("a", 3), leaf("b", 9), leaf("c", 3), leaf("d", 1)];
    assert_eq!(sort_order(&v, SortField::Size, SortOrder::Desc), [1, 0, 2, 3]);
    assert_eq!(sort_order(&v, SortField::Size, SortOrder::Asc), [3, 0, 2, 1]);
    assert_eq!(sort_order(&[], SortField::Name, SortOrder::Asc), Vec::<usize>::new());
}

#[test]
fn directory_sums_and_orders_children() {
    let d = dir("d", vec![leaf("small", 10), leaf("big", 300), dir("sub", vec![leaf("q", 50), leaf("r", 5)])]);
    assert!(d.is_dir);
    assert_eq!(d.size, 365);
    assert_eq!(d.item_count, 4);
    assert_eq!(names(&d.children), ["big", "sub", "small"]);
    let empty = dir("e", vec![]);
    assert_eq!(empty.size, 0);
    assert_eq!(empty.item_count, 0);
}

#[test]
fn directory_refuses_overflowing_totals() {
    let r = Entry::directory("/d".to_string(), "d".to_string(), None, vec![leaf("a", u64::MAX), leaf("b", 1)]);
    assert!(r.is_none());
    let r = Entry::directory("/d".to_string(), "d".to_string(), None, vec![leaf("a", u64::MAX - 1), leaf("b", 1)]);
    assert_eq!(r.unwrap().size, u64::MAX);
}

#[test]
fn file_entry_is_one_item() {
    let f = leaf("f", 42);
    assert!(!f.is_dir);
    assert_eq!(f.item_count, 1);
    assert_eq!(f.size, 42);
    assert!(f.children.is_empty());
    assert_eq!(f.path, "/x/f");
}

#[test]
fn clone_copies_the_tree() {
    let d = dir("d", vec![leaf("a", 1), dir("s", vec![leaf("b", 2)])]);
    let c = d.clone();
    assert_eq!(c.name, "d");
    assert_eq!(c.size, d.size);
    assert_eq!(names(&c.children), names(&d.children));
    assert_eq!(names(&c.children), ["s", "a"]);
    assert_eq!(c.children[0].children[0].name, "b");
    assert_eq!(c.children[0].children[0].size, 2);
}

#[test]
fn filter_matches_substrings_ignoring_case() {
    let v = vec![leaf("Report.PDF", 1), leaf("notes.txt", 1), leaf("pdf-guide", 1), leaf("x", 1)];
    let f = filter_entries(&v, "PdF");
    assert_eq!(f.iter().map(|e| e.name.as_str()).collect::<Vec<_>>(), ["Report.PDF", "pdf-guide"]);
    assert_eq!(filter_entries(&v, "zzz").len(), 0);
    assert_eq!(filter_entries(&v, "").len(), 4);
}

#[test]
fn find_child_takes_the_first_match() {
    let d = Entry {
        path: "/d".into(),
        name: "d".into(),
        size: 3,
        is_dir: true,
        children: vec![leaf("a", 1), leaf("b", 2), leaf("b", 3)],
        item_count: 3,
        modified: None,
    };
    assert_eq!(find_child(&d, "b").unwrap().size, 2);
    assert!(find_child(&d, "c").is_none());
    assert!(find_child(&d, "B").is_none());
}

#[test]
fn find_child_mut_changes_the_child() {
    let mut d = dir("d", vec![leaf("a", 1), leaf("b", 2)]);
    find_child_mut(&mut d, "a").unwrap().size = 99;
    assert_eq!(find_child(&d, "a").unwrap().size, 99);
    assert!(find_child_mut(&mut d, "zz").is_none());
}

#[test]
fn find_entry_by_path_descends() {
    let root = dir("r", vec![dir("x", vec![dir("y", vec![leaf("z", 4)])]), leaf("w", 1)]);
    let p = vec!["x".to_string(), "y".to_string(), "z".to_string()];
    assert_eq!(find_entry_by_path(&root, &p).unwrap().size, 4);
    assert_eq!(find_entry_by_path(&root, &[]).unwrap().name, "r");
    assert!(find_entry_by_path(&root, &["x".to_string(), "q".to_string()]).is_none());
}

#[test]
fn following_a_path_in_two_parts() {
    let root = dir("r", vec![dir("x", vec![dir("y", vec![leaf("z", 4)])]), leaf("w", 1)]);
    let p = vec!["x".to_string()];
    let q = vec!["y".to_string(), "z".to_string()];
    let whole: Vec<String> = p.iter().chain(q.iter()).cloned().collect();
    let mid = find_entry_by_path(&root, &p).unwrap();
    assert_eq!(find_entry_by_path(mid, &q).unwrap().path, find_entry_by_path(&root, &whole).unwrap().path);
    let bad = vec!["w".to_string()];
    assert!(find_entry_by_path(&root, &bad).is_some());
    assert!(find_entry_by_path(&root, &["w".to_string(), "y".to_string()]).is_none());
}

#[test]
fn find_child_mut_without_a_change_leaves_the_entry() {
    let mut d = dir("d", vec![leaf("a", 1), leaf("b", 2)]);
    let before = names(&d.children);
    assert_eq!(find_child_mut(&mut d, "b").unwrap().size, 2);
    assert_eq!(names(&d.children), before);
    assert_eq!(find_child(&d, "b").unwrap().size, 2);
    assert_eq!(d.size, 3);
}
