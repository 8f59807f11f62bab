use info::browse::{
    add_sizes, areas, clamp_column, cut_to_column, display_name, display_name_width, header,
    highlight, lay_out_row, name_width, render_entry, Action, App, Body, Scan,
};
use info::input::Key;
use info::layout::Rect;
use info::path;
use info::scan::{dir_size, list_directory, FileEntry, Found, Item, Kind};
use info::style::{Color, Style};
use info::width::{fill_to, find_within, fitting, pad_right, truncate_to_width};
use std::path::Path;

fn item(name: &str, kind: Kind, size: Option<u64>) -> Item {
    Item { name: name.to_string(), file_name: name.as_bytes().to_vec(), kind, size }
}

fn entry(name: &str, is_dir: bool, size: u64) -> FileEntry {
    FileEntry { name: name.to_string(), path: name.as_bytes().to_vec(), is_dir, size }
}

#[test]
fn a_directory_is_listed_by_size() {
    let items = vec![
        item("a", Kind::File, Some(5)),
        item("b", Kind::Dir, Some(50)),
        item("link", Kind::Symlink, Some(500)),
        item("c", Kind::File, Some(5)),
        item("lost", Kind::File, None),
        item("pipe", Kind::Other, Some(500)),
        item("what", Kind::Unknown, None),
        item("d", Kind::File, Some(7)),
    ];
    let listing = list_directory(b"/x/", Some(&items));
    let rows: Vec<(&str, &[u8], bool, u64)> = listing
        .iter()
        .map(|e| (e.name.as_str(), e.path.as_slice(), e.is_dir, e.size))
        .collect();
    assert_eq!(
        rows,
        vec![
            ("b", &b"/x/b"[..], true, 50),
            ("d", b"/x/d", false, 7),
            ("a", b"/x/a", false, 5),
            ("c", b"/x/c", false, 5),
            ("lost", b"/x/lost", false, 0),
        ]
    );
    assert!(list_directory(b"/x", None).is_empty());
    assert_eq!(list_directory(b"/x", Some(&items))[0].path, b"/x/b");
}

#[test]
fn a_listing_is_stable_and_complete() {
    let items: Vec<Item> =
        (0..500u64).map(|i| item(&format!("{i}"), Kind::File, Some(i * 7 % 13))).collect();
    let listing = list_directory(b"", Some(&items));
    let mut expected: Vec<(u64, u64)> = (0..500u64).map(|i| (i * 7 % 13, i)).collect();
    expected.sort_by_key(|e| std::cmp::Reverse(e.0));
    let names: Vec<String> = listing.iter().map(|e| e.name.clone()).collect();
    assert_eq!(names, expected.iter().map(|e| format!("{}", e.1)).collect::<Vec<String>>());
}

#[test]
fn the_files_of_a_tree_add_up() {
    assert_eq!(dir_size(&vec![]), Some(0));
    assert_eq!(
        dir_size(&vec![Found::Other, Found::File(Some(3)), Found::Unreadable, Found::File(None), Found::File(Some(4))]),
        Some(7)
    );
    assert_eq!(dir_size(&vec![Found::File(Some(u64::MAX)), Found::File(Some(1))]), None);
    assert_eq!(dir_size(&vec![Found::File(Some(u64::MAX)), Found::File(Some(0))]), Some(u64::MAX));
}

#[test]
fn parents_are_those_of_std() {
    for p in [
        "", "/", "//", "/.", ".", "./", "./.", "..", "../", "a", "a/", "a/.", "a//", "/a", "//a", "/a/", "/a/b",
        "/a//b", "/a/./b", "/a/b/.", "./a", "././a", "a/b", "a/../b", "a/b//./c/.//", "/..", "/../a", ".a/b", "/./a",
        "日本/語", ".../x",
    ] {
        let ours = path::parent(p.as_bytes()).map(|q| String::from_utf8(q.to_vec()).unwrap());
        let theirs = Path::new(p).parent().map(|q| q.to_str().unwrap().to_string());
        assert_eq!(ours, theirs, "{p}");
        for q in ["", "/", "a", "a/b", "/a/b", "./a", ".", "/a", "a/b/c"] {
            assert_eq!(
                path::same_path(p.as_bytes(), q.as_bytes()),
                Path::new(p) == Path::new(q),
                "{p} {q}"
            );
            assert_eq!(
                String::from_utf8(path::join(p.as_bytes(), q.as_bytes())).unwrap(),
                Path::new(p).join(q).to_str().unwrap(),
                "{p} {q}"
            );
        }
    }
}

fn browser() -> App {
    let mut app = App::new(b"/home".to_vec(), true);
    let listing = list_directory(
        b"/home",
        Some(&vec![
            item("u", Kind::Dir, Some(9)),
            item("f", Kind::File, Some(5)),
            item("g", Kind::File, Some(1)),
        ]),
    );
    app.poll_result(Scan::Done(listing));
    app
}

#[test]
fn starts_in_a_directory() {
    let app = App::new(b"/home/u".to_vec(), true);
    assert_eq!((app.target.as_slice(), app.root.as_slice()), (&b"/home/u"[..], &b"/home/u"[..]));
    assert!(app.loading);
    let app = App::new(b"/home/u/file".to_vec(), false);
    assert_eq!(app.target, b"/home/u");
    let app = App::new(b"/".to_vec(), false);
    assert_eq!(app.target, b"/");
    let app = App::new(b"gone".to_vec(), false);
    assert_eq!(app.target, b"");
}

#[test]
fn scan_results_are_taken_once() {
    let mut app = App::new(b"/home".to_vec(), true);
    app.poll_result(Scan::Pending);
    assert!(app.loading);
    app.poll_result(Scan::Lost);
    assert!(!app.loading);
    assert!(app.entries.is_empty());
    app.poll_result(Scan::Done(vec![entry("late", false, 1)]));
    assert!(app.entries.is_empty());
    assert_eq!(browser().entries.len(), 3);
}

#[test]
fn the_cursor_goes_round() {
    let mut app = browser();
    assert_eq!(app.handle_key(Key::Up, false), Action::Stay);
    assert_eq!(app.selected, 2);
    assert_eq!(app.handle_key(Key::Down, false), Action::Stay);
    assert_eq!(app.selected, 0);
    app.handle_key(Key::Char('j'), false);
    app.handle_key(Key::Char('j'), false);
    app.handle_key(Key::Char('k'), false);
    assert_eq!(app.selected, 1);
    app.move_cursor(-7);
    assert_eq!(app.selected, 0);
    app.move_cursor(7);
    assert_eq!(app.selected, 1);
    let mut empty = App::new(b"/".to_vec(), true);
    empty.move_cursor(1);
    assert_eq!(empty.selected, 0);
}

#[test]
fn down_and_up_again() {
    let mut app = browser();
    assert_eq!(app.handle_key(Key::Esc, false), Action::Stay);
    assert_eq!(app.target, b"/home");
    assert_eq!(app.handle_key(Key::Enter, false), Action::Scan);
    assert_eq!(app.target, b"/home/u");
    assert!(app.loading);
    assert!(app.entries.is_empty());
    assert_eq!(app.handle_key(Key::Right, false), Action::Stay);
    assert_eq!(app.handle_key(Key::Backspace, false), Action::Scan);
    assert_eq!(app.target, b"/home");
    assert_eq!(app.handle_key(Key::Left, false), Action::Stay);
    assert_eq!(app.target, b"/home");
}

#[test]
fn a_file_is_not_gone_into() {
    let mut app = browser();
    app.move_cursor(1);
    assert_eq!(app.handle_key(Key::Enter, false), Action::Stay);
    assert_eq!(app.target, b"/home");
    assert_eq!(app.handle_key(Key::Char('q'), false), Action::Quit);
    assert_eq!(app.handle_key(Key::Char('c'), true), Action::Quit);
    assert_eq!(app.handle_key(Key::Char('c'), false), Action::Stay);
    assert_eq!(app.handle_key(Key::Tab, false), Action::Stay);
}

fn rows(app: &App) -> Vec<String> {
    match app.body() {
        Body::Rows(v) => v,
        Body::Note(s) => vec![s],
    }
}

#[test]
fn entries_stand_in_columns() {
    let app = browser();
    assert_eq!(rows(&app), vec!["  u/          9B", "  f           5B", "  g           1B"]);
    assert_eq!(
        app.footer().unwrap(),
        "3 项 · 合计      15B     [↑↓/jk]移动  [Enter]进入  [Esc]返回  [q]退出"
    );
    let mut empty = App::new(b"/".to_vec(), true);
    assert_eq!(rows(&empty), vec!["正在扫描占用，请稍候…"]);
    assert_eq!(empty.footer().unwrap(), "[Esc] 取消  [q] 退出");
    empty.poll_result(Scan::Lost);
    assert_eq!(rows(&empty), vec!["(目录为空或无法读取)"]);
    assert!(empty.footer().unwrap().starts_with("0 项 · 合计       0B  "));
}

#[test]
fn names_take_the_room_they_need() {
    assert_eq!(display_name(&entry("dir", true, 0)), "dir/");
    assert_eq!(display_name(&entry("file", false, 0)), "file");
    assert_eq!(display_name_width(&entry("文件", true, 0)), 5);
    assert_eq!(name_width(&vec![entry("a", false, 0), entry("文件", false, 0)]), 4);
    assert_eq!(name_width(&vec![entry(&"x".repeat(99), false, 0)]), 40);
    assert_eq!(name_width(&vec![]), 1);
    assert_eq!(clamp_column(&vec![0, 0]), 1);
    assert_eq!(clamp_column(&vec![3, 41, 7]), 40);
    assert_eq!(clamp_column(&vec![3, 9, 7]), 9);
    assert_eq!(render_entry(&entry("文件", false, 1024), 6), "  文件        1.0KiB");
    assert_eq!(render_entry(&entry("abcdefgh", false, 1), 5), "  abcd…          1B");
    assert_eq!(render_entry(&entry("文件文件", false, 1), 6), "  文件…           1B");
    assert_eq!(lay_out_row("ab", 2, 3, "7B"), "  ab           7B");
    assert_eq!(cut_to_column("abc".to_string(), 3, 3), "abc");
    assert_eq!(cut_to_column("abc".to_string(), 3, 2), "a…");
    assert_eq!(cut_to_column("abc".to_string(), 3, 1), "…");
    assert_eq!(cut_to_column("abc".to_string(), 3, 0), "");
}

#[test]
fn names_that_are_wider_as_texts_fit_too() {
    // a control character takes no cell on its own, and one in a text
    let odd = entry(&"\u{1}".repeat(50), false, 1);
    let row = format!("  {}…          1B", "\u{1}".repeat(39));
    assert_eq!(render_entry(&odd, 40), row);
    let mut app = App::new(b"/".to_vec(), true);
    app.poll_result(Scan::Done(vec![odd, entry("ok", false, 1)]));
    assert_eq!(rows(&app), vec![row, format!("  ok{}          1B", " ".repeat(38))]);
    // a heart takes one cell, and two with the selector behind it
    let heart = "\u{2764}\u{fe0f}".repeat(3);
    assert_eq!(display_name_width(&entry(&heart, false, 0)), 6);
    assert_eq!(cut_to_column(heart.clone(), 6, 5), "\u{2764}\u{fe0f}\u{2764}\u{fe0f}…");
    assert_eq!(cut_to_column(heart, 6, 4), "\u{2764}\u{fe0f}\u{2764}…");
    assert_eq!(pad_right("…", 3), "…  ");
    assert_eq!(pad_right("", 2), "  ");
    assert_eq!(find_within(&vec![1, 2, 3, 5], 3), Some(2));
    assert_eq!(find_within(&vec![1, 4, 2, 5], 3), Some(2));
    assert_eq!(find_within(&vec![4, 5], 3), None);
    assert_eq!(find_within(&vec![], 3), None);
}

#[test]
fn sizes_that_do_not_add_up() {
    assert_eq!(add_sizes(&vec![entry("a", false, 1), entry("b", false, 2)]), Some(3));
    assert_eq!(add_sizes(&vec![entry("a", false, u64::MAX), entry("b", false, 1)]), None);
    let mut app = App::new(b"/".to_vec(), true);
    app.poll_result(Scan::Done(vec![entry("a", false, u64::MAX), entry("b", false, 1)]));
    assert!(app.footer().is_none());
}

#[test]
fn texts_are_cut_and_filled_by_cells() {
    assert_eq!(truncate_to_width("abc", 2), "ab");
    assert_eq!(truncate_to_width("文件夹", 5), "文件");
    assert_eq!(truncate_to_width("文件夹", 1), "");
    assert_eq!(truncate_to_width("a\u{1}b", 1), "a\u{1}");
    assert_eq!(truncate_to_width("e\u{301}x", 1), "e\u{301}");
    assert_eq!(pad_right("文", 4), "文  ");
    assert_eq!(pad_right("abc", 2), "abc");
    assert_eq!(fill_to("abc", 1, 3), "abc  ");
    assert_eq!(fitting(&vec![1, 0, 2, 1], 3), 3);
    assert_eq!(fitting(&vec![usize::MAX, 1], 3), 0);
    assert_eq!(fitting(&vec![], 3), 0);
}

#[test]
fn the_browser_is_divided() {
    let rows = areas(Rect { x: 0, y: 0, width: 80, height: 24 });
    assert_eq!(
        rows,
        vec![
            Rect { x: 0, y: 0, width: 80, height: 1 },
            Rect { x: 0, y: 1, width: 80, height: 22 },
            Rect { x: 0, y: 23, width: 80, height: 1 },
        ]
    );
    let low = areas(Rect { x: 2, y: 3, width: 4, height: 2 });
    assert_eq!(
        low,
        vec![
            Rect { x: 2, y: 3, width: 4, height: 1 },
            Rect { x: 2, y: 4, width: 4, height: 0 },
            Rect { x: 2, y: 4, width: 4, height: 1 },
        ]
    );
    let line = header("/home");
    assert_eq!(line.spans[0].text, "当前目录: ");
    assert_eq!(line.spans[1].text, "/home");
    assert_eq!(line.spans[1].style, Style::fg(Color::Rgb(255, 184, 0)).in_bold());
    assert_eq!(highlight().bg, Some(Color::Rgb(45, 45, 45)));
}
