use treenav::index::Listing;
use treenav::nav::{action_for_key, Action, App, IoError, NavError};
use treenav::tree::{EntryKind, Row};
use treenav::view::{draw_dir, extension, get_icon, render_dir, render_rows, IconColor, Window, MAX_LINES};

fn file(parent: &str, name: &str) -> Listing {
    Listing { path: format!("{}/{}", parent, name), name: name.to_string(), is_dir: false, entries: vec![] }
}

fn dir(parent: &str, name: &str, entries: Vec<Listing>) -> Listing {
    Listing { path: format!("{}/{}", parent, name), name: name.to_string(), is_dir: true, entries }
}

fn project() -> Listing {
    dir(
        "/home",
        "proj",
        vec![
            dir("/home/proj", "src", vec![file("/home/proj/src", "a.txt"), file("/home/proj/src", "b.txt")]),
            dir("/home/proj", "docs", vec![file("/home/proj/docs", "c.txt")]),
        ],
    )
}

fn many(n: usize) -> Listing {
    let mut entries = Vec::new();
    for i in 0..n {
        entries.push(file("/many", &format!("f{}", i)));
    }
    dir("", "many", entries)
}

fn names(rows: &Vec<Row>) -> Vec<String> {
    rows.iter().map(|r| r.name.clone()).collect()
}

fn bound(listing: Listing, viewport: Option<u32>) -> App {
    let mut app = App::new();
    assert_eq!(app.nav(Ok(listing), viewport), Ok(()));
    app
}

#[test]
fn new_state_is_empty() {
    let app = App::new();
    assert!(!app.should_quit);
    assert_eq!(app.scroll, 0);
    assert_eq!(app.selected_index, 0);
    assert!(app.selectable_items.is_empty());
    assert!(app.registry.is_empty());
    assert_eq!(app.excluded, vec!["target".to_string()]);
    assert!(!app.main_dir.expanded);
    assert_eq!(app.main_dir.name, "");
    assert_eq!(app.main_dir.full_path, "");
    assert!(app.selected_entity().is_none());
    assert!(app.open_selected().is_none());
}

#[test]
fn transitions_on_an_empty_state_change_nothing() {
    let mut app = App::new();
    app.select_next(Some(10));
    app.select_previous(Some(10));
    app.scroll(1, false, Some(10));
    app.scroll(1, true, Some(10));
    app.toggle_expand();
    assert_eq!(app.selected_index, 0);
    assert_eq!(app.scroll, 0);
    assert_eq!(app.select(0, None), Ok(()));
    assert_eq!(app.select(1, None), Err(NavError::InvalidSelection));
}

#[test]
fn nav_binds_to_the_new_tree() {
    let app = bound(project(), Some(24));
    assert_eq!(names(&app.selectable_items), vec!["src", "docs"]);
    assert_eq!(app.registry.len(), 5);
    assert_eq!(app.selected_index, 0);
    assert_eq!(app.scroll, 0);
    assert!(app.main_dir.expanded);
    assert_eq!(app.main_dir.full_path, "/home/proj");
}

#[test]
fn nav_uses_the_exclusions() {
    let listing = dir("", "r", vec![dir("/r", "target", vec![]), dir("/r", "build", vec![]), dir("/r", "src", vec![])]);
    let mut app = App::new();
    app.excluded.push("build".to_string());
    assert_eq!(app.nav(Ok(listing), None), Ok(()));
    assert_eq!(names(&app.selectable_items), vec!["src"]);
}

#[test]
fn expanding_the_selected_directory_shows_its_contents() {
    let mut app = bound(project(), Some(24));
    assert_eq!(app.handle_events(Action::ToggleExpandSelected, Some(24)), None);
    assert_eq!(names(&app.selectable_items), vec!["src", "a.txt", "b.txt", "docs"]);
    assert_eq!(app.selectable_items.len(), 4);
    assert_eq!(app.selected_index, 0);
    assert_eq!(app.scroll, 0);
    assert_eq!(app.registry.len(), 5);
    assert!(app.main_dir.sub_dirs[0].expanded);
    assert!(!app.main_dir.sub_dirs[1].expanded);
}

#[test]
fn expanding_twice_or_on_a_file_changes_nothing() {
    let mut app = bound(project(), Some(24));
    app.toggle_expand();
    app.toggle_expand();
    assert_eq!(app.selectable_items.len(), 4);
    app.select_next(Some(24));
    assert_eq!(app.selectable_items[app.selected_index].kind, EntryKind::File);
    app.toggle_expand();
    assert_eq!(names(&app.selectable_items), vec!["src", "a.txt", "b.txt", "docs"]);
    assert_eq!(app.selected_index, 1);
}

#[test]
fn select_next_on_the_last_row_stays() {
    let mut app = bound(project(), Some(24));
    app.select_next(Some(24));
    assert_eq!(app.selected_index, 1);
    app.select_next(Some(24));
    assert_eq!(app.selected_index, 1);
    assert_eq!(app.handle_events(Action::SelectNext, Some(24)), None);
    assert_eq!(app.selected_index, 1);
    assert_eq!(app.scroll, 0);
}

#[test]
fn select_previous_on_the_first_row_stays() {
    let mut app = bound(project(), Some(24));
    app.select_previous(Some(24));
    assert_eq!(app.selected_index, 0);
    app.select_next(Some(24));
    app.select_previous(Some(24));
    assert_eq!(app.selected_index, 0);
}

#[test]
fn failed_listing_leaves_the_state() {
    let mut app = bound(project(), Some(24));
    app.toggle_expand();
    app.select_next(Some(24));
    let ids: Vec<String> = app.selectable_items.iter().map(|r| r.id.clone()).collect();
    let root_id = app.main_dir.id.clone();
    assert_eq!(app.nav(Err(IoError::NotFound), Some(24)), Err(IoError::NotFound));
    assert_eq!(app.selected_index, 1);
    assert_eq!(app.scroll, 0);
    assert_eq!(app.main_dir.id, root_id);
    let after: Vec<String> = app.selectable_items.iter().map(|r| r.id.clone()).collect();
    assert_eq!(after, ids);
    assert_eq!(app.nav(Err(IoError::PermissionDenied), None), Err(IoError::PermissionDenied));
    assert_eq!(app.nav(Err(IoError::Other), None), Err(IoError::Other));
    app.open(Err(IoError::NotFound), Some(24));
    assert_eq!(app.selected_index, 1);
    assert_eq!(app.main_dir.id, root_id);
}

#[test]
fn reindexing_twice_gives_the_same_rows_up_to_identifiers() {
    let mut app = bound(project(), Some(24));
    let first: Vec<(EntryKind, String, usize)> =
        app.selectable_items.iter().map(|r| (r.kind, r.name.clone(), r.depth)).collect();
    let first_ids: Vec<String> = app.selectable_items.iter().map(|r| r.id.clone()).collect();
    assert_eq!(app.nav(Ok(project()), Some(24)), Ok(()));
    let second: Vec<(EntryKind, String, usize)> =
        app.selectable_items.iter().map(|r| (r.kind, r.name.clone(), r.depth)).collect();
    assert_eq!(first, second);
    assert_eq!(first.len(), 2);
    // Identifiers of the dropped snapshot are gone from the registry.
    assert_eq!(app.find_dir(&first_ids[0]), Err(NavError::StaleIdentifier));
}

#[test]
fn reindexing_resets_selection_and_scroll() {
    let mut app = bound(many(30), Some(5));
    for _ in 0..10 {
        app.select_next(Some(5));
    }
    assert_eq!(app.selected_index, 10);
    assert_eq!(app.scroll, 8);
    app.open(Ok(project()), Some(5));
    assert_eq!(app.selected_index, 0);
    assert_eq!(app.scroll, 0);
    assert_eq!(names(&app.selectable_items), vec!["src", "docs"]);
}

#[test]
fn moving_down_scrolls_when_the_bottom_row_is_reached() {
    let mut app = bound(many(30), Some(5));
    app.select_next(Some(5));
    assert_eq!((app.selected_index, app.scroll), (1, 0));
    app.select_next(Some(5));
    assert_eq!((app.selected_index, app.scroll), (2, 0));
    // Row scroll + 5 - 2 is reached: the window moves by one.
    app.select_next(Some(5));
    assert_eq!((app.selected_index, app.scroll), (3, 1));
    app.select_next(Some(5));
    assert_eq!((app.selected_index, app.scroll), (4, 2));
}

#[test]
fn moving_up_scrolls_when_the_top_is_left() {
    let mut app = bound(many(30), Some(5));
    for _ in 0..6 {
        app.select_next(Some(5));
    }
    assert_eq!((app.selected_index, app.scroll), (6, 4));
    app.select_previous(Some(5));
    assert_eq!((app.selected_index, app.scroll), (5, 4));
    app.select_previous(Some(5));
    assert_eq!((app.selected_index, app.scroll), (4, 4));
    app.select_previous(Some(5));
    assert_eq!((app.selected_index, app.scroll), (3, 3));
}

#[test]
fn selection_stays_in_the_window_over_many_moves() {
    let h: u32 = 7;
    let mut app = bound(many(40), Some(h));
    let n = app.selectable_items.len();
    let steps = [true, true, true, true, true, true, true, false, false, true, false, false, false, false, false, false, true];
    for round in 0..8 {
        for s in steps.iter() {
            if *s == (round % 2 == 0) {
                app.select_next(Some(h));
            } else {
                app.select_previous(Some(h));
            }
            assert!(app.selected_index < n);
            assert!(app.scroll <= app.selected_index);
            assert!(app.selected_index <= app.scroll + h as usize - 2);
        }
    }
}

#[test]
fn without_a_viewport_the_scroll_offset_stays() {
    let mut app = bound(many(30), None);
    for _ in 0..12 {
        app.select_next(None);
    }
    assert_eq!((app.selected_index, app.scroll), (12, 0));
    assert_eq!(app.select(29, None), Ok(()));
    assert_eq!((app.selected_index, app.scroll), (29, 0));
}

#[test]
fn select_jumps_and_moves_the_window_by_one_row_at_most() {
    let mut app = bound(many(30), Some(10));
    assert_eq!(app.select(20, Some(10)), Ok(()));
    // A far jump leaves the window behind.
    assert_eq!((app.selected_index, app.scroll), (20, 0));
    assert_eq!(app.select(8, Some(10)), Ok(()));
    assert_eq!((app.selected_index, app.scroll), (8, 1));
    assert_eq!(app.select(0, Some(10)), Ok(()));
    assert_eq!((app.selected_index, app.scroll), (0, 0));
}

#[test]
fn select_refuses_an_index_outside_the_list() {
    let mut app = bound(project(), Some(24));
    assert_eq!(app.select(2, Some(24)), Err(NavError::InvalidSelection));
    assert_eq!(app.selected_index, 0);
    assert_eq!(app.select(1, Some(24)), Ok(()));
    assert_eq!(app.selected_index, 1);
    assert_eq!(app.select(usize::MAX, Some(24)), Err(NavError::InvalidSelection));
    assert_eq!(app.selected_index, 1);
}

#[test]
fn a_viewport_of_two_rows_scrolls_at_once() {
    let app = bound(many(5), Some(2));
    assert_eq!((app.selected_index, app.scroll), (0, 1));
}

#[test]
fn scrolling_is_clamped_to_the_list() {
    let mut app = bound(many(5), Some(10));
    app.scroll(3, true, Some(10));
    assert_eq!(app.scroll, 0);
    app.scroll(100, false, Some(10));
    assert_eq!(app.scroll, 4);
    app.scroll(usize::MAX, false, Some(10));
    assert_eq!(app.scroll, 4);
    app.scroll(3, true, Some(10));
    assert_eq!(app.scroll, 1);
    app.scroll(usize::MAX, true, Some(10));
    assert_eq!(app.scroll, 0);
}

#[test]
fn scrolling_nudges_the_selection_by_one_row_only() {
    // Surprising on purpose: a scroll of several rows moves the selection by
    // one row, so the selection can be left outside the window.
    let mut app = bound(many(30), Some(10));
    app.scroll(5, false, Some(10));
    assert_eq!((app.selected_index, app.scroll), (1, 5));
    app.scroll(1, false, Some(10));
    assert_eq!((app.selected_index, app.scroll), (2, 6));
}

#[test]
fn scrolling_by_one_keeps_the_selection_in_the_window() {
    let mut app = bound(many(30), Some(6));
    assert_eq!(app.handle_events(Action::ScrollRight, Some(6)), None);
    assert_eq!((app.selected_index, app.scroll), (1, 1));
    app.select_next(Some(6));
    app.select_next(Some(6));
    assert_eq!((app.selected_index, app.scroll), (3, 1));
    app.select_next(Some(6));
    assert_eq!((app.selected_index, app.scroll), (4, 1));
    // The selection sits on the last content row; scrolling up pushes it
    // onto row scroll + 6 - 2, from which it is moved back by one.
    assert_eq!(app.handle_events(Action::ScrollLeft, Some(6)), None);
    assert_eq!((app.selected_index, app.scroll), (3, 0));
}

#[test]
fn scrolling_up_nudges_a_selection_left_below_the_window() {
    let mut app = bound(many(30), Some(6));
    for _ in 0..10 {
        app.scroll(1, false, Some(6));
    }
    assert_eq!((app.selected_index, app.scroll), (10, 10));
    // The window jumps five rows up; the selection, now below it, follows by
    // one row only.
    app.scroll(5, true, Some(6));
    assert_eq!((app.selected_index, app.scroll), (9, 5));
    app.scroll(0, true, Some(6));
    assert_eq!((app.selected_index, app.scroll), (8, 5));
    app.scroll(0, true, Some(6));
    assert_eq!((app.selected_index, app.scroll), (8, 5));
}

#[test]
fn scrolling_without_a_viewport() {
    let mut app = bound(many(30), None);
    app.scroll(1, false, None);
    assert_eq!((app.selected_index, app.scroll), (1, 1));
    app.scroll(1, true, None);
    assert_eq!((app.selected_index, app.scroll), (1, 0));
}

#[test]
fn selected_entity_is_the_registry_entry() {
    let mut app = bound(project(), Some(24));
    let e = app.selected_entity().unwrap();
    assert_eq!(e.kind, EntryKind::Directory);
    assert_eq!(e.name, "src");
    assert_eq!(e.path, "/home/proj/src");
    assert_eq!(e.id, app.selectable_items[0].id);
    app.toggle_expand();
    app.select_next(Some(24));
    let f = app.selected_entity().unwrap();
    assert_eq!(f.kind, EntryKind::File);
    assert_eq!(f.path, "a.txt");
}

#[test]
fn lookup_by_identifier() {
    let app = bound(project(), Some(24));
    let src = app.registry[0].id.clone();
    let a = app.registry[1].id.clone();
    let docs = app.registry[3].id.clone();
    assert_eq!(app.find_dir(&src), Ok(0));
    assert_eq!(app.find_dir(&docs), Ok(3));
    assert_eq!(app.find_file(&a), Ok(1));
    assert_eq!(app.find_file(&src), Err(NavError::StaleIdentifier));
    assert_eq!(app.find_dir(&a), Err(NavError::StaleIdentifier));
    assert_eq!(app.find(&"gone".to_string(), EntryKind::File), Err(NavError::StaleIdentifier));
}

#[test]
fn open_selected_asks_for_the_directory() {
    let mut app = bound(project(), Some(24));
    app.select_next(Some(24));
    assert_eq!(app.open_selected(), Some("/home/proj/docs".to_string()));
    assert_eq!(app.handle_events(Action::OpenSelected, Some(24)), Some("/home/proj/docs".to_string()));
    assert_eq!(app.selected_index, 1);
    app.select_previous(Some(24));
    app.toggle_expand();
    app.select_next(Some(24));
    assert_eq!(app.open_selected(), None);
    assert_eq!(app.handle_events(Action::OpenSelected, Some(24)), None);
}

#[test]
fn quit_sets_the_flag_only() {
    let mut app = bound(project(), Some(24));
    app.select_next(Some(24));
    assert_eq!(app.handle_events(Action::Quit, Some(24)), None);
    assert!(app.should_quit);
    assert_eq!(app.selected_index, 1);
    assert_eq!(app.selectable_items.len(), 2);
}

#[test]
fn read_dir_builds_with_the_exclusions() {
    let app = App::new();
    let listing = dir("", "r", vec![dir("/r", "target", vec![]), dir("/r", "src", vec![])]);
    let top = app.read_dir(&listing, true);
    assert!(top.expanded);
    assert_eq!(top.sub_dirs.len(), 1);
    let inner = app.read_dir(&listing, false);
    assert!(!inner.expanded);
}

#[test]
fn keys() {
    assert_eq!(action_for_key('q'), Some(Action::Quit));
    assert_eq!(action_for_key('l'), Some(Action::ScrollRight));
    assert_eq!(action_for_key('h'), Some(Action::ScrollLeft));
    assert_eq!(action_for_key('j'), Some(Action::SelectNext));
    assert_eq!(action_for_key('k'), Some(Action::SelectPrevious));
    assert_eq!(action_for_key('s'), Some(Action::ToggleExpandSelected));
    assert_eq!(action_for_key('o'), Some(Action::OpenSelected));
    assert_eq!(action_for_key('x'), None);
    assert_eq!(action_for_key('Q'), None);
}

#[test]
fn icons() {
    assert_eq!(get_icon("png".to_string()), ("\u{e2a6} ".to_string(), IconColor::Red));
    assert_eq!(get_icon("rs".to_string()), ("\u{e7a8} ".to_string(), IconColor::Red));
    assert_eq!(get_icon("go".to_string()), ("\u{e627} ".to_string(), IconColor::Blue));
    assert_eq!(get_icon("toml|conf".to_string()), ("\u{e615} ".to_string(), IconColor::Grey));
    assert_eq!(get_icon("ts".to_string()), ("\u{e628} ".to_string(), IconColor::Blue));
    assert_eq!(get_icon("js".to_string()), ("\u{e60c} ".to_string(), IconColor::Yellow));
    assert_eq!(get_icon("java".to_string()), ("\u{e738} ".to_string(), IconColor::Red));
    assert_eq!(get_icon("zip".to_string()), ("\u{f06eb} ".to_string(), IconColor::Magenta));
    assert_eq!(get_icon("toml".to_string()), ("\u{f4a5} ".to_string(), IconColor::White));
    assert_eq!(get_icon("".to_string()), ("\u{f4a5} ".to_string(), IconColor::White));
}

#[test]
fn window_is_clipped() {
    let mut app = bound(many(120), Some(10));
    assert_eq!(draw_dir(&app), Window { first: 0, count: MAX_LINES, highlighted: 0 });
    assert_eq!(MAX_LINES, 50);
    app.scroll(100, false, Some(10));
    assert_eq!(draw_dir(&app), Window { first: 100, count: 20, highlighted: 1 });
    assert_eq!(app.select(105, Some(10)), Ok(()));
    assert_eq!(draw_dir(&app), Window { first: 100, count: 20, highlighted: 5 });
    let empty = App::new();
    assert_eq!(draw_dir(&empty), Window { first: 0, count: 0, highlighted: 0 });
}

#[test]
fn render_dir_draws_the_visible_rows() {
    let mut app = bound(project(), None);
    app.toggle_expand();
    let lines = render_dir(&app.main_dir, 0);
    let seen: Vec<(usize, bool, String, Option<IconColor>, String)> =
        lines.iter().map(|l| (l.indent, l.corner, l.icon.clone(), l.color, l.name.clone())).collect();
    assert_eq!(
        seen,
        vec![
            (0, false, "\u{f024b} ".to_string(), None, "src".to_string()),
            (2, false, "\u{f4a5} ".to_string(), Some(IconColor::White), "a.txt".to_string()),
            (2, false, "\u{f4a5} ".to_string(), Some(IconColor::White), "b.txt".to_string()),
            (0, false, "\u{f024b} ".to_string(), None, "docs".to_string()),
        ]
    );
    let sub = render_dir(&app.main_dir.sub_dirs[0], 1);
    assert_eq!(sub.len(), 2);
    assert_eq!(sub[0].name, "a.txt");
    assert_eq!(sub[0].indent, 2);
}

#[test]
fn first_subdirectory_below_the_top_gets_the_corner() {
    let rows = vec![
        Row { id: "1".to_string(), kind: EntryKind::Directory, name: "top".to_string(), path: "/top".to_string(), depth: 0 },
        Row { id: "2".to_string(), kind: EntryKind::Directory, name: "one".to_string(), path: "/top/one".to_string(), depth: 1 },
        Row { id: "3".to_string(), kind: EntryKind::Directory, name: "two".to_string(), path: "/top/two".to_string(), depth: 1 },
        Row { id: "4".to_string(), kind: EntryKind::Directory, name: "in".to_string(), path: "/top/two/in".to_string(), depth: 2 },
        Row { id: "5".to_string(), kind: EntryKind::File, name: "lib.rs".to_string(), path: "lib.rs".to_string(), depth: 2 },
        Row { id: "6".to_string(), kind: EntryKind::File, name: "pic.png".to_string(), path: "pic.png".to_string(), depth: 0 },
    ];
    let lines = render_rows(&rows);
    let seen: Vec<(usize, bool, Option<IconColor>)> = lines.iter().map(|l| (l.indent, l.corner, l.color)).collect();
    assert_eq!(
        seen,
        vec![
            (0, false, None),
            (1, true, None),
            (2, false, None),
            (2, true, None),
            (3, false, Some(IconColor::Red)),
            (1, false, Some(IconColor::Red)),
        ]
    );
    assert_eq!(lines[4].icon, "\u{e7a8} ");
    assert_eq!(lines[5].icon, "\u{e2a6} ");
    let alone = render_rows(&vec![Row {
        id: "1".to_string(),
        kind: EntryKind::Directory,
        name: "d".to_string(),
        path: "/d".to_string(),
        depth: 3,
    }]);
    assert_eq!((alone[0].indent, alone[0].corner), (3, true));
    assert!(render_rows(&Vec::new()).is_empty());
}

#[test]
fn extensions() {
    assert_eq!(extension("main.rs"), "rs");
    assert_eq!(extension("archive.tar.gz"), "gz");
    assert_eq!(extension("Makefile"), "");
    assert_eq!(extension(".bashrc"), "");
    assert_eq!(extension(".config.toml"), "toml");
    assert_eq!(extension("trailing."), "");
    assert_eq!(extension(""), "");
    assert_eq!(extension("."), "");
    assert_eq!(extension("na\u{ef}ve.t\u{e9}"), "t\u{e9}");
}
