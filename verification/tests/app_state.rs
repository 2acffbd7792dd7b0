use cta_tui::app::{App, StationRef, Zoom};
use cta_tui::model::{Arrival, RouteBoard, Snapshot, Train};

fn arr(run: &str, eta: i64) -> Arrival {
    Arrival {
        station: "Home".into(),
        run: run.into(),
        route: "G".into(),
        dest: "Loop".into(),
        eta_min: Some(eta),
        approaching: false,
        delayed: false,
    }
}

fn snap_with(arrivals: Vec<Arrival>) -> Snapshot {
    Snapshot { arrivals, ..Default::default() }
}

#[test]
fn approach_alert_lifecycle() {
    let mut app = App::new("Home".into(), 6, false);

    // First poll already has a near train: seed silently, no bell storm.
    app.apply(snap_with(vec![arr("100", 4)]));
    assert!(!app.take_bell());
    assert_eq!(app.flash, 0);

    // Train far away: still no bell.
    app.apply(snap_with(vec![arr("200", 9)]));
    assert!(!app.take_bell());

    // It crosses into the window → ring once and flash.
    app.apply(snap_with(vec![arr("200", 5)]));
    assert!(app.take_bell());
    assert!(app.flash > 0);

    // Still near next poll → no repeat bell.
    app.apply(snap_with(vec![arr("200", 3)]));
    assert!(!app.take_bell());

    // A different train enters → ring again.
    app.apply(snap_with(vec![arr("200", 2), arr("300", 5)]));
    assert!(app.take_bell());
}

#[test]
fn alert_disabled_when_zero() {
    let mut app = App::new("Home".into(), 0, false);
    app.apply(snap_with(vec![arr("100", 9)]));
    app.apply(snap_with(vec![arr("100", 1)]));
    assert!(!app.take_bell());
}

fn board_with(trains: Vec<Train>) -> Snapshot {
    Snapshot {
        boards: vec![RouteBoard {
            key: "g".into(),
            label: "Green".into(),
            trains,
        }],
        ..Default::default()
    }
}

fn train(run: &str, delayed: bool) -> Train {
    Train {
        run: run.into(),
        dest: "Loop".into(),
        next_station: "X".into(),
        eta_min: Some(5),
        approaching: false,
        delayed,
        dir: None,
        heading: None,
        lat: None,
        lon: None,
    }
}

#[test]
fn delay_notifies_once_per_episode() {
    let mut app = App::new("Home".into(), 0, true);

    // First poll, train already delayed → seed silently.
    app.apply(board_with(vec![train("100", true)]));
    assert!(app.take_notes().is_empty());

    // Still delayed → no repeat.
    app.apply(board_with(vec![train("100", true)]));
    assert!(app.take_notes().is_empty());

    // A different train newly delayed → notify.
    app.apply(board_with(vec![train("100", true), train("200", true)]));
    let notes = app.take_notes();
    assert_eq!(notes.len(), 1);
    assert!(notes[0].contains("#200"));

    // 100 recovers then re-delays → notifies again (new episode).
    app.apply(board_with(vec![train("100", false), train("200", true)]));
    assert!(app.take_notes().is_empty());
    app.apply(board_with(vec![train("100", true), train("200", true)]));
    let notes = app.take_notes();
    assert_eq!(notes.len(), 1);
    assert!(notes[0].contains("#100"));
}

#[test]
fn delay_note_text() {
    let mut app = App::new("Home".into(), 0, true);
    app.apply(board_with(vec![]));
    app.apply(board_with(vec![train("812", true)]));
    assert_eq!(app.take_notes(), vec!["Green #812 → Loop".to_string()]);
    // taking drains: nothing left
    assert!(app.take_notes().is_empty());
}

#[test]
fn notes_disabled_when_notifications_off() {
    let mut app = App::new("Home".into(), 0, false);
    app.apply(board_with(vec![]));
    app.apply(board_with(vec![train("812", true)]));
    assert!(app.take_notes().is_empty());
}

#[test]
fn bell_taken_once_and_flash_counts_down() {
    let mut app = App::new("Home".into(), 6, false);
    app.apply(snap_with(vec![]));
    app.apply(snap_with(vec![arr("7", 1)]));
    assert_eq!(app.flash, 8);
    assert!(app.take_bell());
    assert!(!app.take_bell());
    for _ in 0..3 {
        app.tick();
    }
    assert_eq!(app.flash, 5);
    assert_eq!(app.frame, 3);
    for _ in 0..10 {
        app.tick();
    }
    assert_eq!(app.flash, 0);
}

#[test]
fn arrivals_without_run_or_eta_do_not_ring() {
    let mut app = App::new("Home".into(), 6, false);
    app.apply(snap_with(vec![]));
    let mut nameless = arr("", 1);
    nameless.run = String::new();
    let mut unknown = arr("55", 1);
    unknown.eta_min = None;
    app.apply(snap_with(vec![nameless, unknown]));
    assert!(!app.take_bell());
}

fn boards(n: usize, trains_each: usize) -> Snapshot {
    let mut bs = Vec::new();
    for i in 0..n {
        let mut ts = Vec::new();
        for j in 0..trains_each {
            ts.push(train(&format!("{i}{j}"), false));
        }
        bs.push(RouteBoard { key: format!("k{i}"), label: format!("L{i}"), trains: ts });
    }
    Snapshot { boards: bs, ..Default::default() }
}

#[test]
fn route_cycling_wraps_both_ways() {
    let mut app = App::new("Home".into(), 0, false);
    app.apply(boards(3, 2));
    assert_eq!(app.focused, 0);
    app.next_route();
    app.next_route();
    assert_eq!(app.focused, 2);
    app.next_route();
    assert_eq!(app.focused, 0);
    app.prev_route();
    assert_eq!(app.focused, 2);
    app.next_route();
    assert_eq!(app.focused, 0);
}

#[test]
fn train_cursor_saturates() {
    let mut app = App::new("Home".into(), 0, false);
    app.apply(boards(1, 3));
    app.select_prev();
    assert_eq!(app.selected, 0);
    for _ in 0..5 {
        app.select_next();
    }
    assert_eq!(app.selected, 2);
    assert_eq!(app.selected_run(), Some("02"));
    // a smaller snapshot pulls the cursor back onto the last train
    app.apply(boards(1, 2));
    assert_eq!(app.selected, 1);
    // fewer lines than the focus: back to the first line
    app.next_route();
    app.apply(boards(2, 1));
    app.next_route();
    assert_eq!(app.focused, 1);
    app.apply(boards(1, 1));
    assert_eq!(app.focused, 0);
    assert_eq!(app.focused_len(), 1);
}

#[test]
fn empty_snapshot_has_no_selection() {
    let mut app = App::new("Home".into(), 0, false);
    app.apply(Snapshot::default());
    assert!(!app.loading);
    assert_eq!(app.focused_len(), 0);
    assert_eq!(app.selected_run(), None);
    assert_eq!(app.view_route(), None);
    app.next_route();
    app.prev_route();
    assert_eq!(app.focused, 0);
}

fn station(name: &str, route: &str, index: usize) -> StationRef {
    StationRef { name: name.into(), route: route.into(), branch: 0, index }
}

#[test]
fn search_ranks_and_commits() {
    let mut app = App::new("Home".into(), 0, false);
    app.apply(boards(2, 1));
    app.snap.boards[1].key = "g".into();
    app.stations = vec![
        station("Kedzie", "g", 3),
        station("Kedzie", "pink", 7),
        station("Clark/Lake", "blue", 1),
        station("Damen", "g", 9),
    ];
    app.open_search();
    // empty query: everything matches with score 0, ordered by name, then position
    assert_eq!(app.search.as_ref().unwrap().matches, vec![2, 3, 0, 1]);
    for c in "ked".chars() {
        app.search_input(c);
    }
    assert_eq!(app.search.as_ref().unwrap().query, "ked");
    assert_eq!(app.search.as_ref().unwrap().matches, vec![0, 1]);
    app.search_move(1);
    assert_eq!(app.search.as_ref().unwrap().cursor, 1);
    app.search_move(5);
    assert_eq!(app.search.as_ref().unwrap().cursor, 1);
    app.search_move(-7);
    assert_eq!(app.search.as_ref().unwrap().cursor, 0);
    app.search_backspace();
    assert_eq!(app.search.as_ref().unwrap().query, "ke");
    app.search_input('d');
    app.commit_search();
    assert!(app.search.is_none());
    assert_eq!(app.focused, 1);
    let z = app.zoom.as_ref().unwrap();
    assert_eq!(z.route, "g");
    assert_eq!(z.index, 3);
    assert_eq!(app.view_route(), Some("g".to_string()));
    app.clear_zoom();
    assert_eq!(app.view_route(), Some("g".to_string()));
}

#[test]
fn search_without_results_closes_on_commit() {
    let mut app = App::new("Home".into(), 0, false);
    app.stations = vec![station("Kedzie", "g", 3)];
    app.open_search();
    app.search_input('q');
    assert!(app.search.as_ref().unwrap().matches.is_empty());
    app.search_move(1);
    assert_eq!(app.search.as_ref().unwrap().cursor, 0);
    app.commit_search();
    assert!(app.search.is_none());
    assert!(app.zoom.is_none());
}

#[test]
fn typing_without_search_open_changes_nothing() {
    let mut app = App::new("Home".into(), 0, false);
    app.search_input('x');
    app.search_backspace();
    assert!(app.search.is_none());
    app.close_search();
    app.commit_search();
    assert!(app.zoom.is_none());
}

#[test]
fn better_scores_rank_first() {
    let mut app = App::new("Home".into(), 0, false);
    app.stations = vec![
        station("Washington/Wabash", "brn", 0),
        station("Wabash", "brn", 1),
    ];
    app.open_search();
    for c in "wabash".chars() {
        app.search_input(c);
    }
    assert_eq!(app.search.as_ref().unwrap().matches, vec![1, 0]);
}

#[test]
fn trains_of_follows_the_focused_line() {
    let mut app = App::new("Home".into(), 0, false);
    assert!(app.trains_of().is_empty());
    app.apply(boards(2, 3));
    assert_eq!(app.trains_of().len(), 3);
    assert_eq!(app.trains_of()[0].run, "00");
    app.next_route();
    assert_eq!(app.trains_of()[2].run, "12");
    app.focused = 7;
    assert!(app.trains_of().is_empty());
}

#[test]
fn typing_then_erasing_restores_results() {
    let mut app = App::new("Home".into(), 0, false);
    app.stations = vec![
        station("Kedzie", "g", 3),
        station("Kedzie", "pink", 7),
        station("Clark/Lake", "blue", 1),
        station("Damen", "g", 9),
        station("Cicero", "g", 10),
    ];
    app.open_search();
    app.search_input('c');
    let before = app.search.as_ref().unwrap().matches.clone();
    assert_eq!(before, vec![4, 2]);
    app.search_input('l');
    assert_eq!(app.search.as_ref().unwrap().matches, vec![2]);
    app.search_backspace();
    assert_eq!(app.search.as_ref().unwrap().query, "c");
    assert_eq!(app.search.as_ref().unwrap().matches, before);
}

#[test]
fn line_keys_leave_the_zoom() {
    let mut app = App::new("Home".into(), 0, false);
    app.apply(boards(3, 2));
    app.select_next();
    app.zoom = Some(Zoom { route: "k0".into(), index: 1 });
    app.next_line();
    assert!(app.zoom.is_none());
    assert_eq!(app.focused, 1);
    assert_eq!(app.selected, 0);
    app.zoom = Some(Zoom { route: "k1".into(), index: 0 });
    app.prev_line();
    app.prev_line();
    assert!(app.zoom.is_none());
    assert_eq!(app.focused, 2);

    let mut empty = App::new("Home".into(), 0, false);
    empty.zoom = Some(Zoom { route: "g".into(), index: 4 });
    empty.next_line();
    assert!(empty.zoom.is_none());
    assert_eq!(empty.focused, 0);
}

#[test]
fn a_newly_delayed_run_is_noted_once() {
    let mut app = App::new("Home".into(), 0, true);
    app.apply(board_with(vec![]));
    let mut second = train("300", true);
    second.dest = "Harlem".into();
    app.apply(board_with(vec![train("300", true), second, train("400", true)]));
    assert_eq!(
        app.take_notes(),
        vec!["Green #300 → Loop".to_string(), "Green #400 → Loop".to_string()]
    );
    // across two boards of one poll as well
    let mut snap = board_with(vec![train("500", true)]);
    snap.boards.push(RouteBoard { key: "p".into(), label: "Purple".into(), trains: vec![train("500", true)] });
    app.apply(snap);
    assert_eq!(app.take_notes(), vec!["Green #500 → Loop".to_string()]);
}

#[test]
fn a_run_that_leaves_and_returns_rings_again() {
    let mut app = App::new("Home".into(), 6, false);
    app.apply(snap_with(vec![arr("100", 9)]));
    app.apply(snap_with(vec![arr("100", 5)]));
    assert!(app.take_bell());
    app.apply(snap_with(vec![arr("100", 12)]));
    assert!(!app.take_bell());
    app.apply(snap_with(vec![arr("100", 4)]));
    assert!(app.take_bell());
    // two fresh polls without taking in between: still one pending bell
    app.apply(snap_with(vec![arr("200", 9)]));
    app.apply(snap_with(vec![arr("200", 3)]));
    app.apply(snap_with(vec![arr("200", 2), arr("300", 1)]));
    assert!(app.take_bell());
    assert!(!app.take_bell());
}

#[test]
fn no_notes_ever_wait_while_notifications_are_off() {
    let mut app = App::new("Home".into(), 6, false);
    app.apply(board_with(vec![train("100", false)]));
    app.tick();
    app.apply(board_with(vec![train("100", true), train("200", true)]));
    app.next_route();
    app.open_search();
    app.search_input('g');
    app.close_search();
    app.apply(board_with(vec![train("300", true)]));
    let _ = app.take_bell();
    assert!(app.take_notes().is_empty());
}
