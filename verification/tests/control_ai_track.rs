use cta_tui::ai::{check_ai_resp, sitrep_path, urlenc, AiError, AiItem, AiResp, AiState};
use cta_tui::app::StationRef;
use cta_tui::control::{daemon_alive, daemon_round, heartbeat_age, key_action, notes_body, Key, KeyAction};
use cta_tui::track::{station_index, RouteStations};

fn resp(summary: Option<&str>, error: Option<&str>) -> AiResp {
    AiResp { summary: summary.map(|s| s.to_string()), count: Some(3), error: error.map(|s| s.to_string()) }
}

#[test]
fn ai_answers_are_checked() {
    match check_ai_resp(resp(Some("All quiet"), None)) {
        Ok(r) => {
            assert_eq!(r.summary.as_deref(), Some("All quiet"));
            assert_eq!(r.count, Some(3));
        },
        Err(_) => panic!("accepted answer expected"),
    }
    assert!(matches!(check_ai_resp(resp(Some("text"), Some("rate limited"))), Err(AiError::Remote(e)) if e == "rate limited"));
    assert!(matches!(check_ai_resp(resp(Some("  \n"), None)), Err(AiError::EmptySummary)));
    assert!(matches!(check_ai_resp(resp(None, None)), Err(AiError::EmptySummary)));
}

#[test]
fn query_values_are_percent_encoded() {
    assert_eq!(urlenc("Harlem/Lake Ave"), "Harlem%2FLake%20Ave");
    assert_eq!(urlenc("a-b_c.d~e"), "a-b_c.d~e");
    assert_eq!(urlenc("é"), "%C3%A9");
    assert_eq!(urlenc(""), "");
    assert_eq!(sitrep_path("41070", "Kedzie"), "/api/alerts/summary?station=41070&stn=Kedzie");
    assert_eq!(sitrep_path("1", "Clark/Lake"), "/api/alerts/summary?station=1&stn=Clark%2FLake");
}

#[test]
fn ai_state_starts_empty() {
    let s = AiState::default();
    assert_eq!(s.dispatch.summary, "");
    assert_eq!(s.events.count, 0);
    let i = AiItem::default();
    assert_eq!(i.updated_at, 0);
}

#[test]
fn keys_in_search_mode() {
    assert_eq!(key_action(true, false, Key::Esc), KeyAction::CloseSearch);
    assert_eq!(key_action(true, false, Key::Enter), KeyAction::CommitSearch);
    assert_eq!(key_action(true, false, Key::Up), KeyAction::SearchMove(-1));
    assert_eq!(key_action(true, false, Key::Down), KeyAction::SearchMove(1));
    assert_eq!(key_action(true, false, Key::Backspace), KeyAction::SearchBackspace);
    assert_eq!(key_action(true, true, Key::Char('q')), KeyAction::SearchInput('q'));
    assert_eq!(key_action(true, false, Key::Tab), KeyAction::Nothing);
}

#[test]
fn keys_on_the_board() {
    assert_eq!(key_action(false, false, Key::Char('q')), KeyAction::Quit);
    assert_eq!(key_action(false, true, Key::Esc), KeyAction::ClearZoom);
    assert_eq!(key_action(false, false, Key::Esc), KeyAction::Quit);
    assert_eq!(key_action(false, false, Key::Char('/')), KeyAction::OpenSearch);
    assert_eq!(key_action(false, false, Key::Char('r')), KeyAction::Refresh);
    assert_eq!(key_action(false, false, Key::Right), KeyAction::NextLine);
    assert_eq!(key_action(false, false, Key::Tab), KeyAction::NextLine);
    assert_eq!(key_action(false, false, Key::Left), KeyAction::PrevLine);
    assert_eq!(key_action(false, false, Key::Down), KeyAction::SelectNext);
    assert_eq!(key_action(false, false, Key::Up), KeyAction::SelectPrev);
    assert_eq!(key_action(false, false, Key::Char('x')), KeyAction::Nothing);
    assert_eq!(key_action(false, false, Key::Other), KeyAction::Nothing);
}

#[test]
fn notification_body_caps_lines() {
    let notes: Vec<String> = ["a", "b", "c", "d", "e", "f"].iter().map(|s| s.to_string()).collect();
    assert_eq!(notes_body(&notes), "a\nb\nc\nd\n(+2 more)");
    assert_eq!(notes_body(&notes[..4].to_vec()), "a\nb\nc\nd");
    assert_eq!(notes_body(&notes[..1].to_vec()), "a");
    assert_eq!(notes_body(&vec![]), "");
}

#[test]
fn daemon_schedule() {
    assert_eq!(daemon_round(0), (true, true, true));
    assert_eq!(daemon_round(1), (true, false, false));
    assert_eq!(daemon_round(5), (true, true, false));
    assert_eq!(daemon_round(30), (true, true, true));
    assert_eq!(daemon_round(35), (true, true, false));
}

#[test]
fn heartbeat_freshness() {
    assert_eq!(heartbeat_age(100, 40), 60);
    assert_eq!(heartbeat_age(40, 100), 0);
    assert!(daemon_alive(Some(90)));
    assert!(!daemon_alive(Some(91)));
    assert!(!daemon_alive(None));
}

fn names(v: &[&str]) -> Vec<String> {
    v.iter().map(|s| s.to_string()).collect()
}

#[test]
fn station_index_dedupes_trunk_and_sorts_lines() {
    let routes = vec![
        RouteStations { key: "pink".into(), branches: vec![names(&["54th/Cermak", "Kedzie"])] },
        RouteStations {
            key: "g".into(),
            branches: vec![names(&["Harlem/Lake", "Kedzie", "Ashland/63rd"]), names(&["harlem/lake", "KEDZIE", "Cottage Grove"])],
        },
    ];
    let idx = station_index(&routes);
    let rows: Vec<(&str, &str, usize, usize)> =
        idx.iter().map(|s: &StationRef| (s.name.as_str(), s.route.as_str(), s.branch, s.index)).collect();
    assert_eq!(
        rows,
        vec![
            ("Harlem/Lake", "g", 0, 0),
            ("Kedzie", "g", 0, 1),
            ("Ashland/63rd", "g", 0, 2),
            ("Cottage Grove", "g", 1, 2),
            ("54th/Cermak", "pink", 0, 0),
            ("Kedzie", "pink", 0, 1),
        ]
    );
    assert!(station_index(&vec![]).is_empty());
}
