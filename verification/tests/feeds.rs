use cta_tui::feed::{
    alerts_from, arrivals_from, boards_from_ctatt, eta_minutes, eta_minutes_at, flat, local_now, metra_alerts_from, parse_u16,
    positions_from, statuses_from, truthy, ArrCtatt, CtaAlerts, CtaRoutes, LocalTime, MetraAlert, MetraAlertsResp,
    OneOrMany, PosCtatt, RawAlert, RawEta, RawImpacted, RawRoute, RawRouteInfo, RawService, RawTrain,
};
use cta_tui::model::{Alert, RouteBoard, RouteStatus};
use cta_tui::poll::{assemble_snapshot, hist_snap_from, poll_stamp, RegionalFeeds};
use cta_tui::regional::{metra_boards, metra_status, regional_status, regional_train, ss_board, MetraResp, MetraTrain, SsResp, SsTrain};

fn s(x: &str) -> Option<String> {
    Some(x.to_string())
}

const T_1430: i64 = 1704119400; // 2024-01-01 14:30:00

#[test]
fn one_or_many() {
    assert_eq!(OneOrMany::One(7).into_vec(), vec![7]);
    assert_eq!(OneOrMany::Many(vec![1, 2]).into_vec(), vec![1, 2]);
    assert_eq!(flat::<u8>(None), Vec::<u8>::new());
    assert_eq!(flat(Some(OneOrMany::One(3))), vec![3]);
}

#[test]
fn flags() {
    assert!(truthy(&s("1")));
    assert!(truthy(&s("true")));
    assert!(!truthy(&s("TRUE")));
    assert!(!truthy(&s("0")));
    assert!(!truthy(&None));
}

#[test]
fn headings() {
    assert_eq!(parse_u16("89"), Some(89));
    assert_eq!(parse_u16("+90"), Some(90));
    assert_eq!(parse_u16("0007"), Some(7));
    assert_eq!(parse_u16("65535"), Some(65535));
    assert_eq!(parse_u16("65536"), None);
    assert_eq!(parse_u16(""), None);
    assert_eq!(parse_u16("+"), None);
    assert_eq!(parse_u16("-1"), None);
    assert_eq!(parse_u16("12a"), None);
    for text in ["1", "+1", "300", "99999", "-0", " 5", "5 ", "+-5"] {
        assert_eq!(parse_u16(text), text.parse::<u16>().ok());
    }
}

#[test]
fn eta_rounding() {
    let at = |secs: i64, nanos: u32| LocalTime { secs, nanos };
    let arr = s("20240101 14:30:00");
    assert_eq!(eta_minutes_at(&arr, at(T_1430 - 300, 0)), Some(5));
    assert_eq!(eta_minutes_at(&arr, at(T_1430 - 300, 500_000_000)), Some(5));
    assert_eq!(eta_minutes_at(&arr, at(T_1430 - 329, 0)), Some(5));
    assert_eq!(eta_minutes_at(&arr, at(T_1430 - 330, 0)), Some(6));
    assert_eq!(eta_minutes_at(&arr, at(T_1430 - 330, 1)), Some(5));
    assert_eq!(eta_minutes_at(&arr, at(T_1430 + 30, 0)), Some(-1));
    assert_eq!(eta_minutes_at(&arr, at(T_1430 + 29, 0)), Some(0));
    assert_eq!(eta_minutes_at(&s("2024-01-01T14:30:00"), at(T_1430 - 120, 0)), Some(2));
    assert_eq!(eta_minutes_at(&s("soon"), at(T_1430, 0)), None);
    assert_eq!(eta_minutes_at(&None, at(T_1430, 0)), None);
    assert!(eta_minutes(&arr).is_some());
    assert!(eta_minutes(&s("soon")).is_none());
}

fn raw_train(rn: &str, heading: &str) -> RawTrain {
    RawTrain {
        rn: s(rn),
        dest_nm: s("Harlem/Lake"),
        next_sta_nm: s("Kedzie"),
        arr_t: s("20240101 14:30:00"),
        is_app: s("1"),
        is_dly: s("0"),
        tr_dr: s("5"),
        lat: s("41.88"),
        lon: s("-87.70"),
        heading: s(heading),
    }
}

fn ctatt(err: Option<String>, name: Option<String>) -> PosCtatt {
    PosCtatt {
        tmst: s("2024-01-01T14:25:00"),
        err_cd: err,
        err_nm: name,
        route: Some(OneOrMany::Many(vec![
            RawRoute { name: "G".into(), train: Some(OneOrMany::Many(vec![raw_train("002", "89"), raw_train("003", "x")])) },
            RawRoute { name: "red".into(), train: None },
        ])),
    }
}

#[test]
fn positions_decode_into_boards() {
    let boards = boards_from_ctatt(ctatt(s("0"), None));
    assert_eq!(boards.len(), 2);
    assert_eq!(boards[0].key, "G");
    assert_eq!(boards[0].label, "Green");
    assert_eq!(boards[0].trains.len(), 2);
    let t = &boards[0].trains[0];
    assert_eq!(t.run, "002");
    assert_eq!(t.dest, "Harlem/Lake");
    assert_eq!(t.next_station, "Kedzie");
    assert!(t.approaching);
    assert!(!t.delayed);
    assert_eq!(t.heading, Some(89));
    assert_eq!(t.dir, s("5"));
    assert_eq!(t.lat, s("41.88"));
    assert_eq!(t.lon, s("-87.70"));
    assert!(t.eta_min.is_some());
    assert_eq!(boards[0].trains[1].heading, None);
    assert_eq!(boards[1].label, "Red");
    assert!(boards[1].trains.is_empty());
}

#[test]
fn positions_errors() {
    match positions_from(ctatt(s("500"), s("Invalid API key"))) {
        Err(e) => assert_eq!(e, "Invalid API key"),
        Ok(_) => panic!("error expected"),
    }
    match positions_from(ctatt(s("101"), None)) {
        Err(e) => assert_eq!(e, "CTA error"),
        Ok(_) => panic!("error expected"),
    }
    assert_eq!(positions_from(ctatt(s("0"), None)).ok().map(|b| b.len()), Some(2));
    assert_eq!(positions_from(ctatt(None, s("ignored"))).ok().map(|b| b.len()), Some(2));
}

#[test]
fn arrivals_decode() {
    let eta = RawEta {
        sta_nm: s("Kedzie"),
        rn: s("612"),
        rt: s("G"),
        dest_nm: s("Harlem/Lake"),
        arr_t: None,
        is_app: None,
        is_dly: s("1"),
    };
    let a = arrivals_from(ArrCtatt { eta: Some(OneOrMany::One(eta)) });
    assert_eq!(a.len(), 1);
    assert_eq!(a[0].station, "Kedzie");
    assert_eq!(a[0].run, "612");
    assert_eq!(a[0].route, "G");
    assert_eq!(a[0].eta_min, None);
    assert!(!a[0].approaching);
    assert!(a[0].delayed);
    assert!(arrivals_from(ArrCtatt { eta: None }).is_empty());
}

fn info(route: &str, status: Option<String>) -> RawRouteInfo {
    RawRouteInfo { route: route.into(), color: s("009b3a"), status, status_color: s("#404040") }
}

#[test]
fn statuses_keep_rail_lines() {
    let st = statuses_from(CtaRoutes {
        route_info: Some(OneOrMany::Many(vec![
            info("Red Line", s("Normal Service")),
            info("Route 9", s("Bus Detour")),
            info("Green Line", None),
        ])),
    });
    assert_eq!(st.len(), 2);
    assert_eq!(st[0].route, "Red Line");
    assert_eq!(st[0].status, "Normal Service");
    assert_eq!(st[1].route, "Green Line");
    assert_eq!(st[1].status, "—");
    assert_eq!(st[1].color_hex, s("009b3a"));
    assert_eq!(st[1].status_color_hex, s("#404040"));
}

fn svc(t: Option<String>, id: Option<String>) -> RawService {
    RawService { service_type: t, service_id: id }
}

#[test]
fn alerts_tag_rail_routes() {
    let alert = RawAlert {
        headline: s("Delays"),
        short_description: s("Slow zone"),
        impact: s("Minor Delays"),
        major_alert: s("1"),
        impacted_service: Some(RawImpacted {
            service: Some(OneOrMany::Many(vec![
                svc(s("R"), s("G")),
                svc(s("B"), s("9")),
                svc(s("R"), s("Brn")),
                svc(s("R"), None),
            ])),
        }),
    };
    let plain = RawAlert { headline: None, short_description: None, impact: None, major_alert: None, impacted_service: None };
    let a = alerts_from(CtaAlerts { alert: Some(OneOrMany::Many(vec![alert, plain])) });
    assert_eq!(a.len(), 2);
    assert_eq!(a[0].routes, vec!["g".to_string(), "brn".to_string()]);
    assert!(a[0].major);
    assert_eq!(a[0].headline, "Delays");
    assert_eq!(a[0].short, "Slow zone");
    assert_eq!(a[0].impact, "Minor Delays");
    assert!(a[1].routes.is_empty());
    assert_eq!(a[1].headline, "");
    assert!(!a[1].major);
}

#[test]
fn regional_alerts() {
    let a = metra_alerts_from(MetraAlertsResp {
        alerts: vec![
            MetraAlert { header: s("Track work"), description: s("Single tracking"), effect: s("SIGNIFICANT_DELAYS"), routes: vec!["UP-N".into()] },
            MetraAlert { header: s(""), description: None, effect: None, routes: vec![] },
            MetraAlert { header: None, description: None, effect: None, routes: vec![] },
            MetraAlert { header: s("Notice"), description: None, effect: None, routes: vec!["BNSF".into(), "ME".into()] },
        ],
    });
    assert_eq!(a.len(), 2);
    assert_eq!(a[0].impact, "Significant Delays");
    assert_eq!(a[0].routes, vec!["up-n".to_string()]);
    assert!(!a[0].major);
    assert_eq!(a[1].headline, "Notice");
    assert_eq!(a[1].short, "");
    assert_eq!(a[1].impact, "");
    assert_eq!(a[1].routes, vec!["bnsf".to_string(), "me".to_string()]);
}

fn mt(label: &str, route: Option<String>) -> MetraTrain {
    MetraTrain { label: s(label), route, heading: Some(270), lat: s("41.9"), lon: s("-87.6") }
}

#[test]
fn regional_boards_group_by_route() {
    let boards = metra_boards(MetraResp {
        trains: vec![mt("301", s("UP-N")), mt("1200", s("BNSF")), mt("9", None), mt("10", s("")), mt("305", s("up-n"))],
    });
    assert_eq!(boards.len(), 2);
    assert_eq!(boards[0].key, "bnsf");
    assert_eq!(boards[0].label, "BNSF");
    assert_eq!(boards[1].key, "up-n");
    assert_eq!(boards[1].label, "UP-N");
    let runs: Vec<&str> = boards[1].trains.iter().map(|t| t.run.as_str()).collect();
    assert_eq!(runs, vec!["301", "305"]);
    let t = &boards[0].trains[0];
    assert_eq!(t.heading, Some(270));
    assert_eq!(t.eta_min, None);
    assert_eq!(t.dest, "");
    assert_eq!(t.dir, None);
    assert!(metra_boards(MetraResp { trains: vec![] }).is_empty());
}

#[test]
fn south_shore_board() {
    let b = ss_board(SsResp {
        trains: vec![
            SsTrain { label: s("7"), heading: Some(90), lat: None, lon: None },
            SsTrain { label: None, heading: None, lat: s("41.6"), lon: s("-87.5") },
        ],
    });
    assert_eq!(b.key, "ss");
    assert_eq!(b.label, "South Shore");
    assert_eq!(b.trains.len(), 2);
    assert_eq!(b.trains[0].run, "7");
    assert_eq!(b.trains[1].run, "");
    assert_eq!(b.trains[1].lat, s("41.6"));
    let t = regional_train(None, None, None, None);
    assert_eq!(t.run, "");
    assert!(!t.approaching);
}

#[test]
fn regional_status_rows() {
    let nominal = regional_status("SS", "ss", None);
    assert_eq!(nominal.route, "SS");
    assert_eq!(nominal.status, "Normal Service");
    assert_eq!(nominal.color_hex, s("#F6931C"));
    assert_eq!(nominal.status_color_hex, s("#00b300"));
    let alerted = regional_status("UP-N", "up-n", Some("Delays"));
    assert_eq!(alerted.status, "Delays");
    assert_eq!(alerted.status_color_hex, s("#f9a825"));
    let blank = regional_status("X", "zzz", Some(""));
    assert_eq!(blank.status, "Normal Service");
    assert_eq!(blank.status_color_hex, s("#f9a825"));
    assert_eq!(blank.color_hex, None);
}

fn alert(impact: &str, routes: &[&str]) -> Alert {
    Alert {
        headline: "h".into(),
        short: String::new(),
        impact: impact.into(),
        major: false,
        routes: routes.iter().map(|r| r.to_string()).collect(),
    }
}

#[test]
fn metra_status_uses_first_matching_alert() {
    let alerts = vec![alert("", &["bnsf"]), alert("Delays", &["up-n"]), alert("Later", &["up-n"])];
    let up = metra_status("UP-N", &alerts);
    assert_eq!(up.route, "UP-N");
    assert_eq!(up.status, "Delays");
    assert_eq!(up.color_hex, s("#008000"));
    let bn = metra_status("bnsf", &alerts);
    assert_eq!(bn.route, "BNSF");
    assert_eq!(bn.status, "Alert");
    assert_eq!(bn.status_color_hex, s("#f9a825"));
    let me = metra_status("me", &alerts);
    assert_eq!(me.status, "Normal Service");
    assert_eq!(me.status_color_hex, s("#00b300"));
}

fn board(key: &str) -> RouteBoard {
    RouteBoard { key: key.into(), label: key.to_uppercase(), trains: vec![] }
}

fn status(route: &str) -> RouteStatus {
    RouteStatus { route: route.into(), status: "Normal Service".into(), color_hex: None, status_color_hex: None }
}

#[test]
fn snapshot_folds_every_feed() {
    let snap = assemble_snapshot(
        "14:32:07".into(),
        Ok(vec![board("g")]),
        Ok(vec![]),
        Some(vec![status("Green Line")]),
        Some(vec![alert("x", &["g"])]),
        Some(RegionalFeeds {
            alerts: vec![alert("Delays", &["up-n"])],
            metra: Some(vec![board("up-n"), board("bnsf")]),
            southshore: Some(board("ss")),
        }),
    );
    assert_eq!(snap.updated, "14:32:07");
    assert_eq!(snap.error, None);
    let keys: Vec<&str> = snap.boards.iter().map(|b| b.key.as_str()).collect();
    assert_eq!(keys, vec!["g", "up-n", "bnsf", "ss"]);
    let rows: Vec<(&str, &str)> = snap.statuses.iter().map(|s| (s.route.as_str(), s.status.as_str())).collect();
    assert_eq!(rows, vec![("Green Line", "Normal Service"), ("UP-N", "Delays"), ("BNSF", "Normal Service"), ("SS", "Normal Service")]);
    assert_eq!(snap.alerts.len(), 2);
    assert_eq!(snap.alerts[1].impact, "Delays");
}

#[test]
fn snapshot_reports_the_first_failure() {
    let snap = assemble_snapshot("t".into(), Err("timeout".into()), Err("refused".into()), None, None, None);
    assert_eq!(snap.error, Some("positions: timeout".to_string()));
    assert!(snap.boards.is_empty());
    let snap = assemble_snapshot("t".into(), Ok(vec![board("g")]), Err("refused".into()), None, None, None);
    assert_eq!(snap.error, Some("arrivals: refused".to_string()));
    assert_eq!(snap.boards.len(), 1);
    assert!(snap.statuses.is_empty());
    let snap = assemble_snapshot(
        "t".into(),
        Ok(vec![]),
        Ok(vec![]),
        None,
        None,
        Some(RegionalFeeds { alerts: vec![], metra: None, southshore: None }),
    );
    assert_eq!(snap.error, None);
    assert!(snap.boards.is_empty());
}

#[test]
fn history_with_and_without_regional() {
    let metra = || Some(MetraResp { trains: vec![mt("301", s("UP-N"))] });
    let ss = || Some(SsResp { trains: vec![] });
    let h = hist_snap_from(ctatt(None, None), metra(), ss(), true);
    let keys: Vec<&str> = h.boards.iter().map(|b| b.key.as_str()).collect();
    assert_eq!(keys, vec!["G", "red", "up-n", "ss"]);
    let h = hist_snap_from(ctatt(None, None), metra(), ss(), false);
    assert_eq!(h.boards.len(), 2);
    let h = hist_snap_from(ctatt(None, None), None, ss(), true);
    assert_eq!(h.boards.len(), 3);
}

#[test]
fn poll_stamp_reads_as_a_clock() {
    let c: Vec<char> = poll_stamp().chars().collect();
    assert_eq!(c.len(), 8);
    assert_eq!(c[2], ':');
    assert_eq!(c[5], ':');
    for i in [0, 1, 3, 4, 6, 7] {
        assert!(c[i].is_ascii_digit());
    }
    let two = |i: usize| c[i].to_digit(10).unwrap() * 10 + c[i + 1].to_digit(10).unwrap();
    assert!(two(0) <= 23);
    assert!(two(3) <= 59);
    assert!(two(6) <= 60);
}

#[test]
fn clock_reading_has_subsecond_nanos() {
    for _ in 0..100 {
        assert!(local_now().nanos < 1_000_000_000);
    }
}
