use cta_tui::config::{
    desktop_title, escape_quoted, icon_names_file, icon_title, is_switched_off, key_missing, notification_script,
    parse_i64, parse_routes, parse_u64, settings_from,
};
use cta_tui::model::{Arrival, RouteStatus, Train};
use cta_tui::panels::{
    arrival_row, fault_line, home_title, line_title, status_row, track_count, tracking_line, train_row, blink_on, contains_chars, flag_tag, is_home_station, on_upper_rail, scan_state, station_mark, status_is_normal,
    sweep_glyph, terminus_labels, train_flag, train_mark, Flag, RowBuf, Scan, Tone,
};

#[test]
fn blink_and_sweep_follow_the_frame() {
    assert!(blink_on(0));
    assert!(blink_on(1));
    assert!(!blink_on(2));
    assert!(!blink_on(3));
    assert!(blink_on(4));
    assert_eq!(sweep_glyph(0), '◜');
    assert_eq!(sweep_glyph(2), '◝');
    assert_eq!(sweep_glyph(5), '◞');
    assert_eq!(sweep_glyph(7), '◟');
    assert_eq!(sweep_glyph(8), '◜');
    assert_eq!(sweep_glyph(u64::MAX), '◟');
}

#[test]
fn banner_and_flags_pick_the_first_that_applies() {
    assert_eq!(scan_state(true, true), Scan::Acquiring);
    assert_eq!(scan_state(false, true), Scan::LinkFault);
    assert_eq!(scan_state(false, false), Scan::Tracking);
    assert_eq!(train_flag(true, true), Flag::Delayed);
    assert_eq!(train_flag(false, true), Flag::Approaching);
    assert_eq!(train_flag(false, false), Flag::Plain);
    assert_eq!(flag_tag(Flag::Delayed), "DLY");
    assert_eq!(flag_tag(Flag::Approaching), "APP");
    assert_eq!(flag_tag(Flag::Plain), "");
}

#[test]
fn marks_rank_home_and_delays_highest() {
    assert_eq!(station_mark(true, true), ('★', Tone::Home, 3));
    assert_eq!(station_mark(false, true), ('◆', Tone::Terminus, 2));
    assert_eq!(station_mark(false, false), ('┿', Tone::Station, 1));
    assert_eq!(train_mark(true, true, true), Some((Tone::Delayed, 3)));
    assert_eq!(train_mark(true, false, false), None);
    assert_eq!(train_mark(false, true, false), Some((Tone::Approaching, 2)));
    assert_eq!(train_mark(false, false, true), Some((Tone::Train, 1)));
    assert!(on_upper_rail(&Some("1".to_string())));
    assert!(!on_upper_rail(&Some("5".to_string())));
    assert!(!on_upper_rail(&Some("11".to_string())));
    assert!(!on_upper_rail(&None));
}

#[test]
fn substring_search_and_status_text() {
    let hay: Vec<char> = "Harlem/Lake".chars().collect();
    assert!(contains_chars(&hay, &"m/L".chars().collect()));
    assert!(contains_chars(&hay, &"Lake".chars().collect()));
    assert!(contains_chars(&hay, &Vec::new()));
    assert!(!contains_chars(&hay, &"lake".chars().collect()));
    assert!(!contains_chars(&"ab".chars().collect(), &"abc".chars().collect()));
    assert!(status_is_normal("Normal Service"));
    assert!(status_is_normal("ABNORMAL"));
    assert!(!status_is_normal("Significant Delays"));
    assert!(!status_is_normal(""));
}

#[test]
fn home_station_matches_by_lowercase_containment() {
    assert!(is_home_station("Kedzie", "kedzie"));
    assert!(is_home_station("Kedzie-Homan", "KEDZIE"));
    assert!(!is_home_station("Pulaski", "Kedzie"));
    assert!(!is_home_station("Kedzie", ""));
    assert!(!is_home_station("", "Kedzie"));
}

#[test]
fn row_buffer_keeps_the_higher_rank() {
    let mut row = RowBuf::new(5, '─', Tone::Dim);
    row.put_prio(2, '┿', Tone::Station, 1);
    row.put_prio(2, '●', Tone::Train, 1);
    row.put_prio(2, '┿', Tone::Station, 0);
    row.put_prio(9, 'x', Tone::Delayed, 3);
    assert_eq!(row.ch, vec!['─', '─', '●', '─', '─']);
    assert_eq!(row.prio, vec![0, 0, 1, 0, 0]);
    row.put_prio(2, '●', Tone::Delayed, 3);
    row.put_prio(2, '●', Tone::Approaching, 2);
    assert_eq!(row.st[2], Tone::Delayed);
    row.put(0, '◀', Tone::Approaching);
    assert_eq!(row.prio[0], 0);
    row.write_str(3, "ABC", Tone::Dim);
    assert_eq!(row.ch, vec!['◀', '─', '●', 'A', 'B']);
    let spans = row.into_line();
    assert_eq!(
        spans,
        vec![
            ("◀".to_string(), Tone::Approaching),
            ("─".to_string(), Tone::Dim),
            ("●".to_string(), Tone::Delayed),
            ("AB".to_string(), Tone::Dim),
        ]
    );
}

#[test]
fn an_empty_row_has_no_spans() {
    let row = RowBuf::new(0, ' ', Tone::Blank);
    assert!(row.into_line().is_empty());
    let row = RowBuf::new(3, ' ', Tone::Blank);
    assert_eq!(row.into_line(), vec![("   ".to_string(), Tone::Blank)]);
}

#[test]
fn route_settings_are_split_and_trimmed() {
    assert_eq!(parse_routes("red, g,,blue"), vec!["red", "g", "blue"]);
    assert_eq!(parse_routes(" Brn ,\tP "), vec!["Brn", "P"]);
    assert!(parse_routes("").is_empty());
    assert!(parse_routes(" , ,").is_empty());
}

#[test]
fn switch_settings_read_off_case_insensitively() {
    assert!(is_switched_off("0"));
    assert!(is_switched_off("FALSE"));
    assert!(is_switched_off("Off"));
    assert!(!is_switched_off("1"));
    assert!(!is_switched_off("no"));
    assert!(!is_switched_off(" off"));
    assert!(!is_switched_off(""));
}

#[test]
fn notification_titles_and_script() {
    assert!(icon_names_file("/usr/share/icons/train.png"));
    assert!(!icon_names_file("🚆"));
    assert_eq!(icon_title("🚆", "CTA"), "🚆 CTA");
    assert_eq!(icon_title("", "CTA"), "CTA");
    assert_eq!(icon_title("a/b.png", "CTA"), "CTA");
    assert_eq!(desktop_title("", "CTA"), "CTA");
    assert_eq!(desktop_title("🚆", " CTA "), "🚆  CTA");
    assert_eq!(desktop_title("x/y.png", " CTA "), " CTA ");
    assert_eq!(escape_quoted(r#"say "hi" \o/"#), r#"say \"hi\" \\o/"#);
    assert_eq!(
        notification_script("Red: \"delay\"", "CTA"),
        "display notification \"Red: \\\"delay\\\"\" with title \"CTA\""
    );
}

#[test]
fn terminus_labels_sit_at_both_ends() {
    let row = terminus_labels(12, "Harlem/Lake", "Cottage Grove");
    let text: String = row.ch.iter().collect();
    assert_eq!(text, "Harl…  Cott…");
    assert!(row.st.iter().all(|t| *t == Tone::Dim));
    let row = terminus_labels(10, "Loop", "Ki");
    let text: String = row.ch.iter().collect();
    assert_eq!(text, "Loop    Ki");
    let row = terminus_labels(2, "A", "B");
    let text: String = row.ch.iter().collect();
    assert_eq!(text, "……");
}

#[test]
fn integers_parse_as_std_does() {
    for t in ["0", "30", "+7", "007", "18446744073709551615", "18446744073709551616", "-1", "", "+", " 5", "5 ", "1_000", "٣"] {
        assert_eq!(parse_u64(t), t.parse::<u64>().ok(), "u64 {t:?}");
    }
    for t in [
        "0", "-0", "6", "+6", "-6", "-", "+", "--1", "-+1", "9223372036854775807", "9223372036854775808",
        "-9223372036854775808", "-9223372036854775809", "", "1e3", "١",
    ] {
        assert_eq!(parse_i64(t), t.parse::<i64>().ok(), "i64 {t:?}");
    }
    assert_eq!(parse_i64("-9223372036854775808"), Some(i64::MIN));
    assert_eq!(parse_u64("+18446744073709551615"), Some(u64::MAX));
}

#[test]
fn settings_fall_back_to_defaults() {
    let s = settings_from(None, None, None, None, None, None, None);
    assert_eq!(s.routes, vec!["red", "blue", "brn", "g", "org", "p", "pink", "y"]);
    assert_eq!(s.home_mapid, "41070");
    assert_eq!(s.home_name, "Kedzie");
    assert_eq!(s.refresh, 30);
    assert_eq!(s.alert_min, 6);
    assert!(s.notify_enabled);
    assert!(s.metra);

    let v = |x: &str| Some(x.to_string());
    let s = settings_from(v(" g , pink,"), v("40380"), v("Clark/Lake"), v("15"), v("-2"), v("OFF"), v("0"));
    assert_eq!(s.routes, vec!["g", "pink"]);
    assert_eq!(s.home_mapid, "40380");
    assert_eq!(s.home_name, "Clark/Lake");
    assert_eq!(s.refresh, 15);
    assert_eq!(s.alert_min, -2);
    assert!(!s.notify_enabled);
    assert!(!s.metra);

    let s = settings_from(v(""), None, None, v("soon"), v("6.5"), v("yes"), v(""));
    assert!(s.routes.is_empty());
    assert_eq!(s.refresh, 30);
    assert_eq!(s.alert_min, 6);
    assert!(s.notify_enabled);
    assert!(s.metra);
}

#[test]
fn a_blank_key_is_missing() {
    assert!(key_missing(""));
    assert!(key_missing(" \t\n"));
    assert!(!key_missing("abc"));
    assert!(!key_missing(" abc "));
}

#[test]
fn board_rows_are_laid_out_in_columns() {
    let t = Train {
        run: "12".into(),
        dest: "Ashland/63rd Street".into(),
        next_station: "California".into(),
        eta_min: Some(3),
        approaching: true,
        delayed: false,
        heading: Some(90),
        dir: None,
        lat: None,
        lon: None,
    };
    let r = train_row(&t);
    assert_eq!(r.arrow, " → ");
    assert_eq!(r.run, "#12   ");
    assert_eq!(r.eta, "  3m ");
    assert_eq!(r.tag, "APP ");
    assert_eq!(r.next, "→ California      ");
    assert_eq!(r.dest, " ▸ Ashland/63r…");
    let late = Train { eta_min: None, delayed: true, heading: None, run: "12345".into(), ..t };
    let r = train_row(&late);
    assert_eq!(r.arrow, " • ");
    assert_eq!(r.run, "#12345 ");
    assert_eq!(r.eta, "  -- ");
    assert_eq!(r.tag, "DLY ");

    let a = Arrival {
        station: "Kedzie".into(),
        run: "1".into(),
        route: "G".into(),
        dest: "Harlem/Lake".into(),
        eta_min: Some(0),
        approaching: false,
        delayed: false,
    };
    assert_eq!(arrival_row(&a), ("  DUE ".to_string(), "Harlem/Lake".to_string()));

    let s = RouteStatus {
        route: "Green Line".into(),
        status: "Significant Delays".into(),
        color_hex: None,
        status_color_hex: None,
    };
    let (name, status) = status_row(&s);
    assert_eq!(name, "GRN  ");
    assert_eq!(status, " Significan…");
}

#[test]
fn titles_and_tallies() {
    assert_eq!(line_title("Green"), " GREEN LINE ");
    assert_eq!(line_title("—"), " — LINE ");
    assert_eq!(track_count(11), "[11 TRK] ←/→ ");
    assert_eq!(track_count(0), "[0 TRK] ←/→ ");
    assert_eq!(home_title("Kedzie"), "KEDZIE ");
    assert_eq!(home_title("Harold Washington Library"), "HAROLD WASHINGTON… ");
    assert_eq!(fault_line("positions: timeout"), " ⚠ positions: timeout ");
    assert_eq!(fault_line(&"x".repeat(50)), format!(" ⚠ {}… ", "x".repeat(39)));
    assert_eq!(tracking_line(87, 8), " 87 TRAINS // 8 LINES TRACKED ");
}
