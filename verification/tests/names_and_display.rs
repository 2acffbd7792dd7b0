use cta_tui::display::{fmt_eta, heading_arrow, parse_hex, route_color, status_color, trunc, LineColor};
use cta_tui::fuzzy::{fuzzy_score, score_fits};
use cta_tui::lines::{is_rail_line, pretty_effect, pretty_route, regional_hex, short_line};

#[test]
fn fuzzy_empty_needle_scores_zero() {
    assert_eq!(fuzzy_score("Kedzie", ""), Some(0));
    assert_eq!(fuzzy_score("", ""), Some(0));
}

#[test]
fn fuzzy_prefix_rewards_boundary_and_run() {
    // 'k' at a word start (+15, +1), then two contiguous hits (+10, +1 each)
    assert_eq!(fuzzy_score("Kedzie", "ked"), Some(38));
    assert_eq!(fuzzy_score("kedzie", "KED"), Some(38));
}

#[test]
fn fuzzy_gaps_and_late_start_cost() {
    assert_eq!(fuzzy_score("Clark/Lake", "lake"), Some(8));
}

#[test]
fn fuzzy_spaces_in_needle_must_match_too() {
    assert_eq!(fuzzy_score("Kedzie", "ked zie"), None);
    assert_eq!(fuzzy_score("Kedzie", "   "), None);
    assert_eq!(fuzzy_score("ab", "a b"), None);
    assert_eq!(fuzzy_score("Harlem Lake", "m l"), Some(33));
    assert_eq!(fuzzy_score("Clark/Lake", "k/l"), Some(34));
}

#[test]
fn fuzzy_ignores_case_on_both_sides() {
    assert_eq!(fuzzy_score("KEDZIE", "kEd"), fuzzy_score("Kedzie", "ked"));
    assert_eq!(fuzzy_score("HARLEM LAKE", "M L"), Some(33));
}

#[test]
fn fuzzy_fit_check_accepts_ordinary_names() {
    assert!(score_fits("Kedzie", "ked"));
    assert!(score_fits("", ""));
    assert!(score_fits("Kedzie", "q"));
    let long = "x".repeat(3000);
    assert!(score_fits(&long, "x"));
}

#[test]
fn fuzzy_no_subsequence_is_none() {
    assert_eq!(fuzzy_score("Kedzie", "q"), None);
    assert_eq!(fuzzy_score("Kedzie", "eik"), None);
    assert_eq!(fuzzy_score("", "a"), None);
}

#[test]
fn fuzzy_word_start_beats_mid_word() {
    let a = fuzzy_score("Wabash", "wabash").unwrap();
    let b = fuzzy_score("Washington/Wabash", "wabash").unwrap();
    assert_eq!(a, 71);
    assert_eq!(b, 51);
    assert!(a > b);
}

#[test]
fn route_names() {
    assert_eq!(pretty_route("red"), "Red");
    assert_eq!(pretty_route("G"), "Green");
    assert_eq!(pretty_route("Brn"), "Brown");
    assert_eq!(pretty_route("pexp"), "Purple");
    assert_eq!(pretty_route("p"), "Purple");
    assert_eq!(pretty_route("UP-NW"), "UP-NW");
    assert_eq!(pretty_route("me"), "Metra Electric");
    assert_eq!(pretty_route("ss"), "South Shore");
    assert_eq!(pretty_route("XYZ"), "xyz");
}

#[test]
fn regional_colors() {
    assert_eq!(regional_hex("BNSF"), Some("#29C233"));
    assert_eq!(regional_hex("ss"), Some("#F6931C"));
    assert_eq!(regional_hex("up-w"), Some("#FE8D81"));
    assert_eq!(regional_hex("red"), None);
}

#[test]
fn rail_line_names() {
    assert!(is_rail_line("Red Line"));
    assert!(is_rail_line("  Green Line "));
    assert!(is_rail_line("PURPLE LINE EXPRESS"));
    assert!(!is_rail_line("Route 9"));
    assert!(!is_rail_line("Green"));
}

#[test]
fn short_line_labels() {
    assert_eq!(short_line("Red Line"), "RED");
    assert_eq!(short_line("Purple Line Express"), "PEXP");
    assert_eq!(short_line(" Yellow Line"), "YEL");
    assert_eq!(short_line(" Route 9 "), "route 9");
}

#[test]
fn effect_names() {
    assert_eq!(pretty_effect("SIGNIFICANT_DELAYS".to_string()), "Significant Delays");
    assert_eq!(pretty_effect("DETOUR".to_string()), "Detour");
    assert_eq!(pretty_effect("".to_string()), "");
    assert_eq!(pretty_effect("a__b".to_string()), "A  B");
}

#[test]
fn eta_labels() {
    assert_eq!(fmt_eta(Some(0)), "DUE");
    assert_eq!(fmt_eta(Some(-3)), "DUE");
    assert_eq!(fmt_eta(Some(12)), "12m");
    assert_eq!(fmt_eta(Some(1)), "1m");
    assert_eq!(fmt_eta(None), "--");
}

#[test]
fn truncation() {
    assert_eq!(trunc("Harlem/Lake", 6), "Harle…");
    assert_eq!(trunc("abc", 3), "abc");
    assert_eq!(trunc("abcd", 0), "…");
    assert_eq!(trunc("Clark/Lake", 1), "…");
}

#[test]
fn heading_arrows() {
    assert_eq!(heading_arrow(None), '•');
    assert_eq!(heading_arrow(Some(0)), '↑');
    assert_eq!(heading_arrow(Some(22)), '↑');
    assert_eq!(heading_arrow(Some(23)), '↗');
    assert_eq!(heading_arrow(Some(90)), '→');
    assert_eq!(heading_arrow(Some(180)), '↓');
    assert_eq!(heading_arrow(Some(270)), '←');
    assert_eq!(heading_arrow(Some(337)), '↖');
    assert_eq!(heading_arrow(Some(338)), '↑');
    assert_eq!(heading_arrow(Some(359)), '↑');
}

#[test]
fn heading_arrows_agree_with_float_rounding() {
    let arrows = ['↑', '↗', '→', '↘', '↓', '↙', '←', '↖'];
    for d in 0..=u16::MAX {
        let idx = (((d as f32 + 22.5) / 45.0) as usize) % 8;
        assert_eq!(heading_arrow(Some(d)), arrows[idx]);
    }
}

#[test]
fn line_colors() {
    assert_eq!(route_color("G"), LineColor::Rgb(0x00, 0x9b, 0x3a));
    assert_eq!(route_color("pexp"), LineColor::Rgb(0x52, 0x2c, 0xa8));
    assert_eq!(route_color("bnsf"), LineColor::Gray);
}

#[test]
fn status_colors() {
    assert_eq!(status_color(&Some("#00b300".to_string())), LineColor::Rgb(0x00, 0xb3, 0x00));
    assert_eq!(status_color(&Some("##ffffff".to_string())), LineColor::Rgb(255, 255, 255));
    assert_eq!(status_color(&Some("F9A825".to_string())), LineColor::Rgb(0xf9, 0xa8, 0x25));
    assert_eq!(status_color(&Some("bad".to_string())), LineColor::Gray);
    assert_eq!(status_color(&Some("#00b30".to_string())), LineColor::Gray);
    assert_eq!(status_color(&None), LineColor::Gray);
    assert_eq!(parse_hex("+f+f+f"), Some(LineColor::Rgb(15, 15, 15)));
    assert_eq!(parse_hex("-f0000"), None);
    assert_eq!(parse_hex("é1234"), None);
}
