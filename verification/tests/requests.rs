use cta_tui::request::{alerts_url, arrivals_url, positions_url};
use cta_tui::text::join_texts;

fn owned(v: &[&str]) -> Vec<String> {
    v.iter().map(|s| s.to_string()).collect()
}

#[test]
fn feed_addresses_carry_their_query() {
    assert_eq!(
        positions_url("k3y", &owned(&["red", "g", "blue"])),
        "https://lapi.transitchicago.com/api/1.0/ttpositions.aspx?key=k3y&rt=red,g,blue&outputType=JSON"
    );
    assert_eq!(
        arrivals_url("k3y", "41070"),
        "https://lapi.transitchicago.com/api/1.0/ttarrivals.aspx?key=k3y&mapid=41070&outputType=JSON"
    );
    assert_eq!(
        alerts_url(&owned(&["g"])),
        "https://www.transitchicago.com/api/1.0/alerts.aspx?activeonly=true&routeid=g&outputType=JSON"
    );
    assert_eq!(
        alerts_url(&[]),
        "https://www.transitchicago.com/api/1.0/alerts.aspx?activeonly=true&routeid=&outputType=JSON"
    );
}

#[test]
fn texts_join_with_a_separator() {
    assert_eq!(join_texts(&owned(&["a", "bc", ""]), ", "), "a, bc, ");
    assert_eq!(join_texts(&owned(&["only"]), ","), "only");
    assert_eq!(join_texts(&[], ","), "");
}
