//! The board's data: trains, boards, arrivals, statuses, alerts and the
//! snapshot that one poll of the feeds produces.

use vstd::prelude::*;

verus! {

/// One train on a line, as the board shows it.
pub struct Train {
    pub run: String,
    pub dest: String,
    pub next_station: String,
    pub eta_min: Option<i64>,
    pub approaching: bool,
    pub delayed: bool,
    /// Compass heading in degrees.
    pub heading: Option<u16>,
    /// Trip direction ("1"/"5"), which splits the two rails.
    pub dir: Option<String>,
    /// Position as the feed wrote it (decimal degrees); the strip map projects it.
    pub lat: Option<String>,
    pub lon: Option<String>,
}

/// The trains of one line.
pub struct RouteBoard {
    /// Feed route key: "red", "g", ...
    pub key: String,
    /// Display name: "Red", "Green", ...
    pub label: String,
    pub trains: Vec<Train>,
}

/// A predicted arrival at the home station.
pub struct Arrival {
    pub station: String,
    /// Train run number, for de-duping approach alerts.
    pub run: String,
    pub route: String,
    pub dest: String,
    pub eta_min: Option<i64>,
    pub approaching: bool,
    pub delayed: bool,
}

/// The service status of one line.
pub struct RouteStatus {
    pub route: String,
    pub status: String,
    pub color_hex: Option<String>,
    pub status_color_hex: Option<String>,
}

/// A service alert, tagged with the rail lines it impacts.
pub struct Alert {
    pub headline: String,
    pub short: String,
    pub impact: String,
    pub major: bool,
    /// Impacted rail route keys, lowercased (g, brn, ...).
    pub routes: Vec<String>,
}

/// Everything one poll brings in.
pub struct Snapshot {
    pub updated: String,
    pub boards: Vec<RouteBoard>,
    pub arrivals: Vec<Arrival>,
    pub statuses: Vec<RouteStatus>,
    pub alerts: Vec<Alert>,
    pub error: Option<String>,
}

impl Default for Snapshot {
    fn default() -> (s: Snapshot)
        ensures
            s.updated@.len() == 0,
            s.boards@.len() == 0,
            s.arrivals@.len() == 0,
            s.statuses@.len() == 0,
            s.alerts@.len() == 0,
            s.error is None,
    {
        Snapshot {
            updated: String::new(),
            boards: Vec::new(),
            arrivals: Vec::new(),
            statuses: Vec::new(),
            alerts: Vec::new(),
            error: None,
        }
    }
}

/// One row of the replay timeline.
pub struct Frame {
    pub id: i64,
    /// Epoch milliseconds.
    pub observed_at: i64,
    pub train_count: i64,
}

/// A historical snapshot decoded into renderable boards.
pub struct HistSnap {
    pub boards: Vec<RouteBoard>,
}

/// The views of a list of strings.
pub open spec fn texts(v: Seq<String>) -> Seq<Seq<char>> {
    v.map_values(|s: String| s@)
}

} // verus!
