//! One poll folds the feeds' answers into a snapshot. Only a failure of the
//! positions or arrivals feed is reported; the status and alert feeds, and
//! the regional feeds, simply leave out what failed so that a hiccup never
//! blanks the board.

use vstd::prelude::*;
use vstd::string::StringExecFns;
use crate::feed::{board_from, flat_items, PosCtatt, boards_from_ctatt};
use crate::model::{Alert, Arrival, HistSnap, RouteBoard, RouteStatus, Snapshot};
use crate::regional::{grouped, metra_boards, metra_row, regional_status, ss_board, ss_row, MetraResp, SsResp, regional_from};
use crate::text::lowercase;
use crate::lines::route_label;

verus! {

/// What the regional feeds brought: their alerts (empty when that feed
/// failed), and the regional boards and the South Shore board where those
/// feeds answered.
pub struct RegionalFeeds {
    pub alerts: Vec<Alert>,
    pub metra: Option<Vec<RouteBoard>>,
    pub southshore: Option<RouteBoard>,
}

/// The items of a successful answer, none for a failed one.
pub open spec fn ok_items<T>(r: Result<Vec<T>, String>) -> Seq<T> {
    match r {
        Ok(v) => v@,
        Err(_) => seq![],
    }
}

/// The items of an answer that came, none for one that did not.
pub open spec fn some_items<T>(o: Option<Vec<T>>) -> Seq<T> {
    match o {
        Some(v) => v@,
        None => seq![],
    }
}

/// The snapshot's error line: the positions failure first, else the arrivals failure.
pub open spec fn poll_error(positions: Result<Vec<RouteBoard>, String>, arrivals: Result<Vec<Arrival>, String>) -> Option<Seq<char>> {
    match positions {
        Err(e) => Some("positions: "@ + e@),
        Ok(_) => match arrivals {
            Err(e) => Some("arrivals: "@ + e@),
            Ok(_) => None,
        },
    }
}

/// The regional boards that answered.
pub open spec fn regional_metra(r: Option<RegionalFeeds>) -> Seq<RouteBoard> {
    match r {
        Some(f) => some_items(f.metra),
        None => seq![],
    }
}

/// The South Shore board, if it answered.
pub open spec fn regional_ss(r: Option<RegionalFeeds>) -> Seq<RouteBoard> {
    match r {
        Some(f) => match f.southshore {
            Some(b) => seq![b],
            None => seq![],
        },
        None => seq![],
    }
}

/// The regional alerts.
pub open spec fn regional_alerts(r: Option<RegionalFeeds>) -> Seq<Alert> {
    match r {
        Some(f) => f.alerts@,
        None => seq![],
    }
}

fn prefixed(prefix: &str, e: String) -> (r: String)
    ensures
        r@ == prefix@ + e@,
{
    let mut s = prefix.to_owned();
    s.append(e.as_str());
    s
}

/// `snap` folds one poll's answers: CTA boards then the regional boards and
/// South Shore; the status rows, then a row per regional board (flagged by
/// its alerts) and one for South Shore; CTA alerts then the regional alerts;
/// and the error line of a failed positions or arrivals feed.
pub open spec fn folded(
    snap: Snapshot,
    positions: Result<Vec<RouteBoard>, String>,
    arrivals: Result<Vec<Arrival>, String>,
    statuses: Option<Vec<RouteStatus>>,
    alerts: Option<Vec<Alert>>,
    regional: Option<RegionalFeeds>,
) -> bool {
    &&& match snap.error {
        Some(e) => poll_error(positions, arrivals) == Some(e@),
        None => poll_error(positions, arrivals) is None,
    }
    &&& snap.boards@ == ok_items(positions) + regional_metra(regional) + regional_ss(regional)
    &&& snap.arrivals@ == ok_items(arrivals)
    &&& snap.statuses@.len() == some_items(statuses).len() + regional_metra(regional).len() + regional_ss(regional).len()
    &&& snap.statuses@.subrange(0, some_items(statuses).len() as int) == some_items(statuses)
    &&& forall|i: int|
        0 <= i < regional_metra(regional).len() ==> metra_row(
            #[trigger] snap.statuses@[some_items(statuses).len() + i],
            regional_metra(regional)[i].key@,
            regional_alerts(regional),
        )
    &&& regional_ss(regional).len() > 0 ==> ss_row(snap.statuses@[snap.statuses@.len() - 1])
    &&& snap.alerts@ == some_items(alerts) + regional_alerts(regional)
}

/// Fold one poll's answers into a snapshot stamped `updated`.
pub fn assemble_snapshot(
    updated: String,
    positions: Result<Vec<RouteBoard>, String>,
    arrivals: Result<Vec<Arrival>, String>,
    statuses: Option<Vec<RouteStatus>>,
    alerts: Option<Vec<Alert>>,
    regional: Option<RegionalFeeds>,
) -> (snap: Snapshot)
    ensures
        snap.updated == updated,
        folded(snap, positions, arrivals, statuses, alerts, regional),
{
    let ghost pos_items = ok_items(positions);
    let ghost arr_items = ok_items(arrivals);
    let ghost st_items = some_items(statuses);
    let ghost al_items = some_items(alerts);
    let ghost reg = regional;
    let mut error: Option<String> = None;
    let mut boards = match positions {
        Ok(b) => b,
        Err(e) => {
            error = Some(prefixed("positions: ", e));
            Vec::new()
        },
    };
    let arrivals_v = match arrivals {
        Ok(a) => a,
        Err(e) => {
            if error.is_none() {
                error = Some(prefixed("arrivals: ", e));
            }
            Vec::new()
        },
    };
    let mut statuses_v = match statuses {
        Some(s) => s,
        None => Vec::new(),
    };
    let ghost base_statuses = statuses_v@;
    let mut alerts_v = match alerts {
        Some(a) => a,
        None => Vec::new(),
    };
    assert(boards@ == pos_items);
    match regional {
        Some(feeds) => {
            let RegionalFeeds { alerts: mut metra_alerts, metra, southshore } = feeds;
            let ghost ralerts = metra_alerts@;
            match metra {
                Some(mut mb) => {
                    let ghost mbv = mb@;
                    let mut i: usize = 0;
                    while i < mb.len()
                        invariant
                            mb@ == mbv,
                            ralerts == metra_alerts@,
                            i <= mbv.len(),
                            statuses_v@.len() == base_statuses.len() + i,
                            statuses_v@.subrange(0, base_statuses.len() as int) == base_statuses,
                            forall|j: int| 0 <= j < i ==> metra_row(#[trigger] statuses_v@[base_statuses.len() + j], mbv[j].key@, ralerts),
                        decreases mbv.len() - i,
                    {
                        let row = crate::regional::metra_status(mb[i].key.as_str(), metra_alerts.as_slice());
                        let ghost before = statuses_v@;
                        statuses_v.push(row);
                        assert(statuses_v@.subrange(0, base_statuses.len() as int) =~= before.subrange(0, base_statuses.len() as int));
                        assert forall|j: int| 0 <= j < i + 1 implies metra_row(#[trigger] statuses_v@[base_statuses.len() + j], mbv[j].key@, ralerts) by {
                            if j < i {
                                assert(statuses_v@[base_statuses.len() + j] == before[base_statuses.len() + j]);
                            }
                        }
                        i = i + 1;
                    }
                    boards.append(&mut mb);
                },
                None => {},
            }
            let ghost mid_statuses = statuses_v@;
            let ghost mid_boards = boards@;
            match southshore {
                Some(b) => {
                    let row = regional_status("SS", "ss", None);
                    statuses_v.push(row);
                    assert(statuses_v@.subrange(0, base_statuses.len() as int) =~= mid_statuses.subrange(0, base_statuses.len() as int));
                    assert forall|j: int| 0 <= j < mid_statuses.len() - base_statuses.len() implies #[trigger] statuses_v@[base_statuses.len() + j] == mid_statuses[base_statuses.len() + j] by {}
                    boards.push(b);
                },
                None => {},
            }
            alerts_v.append(&mut metra_alerts);
        },
        None => {},
    }
    let snap = Snapshot { updated, boards, arrivals: arrivals_v, statuses: statuses_v, alerts: alerts_v, error };
    assert(snap.boards@ =~= pos_items + regional_metra(reg) + regional_ss(reg));
    assert(snap.arrivals@ =~= arr_items);
    assert(snap.statuses@.subrange(0, st_items.len() as int) =~= st_items);
    assert(snap.alerts@ =~= al_items + regional_alerts(reg));
    snap
}

/// A wall-clock label "HH:MM:SS": hours below 24, minutes below 60 and
/// seconds up to 60 (a leap second), two zero-padded digits each.
pub open spec fn is_clock_label(s: Seq<char>) -> bool {
    &&& s.len() == 8
    &&& s[2] == ':' && s[5] == ':'
    &&& forall|i: int| 0 <= i < 8 && i != 2 && i != 5 ==> '0' <= #[trigger] s[i] && s[i] <= '9'
    &&& (s[0] as int - 48) * 10 + (s[1] as int - 48) <= 23
    &&& (s[3] as int - 48) * 10 + (s[4] as int - 48) <= 59
    &&& (s[6] as int - 48) * 10 + (s[7] as int - 48) <= 60
}

/// `chrono::Local::now().format("%H:%M:%S")`, as text. It reads the clock, so
/// which time it shows is not stated; the shape is what chrono documents for
/// that format: hour 00-23, minute 00-59, second 00-60, zero-padded.
#[verifier::external_body]
fn clock_label() -> (s: String)
    ensures
        is_clock_label(s@),
{
    chrono::Local::now().format("%H:%M:%S").to_string()
}

/// The stamp of a poll: the local wall-clock time as it reads now.
pub fn poll_stamp() -> (s: String)
    ensures
        is_clock_label(s@),
{
    clock_label()
}

/// Decode one historical snapshot into boards. When `include_regional` is
/// set, the regional and South Shore payloads captured in the same row are
/// folded in too, so replay shows the same line set as the live view.
pub fn hist_snap_from(
    payload: PosCtatt,
    metra: Option<MetraResp>,
    southshore: Option<SsResp>,
    include_regional: bool,
) -> (h: HistSnap)
    ensures
        ({
            let items = flat_items(payload.route);
            let n = items.len();
            let rest = h.boards@.subrange(n as int, h.boards@.len() as int);
            &&& n <= h.boards@.len()
            &&& forall|i: int| 0 <= i < n ==> board_from(#[trigger] h.boards@[i], items[i])
            &&& if include_regional {
                let ss_len: int = if southshore is Some { 1 } else { 0 };
                &&& rest.len() >= ss_len
                &&& match metra {
                    Some(m) => grouped(rest.subrange(0, rest.len() - ss_len), m.trains@),
                    None => rest.len() == ss_len,
                }
                &&& match southshore {
                    Some(s) => {
                        let b = rest[rest.len() - 1];
                        &&& b.key@ == "ss"@
                        &&& b.label@ == route_label(lowercase("ss"@))
                        &&& b.trains@.len() == s.trains@.len()
                        &&& forall|k: int|
                            0 <= k < b.trains@.len() ==> regional_from(
                                #[trigger] b.trains@[k],
                                s.trains@[k].label,
                                s.trains@[k].heading,
                                s.trains@[k].lat,
                                s.trains@[k].lon,
                            )
                    },
                    None => true,
                }
            } else {
                rest.len() == 0
            }
        }),
{
    let ghost items = flat_items(payload.route);
    let mut boards = boards_from_ctatt(payload);
    let ghost base = boards@;
    if include_regional {
        let ghost mut mv: Seq<RouteBoard> = seq![];
        match metra {
            Some(m) => {
                let ghost ts = m.trains@;
                let mut mb = metra_boards(m);
                proof {
                    mv = mb@;
                }
                boards.append(&mut mb);
                assert(grouped(mv, ts));
            },
            None => {},
        }
        assert(boards@ =~= base + mv);
        let ghost mid = boards@;
        match southshore {
            Some(s) => {
                let b = ss_board(s);
                boards.push(b);
                proof {
                    let rest = boards@.subrange(base.len() as int, boards@.len() as int);
                    assert(rest =~= mv.push(b));
                    assert(rest.subrange(0, rest.len() - 1) =~= mv);
                }
            },
            None => {
                let ghost rest = boards@.subrange(base.len() as int, boards@.len() as int);
                assert(rest =~= mv);
                assert(rest.subrange(0, rest.len() - 0) =~= mv);
            },
        }
        assert forall|i: int| 0 <= i < base.len() implies #[trigger] boards@[i] == base[i] by {}
    } else {
        assert(boards@.subrange(base.len() as int, boards@.len() as int) =~= Seq::<RouteBoard>::empty());
    }
    HistSnap { boards }
}

} // verus!
