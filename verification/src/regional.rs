//! Metra regional rail and NICTD South Shore: their trains become boards of
//! their own, and their lines get synthesized rows on the SYSTEM panel.

use vstd::prelude::*;
use crate::feed::{opt_text, text_or_empty};
use crate::lines::{pretty_route, regional_color, regional_hex, route_label};
use crate::model::{texts, Alert, RouteBoard, RouteStatus, Train};
use crate::text::{chars_eq, chars_lt, chars_of, lemma_text_lt_strict, lemma_text_lt_trans, lowercase, text_lt, to_lower, to_upper, uppercase};

verus! {

/// One regional train. The heading is in whole compass degrees.
pub struct MetraTrain {
    /// Train number, used as the run id.
    pub label: Option<String>,
    /// Route id (BNSF, UP-N, ...).
    pub route: Option<String>,
    pub heading: Option<u16>,
    pub lat: Option<String>,
    pub lon: Option<String>,
}

/// The regional positions feed.
pub struct MetraResp {
    pub trains: Vec<MetraTrain>,
}

/// One South Shore train; that feed is route-less.
pub struct SsTrain {
    pub label: Option<String>,
    pub heading: Option<u16>,
    pub lat: Option<String>,
    pub lon: Option<String>,
}

/// The South Shore positions feed.
pub struct SsResp {
    pub trains: Vec<SsTrain>,
}

/// `t` is the board's train for a regional train with these fields: these
/// feeds carry no ETA, next stop or rail direction.
pub open spec fn regional_from(
    t: Train,
    label: Option<String>,
    heading: Option<u16>,
    lat: Option<String>,
    lon: Option<String>,
) -> bool {
    &&& t.run@ == text_or_empty(label)
    &&& t.dest@.len() == 0
    &&& t.next_station@.len() == 0
    &&& t.eta_min is None
    &&& !t.approaching
    &&& !t.delayed
    &&& t.dir is None
    &&& t.heading == heading
    &&& opt_text(t.lat) == opt_text(lat)
    &&& opt_text(t.lon) == opt_text(lon)
}

/// Build one regional train; position and heading drive the strip map.
pub fn regional_train(label: Option<String>, heading: Option<u16>, lat: Option<String>, lon: Option<String>) -> (t: Train)
    ensures
        regional_from(t, label, heading, lat, lon),
{
    let run = match label {
        Some(s) => s,
        None => String::new(),
    };
    Train {
        run,
        dest: String::new(),
        next_station: String::new(),
        eta_min: None,
        approaching: false,
        delayed: false,
        dir: None,
        heading,
        lat,
        lon,
    }
}

/// The single route-less South Shore board.
pub fn ss_board(resp: SsResp) -> (b: RouteBoard)
    ensures
        b.key@ == "ss"@,
        b.label@ == route_label(lowercase("ss"@)),
        b.trains@.len() == resp.trains@.len(),
        forall|k: int|
            0 <= k < b.trains@.len() ==> regional_from(
                #[trigger] b.trains@[k],
                resp.trains@[k].label,
                resp.trains@[k].heading,
                resp.trains@[k].lat,
                resp.trains@[k].lon,
            ),
{
    let ghost items = resp.trains@;
    let mut trains: Vec<Train> = Vec::new();
    let mut raw = resp.trains;
    let mut rev: Vec<SsTrain> = Vec::new();
    while raw.len() > 0
        invariant
            rev@.len() + raw@.len() == items.len(),
            raw@ == items.take(raw@.len() as int),
            forall|k: int| 0 <= k < rev@.len() ==> #[trigger] rev@[k] == items[items.len() - 1 - k],
        decreases raw@.len(),
    {
        let ghost n = raw@.len();
        let t = raw.pop().unwrap();
        rev.push(t);
        assert(raw@ =~= items.take(n - 1));
    }
    while rev.len() > 0
        invariant
            rev@.len() + trains@.len() == items.len(),
            forall|k: int| 0 <= k < rev@.len() ==> #[trigger] rev@[k] == items[items.len() - 1 - k],
            forall|k: int|
                0 <= k < trains@.len() ==> regional_from(
                    #[trigger] trains@[k],
                    items[k].label,
                    items[k].heading,
                    items[k].lat,
                    items[k].lon,
                ),
        decreases rev@.len(),
    {
        let t = rev.pop().unwrap();
        trains.push(regional_train(t.label, t.heading, t.lat, t.lon));
    }
    RouteBoard { key: "ss".to_owned(), label: pretty_route("ss"), trains }
}

/// The board key of a regional train: its route id, lowercased; none for a
/// train with no or an empty route id.
pub open spec fn metra_key(t: MetraTrain) -> Option<Seq<char>> {
    match t.route {
        Some(r) => if r@.len() > 0 { Some(lowercase(r@)) } else { None },
        None => None,
    }
}

/// The regional trains whose board key is `k`, in feed order.
pub open spec fn keyed(ts: Seq<MetraTrain>, k: Seq<char>) -> Seq<MetraTrain>
    decreases ts.len(),
{
    if ts.len() == 0 {
        seq![]
    } else {
        let rest = keyed(ts.drop_last(), k);
        if metra_key(ts.last()) == Some(k) {
            rest.push(ts.last())
        } else {
            rest
        }
    }
}

/// `boards` groups the keyed trains of `ts`: one board per key, ordered by
/// key, each holding that key's trains in feed order.
pub open spec fn grouped(boards: Seq<RouteBoard>, ts: Seq<MetraTrain>) -> bool {
    &&& forall|i: int, j: int| 0 <= i < j < boards.len() ==> text_lt(#[trigger] boards[i].key@, #[trigger] boards[j].key@)
    &&& forall|i: int| 0 <= i < boards.len() ==> (#[trigger] boards[i]).label@ == route_label(lowercase(boards[i].key@))
    &&& forall|i: int|
        0 <= i < boards.len() ==> {
            let g = keyed(ts, (#[trigger] boards[i]).key@);
            &&& boards[i].trains@.len() == g.len()
            &&& g.len() > 0
            &&& forall|k: int|
                0 <= k < g.len() ==> regional_from(#[trigger] boards[i].trains@[k], g[k].label, g[k].heading, g[k].lat, g[k].lon)
        }
    &&& forall|m: int|
        0 <= m < ts.len() && (metra_key(#[trigger] ts[m]) is Some) ==> exists|i: int|
            0 <= i < boards.len() && Some((#[trigger] boards[i]).key@) == metra_key(ts[m])
}

proof fn lemma_keyed_witness(ts: Seq<MetraTrain>, k: Seq<char>)
    requires
        keyed(ts, k).len() > 0,
    ensures
        exists|m: int| 0 <= m < ts.len() && metra_key(#[trigger] ts[m]) == Some(k),
    decreases ts.len(),
{
    let init = ts.drop_last();
    if metra_key(ts.last()) == Some(k) {
        assert(metra_key(ts[ts.len() - 1]) == Some(k));
    } else {
        lemma_keyed_witness(init, k);
        let m = choose|m: int| 0 <= m < init.len() && metra_key(#[trigger] init[m]) == Some(k);
        assert(ts[m] == init[m]);
    }
}

/// The moved-out board key of a regional train's route id, lowercased.
fn key_of(route: &Option<String>) -> (r: Option<String>)
    ensures
        match r {
            Some(k) => route matches Some(x) && x@.len() > 0 && k@ == lowercase(x@),
            None => !(route matches Some(x) && x@.len() > 0),
        },
{
    match route {
        Some(x) => if x.as_str().is_empty() { None } else { Some(to_lower(x.as_str())) },
        None => None,
    }
}

/// Group regional positions into one board per route id (lowercased), in
/// key order; trains without a route id are left out.
pub fn metra_boards(resp: MetraResp) -> (boards: Vec<RouteBoard>)
    ensures
        grouped(boards@, resp.trains@),
{
    let ghost items = resp.trains@;
    let mut raw = resp.trains;
    let mut rev: Vec<MetraTrain> = Vec::new();
    while raw.len() > 0
        invariant
            rev@.len() + raw@.len() == items.len(),
            raw@ == items.take(raw@.len() as int),
            forall|k: int| 0 <= k < rev@.len() ==> #[trigger] rev@[k] == items[items.len() - 1 - k],
        decreases raw@.len(),
    {
        let ghost n = raw@.len();
        let t = raw.pop().unwrap();
        rev.push(t);
        assert(raw@ =~= items.take(n - 1));
    }
    let mut groups: Vec<RouteBoard> = Vec::new();
    let mut taken: usize = 0;
    let total = rev.len();
    assert(items.take(0) =~= Seq::<MetraTrain>::empty());
    while rev.len() > 0
        invariant
            total == items.len(),
            rev@.len() + taken == items.len(),
            forall|k: int| 0 <= k < rev@.len() ==> #[trigger] rev@[k] == items[items.len() - 1 - k],
            grouped(groups@, items.take(taken as int)),
        decreases rev@.len(),
    {
        let ghost pre = items.take(taken as int);
        let ghost post = items.take(taken + 1);
        assert(post.drop_last() =~= pre);
        let t = rev.pop().unwrap();
        assert(t == items[taken as int]);
        assert(post.last() == t);
        assert forall|m: int| 0 <= m < pre.len() implies #[trigger] post[m] == pre[m] by {}
        let key = key_of(&t.route);
        match key {
            None => {
                assert forall|k: Seq<char>| #[trigger] keyed(post, k) == keyed(pre, k) by {}
                assert forall|m: int|
                    0 <= m < post.len() && (metra_key(#[trigger] post[m]) is Some) implies exists|i: int|
                        0 <= i < groups@.len() && Some((#[trigger] groups@[i]).key@) == metra_key(post[m]) by {
                    assert(post[m] == pre[m]);
                }
            },
            Some(k) => {
                let kc = chars_of(k.as_str());
                let ghost kv = k@;
                assert(metra_key(t) == Some(kv));
                let mut p: usize = 0;
                while p < groups.len() && chars_lt(&chars_of(groups[p].key.as_str()), &kc)
                    invariant
                        p <= groups@.len(),
                        kc@ == kv,
                        forall|x: int| 0 <= x < p ==> text_lt(#[trigger] groups@[x].key@, kv),
                    decreases groups@.len() - p,
                {
                    p = p + 1;
                }
                let same = p < groups.len() && chars_eq(&chars_of(groups[p].key.as_str()), &kc);
                let ghost old_groups = groups@;
                assert forall|k2: Seq<char>| k2 != kv implies #[trigger] keyed(post, k2) == keyed(pre, k2) by {}
                assert(keyed(post, kv) == keyed(pre, kv).push(t));
                if same {
                    let mut g = groups.remove(p);
                    let ghost g_old = g;
                    g.trains.push(regional_train(t.label, t.heading, t.lat, t.lon));
                    groups.insert(p, g);
                    proof {
                        let ng = groups@;
                        assert(ng =~= old_groups.update(p as int, g));
                        assert forall|i: int| 0 <= i < ng.len() implies #[trigger] ng[i].key@ == old_groups[i].key@ by {}
                        assert forall|i: int, j: int| 0 <= i < j < ng.len() implies text_lt(#[trigger] ng[i].key@, #[trigger] ng[j].key@) by {
                            assert(text_lt(old_groups[i].key@, old_groups[j].key@));
                        }
                        assert forall|i: int| 0 <= i < ng.len() implies {
                            let gg = keyed(post, (#[trigger] ng[i]).key@);
                            &&& ng[i].trains@.len() == gg.len()
                            &&& gg.len() > 0
                            &&& forall|q: int|
                                0 <= q < gg.len() ==> regional_from(#[trigger] ng[i].trains@[q], gg[q].label, gg[q].heading, gg[q].lat, gg[q].lon)
                        } by {
                            if i == p {
                                let gg = keyed(post, kv);
                                assert(gg == keyed(pre, kv).push(t));
                                assert forall|q: int| 0 <= q < gg.len() implies regional_from(#[trigger] ng[i].trains@[q], gg[q].label, gg[q].heading, gg[q].lat, gg[q].lon) by {
                                    if q < gg.len() - 1 {
                                        assert(ng[i].trains@[q] == g_old.trains@[q]);
                                    }
                                }
                            } else {
                                assert(ng[i] == old_groups[i]);
                                if old_groups[i].key@ == kv {
                                    lemma_text_lt_strict(kv, kv);
                                    if i < p {
                                        assert(text_lt(old_groups[i].key@, kv));
                                    } else {
                                        assert(text_lt(old_groups[p as int].key@, old_groups[i].key@));
                                    }
                                }
                            }
                        }
                        assert forall|m: int|
                            0 <= m < post.len() && (metra_key(#[trigger] post[m]) is Some) implies exists|i: int|
                                0 <= i < ng.len() && Some((#[trigger] ng[i]).key@) == metra_key(post[m]) by {
                            if m < pre.len() {
                                assert(post[m] == pre[m]);
                                let i = choose|i: int| 0 <= i < old_groups.len() && Some((#[trigger] old_groups[i]).key@) == metra_key(pre[m]);
                                assert(ng[i].key@ == old_groups[i].key@);
                            } else {
                                assert(ng[p as int].key@ == kv);
                            }
                        }
                    }
                } else {
                    let label = pretty_route(k.as_str());
                    let mut trains: Vec<Train> = Vec::new();
                    trains.push(regional_train(t.label, t.heading, t.lat, t.lon));
                    let g = RouteBoard { key: k, label, trains };
                    groups.insert(p, g);
                    proof {
                        let ng = groups@;
                        assert(ng == old_groups.insert(p as int, g));
                        if p < old_groups.len() {
                            lemma_text_lt_strict(old_groups[p as int].key@, kv);
                            assert(text_lt(kv, old_groups[p as int].key@));
                        }
                        assert forall|i: int| 0 <= i < old_groups.len() implies (#[trigger] old_groups[i]).key@ != kv by {
                            lemma_text_lt_strict(kv, kv);
                            if i < p {
                                assert(text_lt(old_groups[i].key@, kv));
                            } else if i > p {
                                assert(text_lt(old_groups[p as int].key@, old_groups[i].key@));
                                lemma_text_lt_strict(old_groups[p as int].key@, kv);
                            }
                        }
                        if keyed(pre, kv).len() > 0 {
                            lemma_keyed_witness(pre, kv);
                            let m = choose|m: int| 0 <= m < pre.len() && metra_key(#[trigger] pre[m]) == Some(kv);
                            let i = choose|i: int| 0 <= i < old_groups.len() && Some((#[trigger] old_groups[i]).key@) == metra_key(pre[m]);
                            assert(old_groups[i].key@ == kv);
                        }
                        assert(keyed(post, kv) =~= seq![t]);
                        assert forall|i: int, j: int| 0 <= i < j < ng.len() implies text_lt(#[trigger] ng[i].key@, #[trigger] ng[j].key@) by {
                            if j < p {
                                assert(text_lt(old_groups[i].key@, old_groups[j].key@));
                            } else if j == p {
                                assert(text_lt(old_groups[i].key@, kv));
                            } else if i < p {
                                assert(ng[j] == old_groups[j - 1]);
                                assert(text_lt(old_groups[i].key@, kv));
                                if j - 1 == p {
                                } else {
                                    assert(text_lt(old_groups[p as int].key@, old_groups[j - 1].key@));
                                    lemma_text_lt_trans(kv, old_groups[p as int].key@, old_groups[j - 1].key@);
                                }
                                lemma_text_lt_trans(old_groups[i].key@, kv, old_groups[j - 1].key@);
                            } else if i == p {
                                assert(ng[j] == old_groups[j - 1]);
                                if j - 1 > p {
                                    assert(text_lt(old_groups[p as int].key@, old_groups[j - 1].key@));
                                    lemma_text_lt_trans(kv, old_groups[p as int].key@, old_groups[j - 1].key@);
                                }
                            } else {
                                assert(ng[i] == old_groups[i - 1]);
                                assert(ng[j] == old_groups[j - 1]);
                                assert(text_lt(old_groups[i - 1].key@, old_groups[j - 1].key@));
                            }
                        }
                        assert forall|i: int| 0 <= i < ng.len() implies (#[trigger] ng[i]).label@ == route_label(lowercase(ng[i].key@)) by {
                            if i < p {
                            } else if i > p {
                                assert(ng[i] == old_groups[i - 1]);
                            }
                        }
                        assert forall|i: int| 0 <= i < ng.len() implies {
                            let gg = keyed(post, (#[trigger] ng[i]).key@);
                            &&& ng[i].trains@.len() == gg.len()
                            &&& gg.len() > 0
                            &&& forall|q: int|
                                0 <= q < gg.len() ==> regional_from(#[trigger] ng[i].trains@[q], gg[q].label, gg[q].heading, gg[q].lat, gg[q].lon)
                        } by {
                            if i < p {
                                assert(ng[i] == old_groups[i]);
                                assert(old_groups[i].key@ != kv);
                            } else if i > p {
                                assert(ng[i] == old_groups[i - 1]);
                                assert(old_groups[i - 1].key@ != kv);
                            } else {
                                assert(ng[i].trains@.len() == 1);
                            }
                        }
                        assert forall|m: int|
                            0 <= m < post.len() && (metra_key(#[trigger] post[m]) is Some) implies exists|i: int|
                                0 <= i < ng.len() && Some((#[trigger] ng[i]).key@) == metra_key(post[m]) by {
                            if m < pre.len() {
                                assert(post[m] == pre[m]);
                                let i = choose|i: int| 0 <= i < old_groups.len() && Some((#[trigger] old_groups[i]).key@) == metra_key(pre[m]);
                                if i < p {
                                    assert(ng[i] == old_groups[i]);
                                } else {
                                    assert(ng[i + 1] == old_groups[i]);
                                }
                            } else {
                                assert(ng[p as int].key@ == kv);
                            }
                        }
                    }
                }
            },
        }
        taken = taken + 1;
    }
    assert(items.take(taken as int) =~= items);
    groups
}

/// Synthesize a SYSTEM-panel status row for a regional line. `display` is
/// the short label (e.g. "UP-N"); `key` keys the brand color; `effect`, when
/// present, flags the line as alerted so the panel shows it amber instead of
/// nominal.
pub fn regional_status(display: &str, key: &str, effect: Option<&str>) -> (s: RouteStatus)
    ensures
        s.route@ == display@,
        s.status@ == (match effect {
            Some(e) => if e@.len() > 0 { e@ } else { "Normal Service"@ },
            None => "Normal Service"@,
        }),
        opt_text(s.color_hex) == regional_color(lowercase(key@)),
        opt_text(s.status_color_hex) == Some(if effect is Some { "#f9a825"@ } else { "#00b300"@ }),
{
    let status = match effect {
        Some(e) => if e.is_empty() { "Normal Service".to_owned() } else { e.to_owned() },
        None => "Normal Service".to_owned(),
    };
    let status_color = if effect.is_some() { "#f9a825".to_owned() } else { "#00b300".to_owned() };
    let color_hex = match regional_hex(key) {
        Some(h) => Some(h.to_owned()),
        None => None,
    };
    RouteStatus { route: display.to_owned(), status, color_hex, status_color_hex: Some(status_color) }
}

/// The first alert that impacts route key `k`.
pub open spec fn first_alert_for(alerts: Seq<Alert>, k: Seq<char>) -> Option<int>
    decreases alerts.len(),
{
    if alerts.len() == 0 {
        None
    } else {
        match first_alert_for(alerts.drop_last(), k) {
            Some(i) => Some(i),
            None => if texts(alerts.last().routes@).contains(k) { Some(alerts.len() - 1) } else { None },
        }
    }
}

proof fn lemma_first_alert_for(alerts: Seq<Alert>, k: Seq<char>)
    ensures
        first_alert_for(alerts, k) matches Some(i) ==> 0 <= i < alerts.len() && texts(alerts[i].routes@).contains(k)
            && forall|j: int| 0 <= j < i ==> !texts(#[trigger] alerts[j].routes@).contains(k),
        first_alert_for(alerts, k) is None ==> forall|j: int| 0 <= j < alerts.len() ==> !texts(#[trigger] alerts[j].routes@).contains(k),
    decreases alerts.len(),
{
    if alerts.len() > 0 {
        let init = alerts.drop_last();
        lemma_first_alert_for(init, k);
        match first_alert_for(init, k) {
            Some(i) => {
                assert forall|j: int| 0 <= j < i implies !texts(#[trigger] alerts[j].routes@).contains(k) by {
                    assert(alerts[j] == init[j]);
                }
                assert(alerts[i] == init[i]);
            },
            None => {
                assert forall|j: int| 0 <= j < alerts.len() - 1 implies !texts(#[trigger] alerts[j].routes@).contains(k) by {
                    assert(alerts[j] == init[j]);
                }
            },
        }
    }
}

/// What an alert contributes to a status row: its impact, or "Alert" when it has none.
pub open spec fn alert_effect(a: Alert) -> Seq<char> {
    if a.impact@.len() == 0 { "Alert"@ } else { a.impact@ }
}

/// Whether any of the views of `v` is `s`.
fn has_text(v: &Vec<String>, s: &String) -> (r: bool)
    ensures
        r == texts(v@).contains(s@),
{
    let mut i: usize = 0;
    while i < v.len()
        invariant
            i <= v.len(),
            forall|k: int| 0 <= k < i ==> v@[k]@ != s@,
        decreases v.len() - i,
    {
        if v[i] == *s {
            assert(texts(v@)[i as int] == s@);
            return true;
        }
        i = i + 1;
    }
    proof {
        if texts(v@).contains(s@) {
            let k = choose|k: int| 0 <= k < texts(v@).len() && texts(v@)[k] == s@;
            assert(v@[k]@ == s@);
        }
    }
    false
}

/// `s` is the status row of the regional line `key` given the active `alerts`.
pub open spec fn metra_row(s: RouteStatus, key: Seq<char>, alerts: Seq<Alert>) -> bool {
    let first = first_alert_for(alerts, lowercase(key));
    &&& s.route@ == uppercase(key)
    &&& s.status@ == (match first {
        Some(i) => alert_effect(alerts[i]),
        None => "Normal Service"@,
    })
    &&& opt_text(s.color_hex) == regional_color(lowercase(lowercase(key)))
    &&& opt_text(s.status_color_hex) == Some(if first is Some { "#f9a825"@ } else { "#00b300"@ })
}

/// `s` is the South Shore status row: always nominal.
pub open spec fn ss_row(s: RouteStatus) -> bool {
    &&& s.route@ == "SS"@
    &&& s.status@ == "Normal Service"@
    &&& opt_text(s.color_hex) == regional_color(lowercase("ss"@))
    &&& opt_text(s.status_color_hex) == Some("#00b300"@)
}

/// Status row for a regional line, flagged by its first active alert (if any).
pub fn metra_status(key: &str, alerts: &[Alert]) -> (s: RouteStatus)
    ensures
        metra_row(s, key@, alerts@),
{
    let k = to_lower(key);
    proof {
        lemma_first_alert_for(alerts@, k@);
    }
    let mut i: usize = 0;
    while i < alerts.len() && !has_text(&alerts[i].routes, &k)
        invariant
            i <= alerts@.len(),
            forall|j: int| 0 <= j < i ==> !texts(#[trigger] alerts@[j].routes@).contains(k@),
        decreases alerts@.len() - i,
    {
        i = i + 1;
    }
    let upper = to_upper(key);
    if i < alerts.len() {
        let a = &alerts[i];
        assert(first_alert_for(alerts@, k@) == Some(i as int));
        let effect: &str = if a.impact.as_str().is_empty() { "Alert" } else { a.impact.as_str() };
        proof {
            reveal_strlit("Alert");
        }
        regional_status(upper.as_str(), k.as_str(), Some(effect))
    } else {
        regional_status(upper.as_str(), k.as_str(), None)
    }
}

} // verus!
