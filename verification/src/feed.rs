//! The feeds' records, as plain values, and how a poll turns them into the
//! board's data.
//!
//! CTA JSON (converted from XML) collapses single-element arrays into a bare
//! object, so every list field is really "one or many"; `OneOrMany` carries
//! that shape and `flat` normalizes it.

use vstd::prelude::*;
use crate::lines::{is_rail_line, normalized, pretty_effect, pretty_route, rail_line_name, route_label, titled_from};
use crate::model::{texts, Alert, Arrival, RouteBoard, RouteStatus, Train};
use crate::text::{chars_of, is_word, lowercase, to_lower};

verus! {

/// A list field that the feed writes either as one bare item or as an array.
pub enum OneOrMany<T> {
    One(T),
    Many(Vec<T>),
}

impl<T> OneOrMany<T> {
    /// The items, in order.
    pub open spec fn items(self) -> Seq<T> {
        match self {
            OneOrMany::One(x) => seq![x],
            OneOrMany::Many(v) => v@,
        }
    }

    /// The items as a vector.
    pub fn into_vec(self) -> (v: Vec<T>)
        ensures
            v@ == self.items(),
    {
        match self {
            OneOrMany::One(x) => {
                let mut v = Vec::new();
                v.push(x);
                v
            },
            OneOrMany::Many(v) => v,
        }
    }
}

/// The items of an optional list field (none when the field is absent).
pub open spec fn flat_items<T>(o: Option<OneOrMany<T>>) -> Seq<T> {
    match o {
        Some(x) => x.items(),
        None => seq![],
    }
}

/// The items of an optional list field, as a vector.
pub fn flat<T>(o: Option<OneOrMany<T>>) -> (v: Vec<T>)
    ensures
        v@ == flat_items(o),
{
    match o {
        Some(x) => x.into_vec(),
        None => Vec::new(),
    }
}

/// The view of an optional text.
pub open spec fn opt_text(o: Option<String>) -> Option<Seq<char>> {
    match o {
        Some(s) => Some(s@),
        None => None,
    }
}

/// A feed flag is set when it reads "1" or "true".
pub open spec fn flag_set(o: Option<Seq<char>>) -> bool {
    o == Some("1"@) || o == Some("true"@)
}

/// Whether a feed flag is set.
pub fn truthy(s: &Option<String>) -> (r: bool)
    ensures
        r == flag_set(opt_text(*s)),
{
    match s {
        Some(v) => {
            let c = crate::text::chars_of(v.as_str());
            crate::text::is_word(&c, "1") || crate::text::is_word(&c, "true")
        },
        None => false,
    }
}

/// The value of a run of decimal digits.
pub open spec fn digits_value(d: Seq<char>) -> int
    decreases d.len(),
{
    if d.len() == 0 {
        0
    } else {
        digits_value(d.drop_last()) * 10 + (d.last() as int - '0' as int)
    }
}

/// Whether every character is an ASCII decimal digit.
pub open spec fn all_digits(d: Seq<char>) -> bool {
    forall|i: int| 0 <= i < d.len() ==> '0' <= #[trigger] d[i] <= '9'
}

/// What `str::parse::<u16>` accepts: an optional '+', then one or more ASCII
/// digits whose value fits in 16 bits.
pub open spec fn parse_u16_spec(s: Seq<char>) -> Option<u16> {
    let d = if s.len() > 0 && s[0] == '+' { s.drop_first() } else { s };
    if d.len() > 0 && all_digits(d) && digits_value(d) <= 65535 {
        Some(digits_value(d) as u16)
    } else {
        None
    }
}

/// Parse a decimal `u16` as `str::parse` does.
pub fn parse_u16(s: &str) -> (r: Option<u16>)
    ensures
        r == parse_u16_spec(s@),
{
    let c = crate::text::chars_of(s);
    let start: usize = if c.len() > 0 && c[0] == '+' { 1 } else { 0 };
    let ghost d = if c@.len() > 0 && c@[0] == '+' { c@.drop_first() } else { c@ };
    assert(d =~= c@.subrange(start as int, c@.len() as int));
    if start >= c.len() {
        return None;
    }
    let mut value: u32 = 0;
    let mut over = false;
    let mut i: usize = start;
    while i < c.len()
        invariant
            c@ == s@,
            d == (if c@.len() > 0 && c@[0] == '+' { c@.drop_first() } else { c@ }),
            start <= i <= c@.len(),
            d =~= c@.subrange(start as int, c@.len() as int),
            all_digits(d.take(i - start)),
            over ==> digits_value(d.take(i - start)) > 65535,
            !over ==> value == digits_value(d.take(i - start)) && value <= 65535,
        decreases c@.len() - i,
    {
        let ch = c[i];
        if ch < '0' || ch > '9' {
            assert(d[i - start] == ch);
            return None;
        }
        let ghost k = i - start;
        assert(d.take(k + 1).drop_last() =~= d.take(k));
        assert(d.take(k + 1).last() == ch);
        let digit = (ch as u32) - ('0' as u32);
        if !over {
            let next = value * 10 + digit;
            if next > 65535 {
                over = true;
            } else {
                value = next;
            }
        }
        i = i + 1;
    }
    assert(d.take(d.len() as int) =~= d);
    if over {
        None
    } else {
        Some(value as u16)
    }
}

/// The local wall-clock time, as seconds and nanoseconds of a naive date-time
/// read as if it were UTC.
#[derive(Clone, Copy)]
pub struct LocalTime {
    pub secs: i64,
    pub nanos: u32,
}

/// The naive date-time that `chrono::NaiveDateTime::parse_from_str` reads
/// from a text with a format, as seconds since 1970-01-01 00:00:00 (no offset
/// applied), or `None` where parsing fails.
pub uninterp spec fn naive_timestamp(s: Seq<char>, fmt: Seq<char>) -> Option<i64>;

/// `chrono::NaiveDateTime::parse_from_str` followed by `.and_utc().timestamp()`:
/// the result is the name above applied to the two texts.
#[verifier::external_body]
fn parse_naive_timestamp(s: &str, fmt: &str) -> (r: Option<i64>)
    ensures
        r == naive_timestamp(s@, fmt@),
{
    match chrono::NaiveDateTime::parse_from_str(s, fmt) {
        Ok(t) => Some(t.and_utc().timestamp()),
        Err(_) => None,
    }
}

/// `chrono::Local::now().naive_local()`, as whole seconds (`.and_utc().timestamp()`)
/// and the nanoseconds past them (`.timestamp_subsec_nanos()`). It reads the
/// clock, so which time it gives is not stated; what is stated is that the
/// nanoseconds are below one second: `Local::now` takes them from the system
/// time's sub-second nanoseconds, and moving to local time keeps them.
#[verifier::external_body]
fn local_clock() -> (r: (i64, u32))
    ensures
        r.1 < 1_000_000_000,
{
    let t = chrono::Local::now().naive_local().and_utc();
    (t.timestamp(), t.timestamp_subsec_nanos())
}

/// The current local time: a reading of the clock, its nanoseconds below one
/// second.
pub fn local_now() -> (t: LocalTime)
    ensures
        t.nanos < 1_000_000_000,
{
    let (secs, nanos) = local_clock();
    LocalTime { secs, nanos }
}

/// When a feed arrival time ("20240101 14:30:00", or ISO "2024-01-01T14:30:00") falls.
pub open spec fn arrival_time(s: Seq<char>) -> Option<i64> {
    match naive_timestamp(s, "%Y%m%d %H:%M:%S"@) {
        Some(t) => Some(t),
        None => naive_timestamp(s, "%Y-%m-%dT%H:%M:%S"@),
    }
}

/// Whole seconds from `now` until `t`, truncated toward zero.
pub open spec fn seconds_until(t: int, now: LocalTime) -> int {
    let d = t - now.secs;
    if now.nanos > 0 && d > 0 { d - 1 } else { d }
}

/// Seconds to minutes, rounded to nearest with halves away from zero.
pub open spec fn round_minutes(s: int) -> int {
    if s >= 0 { (s + 30) / 60 } else { -((-s + 30) / 60) }
}

/// Minutes from `now` until a feed arrival time, if it parses.
pub open spec fn eta_at(arr: Option<Seq<char>>, now: LocalTime) -> Option<int> {
    match arr {
        None => None,
        Some(s) => match arrival_time(s) {
            Some(t) => Some(round_minutes(seconds_until(t as int, now))),
            None => None,
        },
    }
}

/// Minutes from `now` until the arrival time `arr_t` (local Chicago time),
/// rounded to the nearest minute; `None` when absent or unparsable. Exact
/// integer arithmetic; it agrees with rounding the seconds as a float for
/// any difference below 2^53 seconds.
pub fn eta_minutes_at(arr_t: &Option<String>, now: LocalTime) -> (r: Option<i64>)
    ensures
        match r {
            Some(m) => eta_at(opt_text(*arr_t), now) == Some(m as int),
            None => eta_at(opt_text(*arr_t), now) is None,
        },
{
    let s = match arr_t {
        Some(s) => s,
        None => {
            return None;
        },
    };
    let t = match parse_naive_timestamp(s.as_str(), "%Y%m%d %H:%M:%S") {
        Some(t) => t,
        None => match parse_naive_timestamp(s.as_str(), "%Y-%m-%dT%H:%M:%S") {
            Some(t) => t,
            None => {
                return None;
            },
        },
    };
    let d: i128 = t as i128 - now.secs as i128;
    let secs: i128 = if now.nanos > 0 && d > 0 { d - 1 } else { d };
    let mins: i128 = if secs >= 0 { (secs + 30) / 60 } else { -((-secs + 30) / 60) };
    Some(mins as i64)
}

/// Whether a feed arrival time is present and parses.
pub open spec fn arrival_parses(o: Option<String>) -> bool {
    o matches Some(s) && arrival_time(s@) is Some
}

/// `m` is a reading of the minutes until feed arrival time `arr`: measured
/// against some reading of the clock, and `None` exactly when the time is
/// absent or does not parse.
pub open spec fn eta_reading(arr: Option<String>, m: Option<i64>) -> bool {
    match m {
        Some(m) => exists|now: LocalTime| #[trigger] eta_at(opt_text(arr), now) == Some(m as int),
        None => !arrival_parses(arr),
    }
}

/// Minutes until an arrival time, measured from the clock as it reads now.
/// Which reading that is, is not stated.
pub fn eta_minutes(arr_t: &Option<String>) -> (r: Option<i64>)
    ensures
        eta_reading(*arr_t, r),
{
    let now = local_now();
    eta_minutes_at(arr_t, now)
}

/// The items of `v` in reverse order.
fn reversed<T>(v: Vec<T>) -> (r: Vec<T>)
    ensures
        r@ == v@.reverse(),
{
    let ghost orig = v@;
    let mut v = v;
    let mut r: Vec<T> = Vec::new();
    assert(orig.take(orig.len() as int) =~= orig);
    assert(orig.skip(orig.len() as int).reverse() =~= Seq::<T>::empty());
    while v.len() > 0
        invariant
            v@ == orig.take(v@.len() as int),
            r@ == orig.skip(v@.len() as int).reverse(),
            v@.len() <= orig.len(),
        decreases v@.len(),
    {
        let ghost k = v@.len();
        let x = v.pop().unwrap();
        r.push(x);
        assert(v@ =~= orig.take(k - 1));
        assert(r@ =~= orig.skip(k - 1).reverse());
    }
    assert(orig.skip(0) =~= orig);
    r
}

/// The positions feed's envelope.
pub struct PosCtatt {
    pub tmst: Option<String>,
    pub err_cd: Option<String>,
    pub err_nm: Option<String>,
    pub route: Option<OneOrMany<RawRoute>>,
}

/// One route of the positions feed.
pub struct RawRoute {
    pub name: String,
    pub train: Option<OneOrMany<RawTrain>>,
}

/// One train of the positions feed.
pub struct RawTrain {
    pub rn: Option<String>,
    pub dest_nm: Option<String>,
    pub next_sta_nm: Option<String>,
    pub arr_t: Option<String>,
    pub is_app: Option<String>,
    pub is_dly: Option<String>,
    pub tr_dr: Option<String>,
    pub lat: Option<String>,
    pub lon: Option<String>,
    pub heading: Option<String>,
}

/// The text of an optional field, empty when absent.
pub open spec fn text_or_empty(o: Option<String>) -> Seq<char> {
    match o {
        Some(s) => s@,
        None => seq![],
    }
}

/// A heading field read as compass degrees.
pub open spec fn heading_of(o: Option<String>) -> Option<u16> {
    match o {
        Some(h) => parse_u16_spec(h@),
        None => None,
    }
}

/// `t` is the board's train for feed train `r` (its ETA measured from the clock).
pub open spec fn train_from(t: Train, r: RawTrain) -> bool {
    &&& t.run@ == text_or_empty(r.rn)
    &&& t.dest@ == text_or_empty(r.dest_nm)
    &&& t.next_station@ == text_or_empty(r.next_sta_nm)
    &&& eta_reading(r.arr_t, t.eta_min)
    &&& t.approaching == flag_set(opt_text(r.is_app))
    &&& t.delayed == flag_set(opt_text(r.is_dly))
    &&& opt_text(t.dir) == opt_text(r.tr_dr)
    &&& t.heading == heading_of(r.heading)
    &&& opt_text(t.lat) == opt_text(r.lat)
    &&& opt_text(t.lon) == opt_text(r.lon)
}

/// `b` is the board for feed route `r`.
pub open spec fn board_from(b: RouteBoard, r: RawRoute) -> bool {
    let items = flat_items(r.train);
    &&& b.key@ == r.name@
    &&& b.label@ == route_label(lowercase(r.name@))
    &&& b.trains@.len() == items.len()
    &&& forall|k: int| 0 <= k < items.len() ==> train_from(#[trigger] b.trains@[k], items[k])
}

/// An optional text, moved out as its own value.
fn take_text(o: Option<String>) -> (r: String)
    ensures
        r@ == text_or_empty(o),
{
    match o {
        Some(s) => s,
        None => String::new(),
    }
}

/// The board's train for one feed train.
fn decode_train(r: RawTrain) -> (t: Train)
    ensures
        train_from(t, r),
{
    let eta_min = eta_minutes(&r.arr_t);
    let approaching = truthy(&r.is_app);
    let delayed = truthy(&r.is_dly);
    let heading = match &r.heading {
        Some(h) => parse_u16(h.as_str()),
        None => None,
    };
    Train {
        run: take_text(r.rn),
        dest: take_text(r.dest_nm),
        next_station: take_text(r.next_sta_nm),
        eta_min,
        approaching,
        delayed,
        heading,
        dir: r.tr_dr,
        lat: r.lat,
        lon: r.lon,
    }
}

/// The board for one feed route.
fn decode_route(r: RawRoute) -> (b: RouteBoard)
    ensures
        board_from(b, r),
{
    let ghost items = flat_items(r.train);
    let label = pretty_route(r.name.as_str());
    let mut raw = reversed(flat(r.train));
    let ghost rev = raw@;
    assert(rev =~= items.reverse());
    let mut trains: Vec<Train> = Vec::new();
    while raw.len() > 0
        invariant
            rev == items.reverse(),
            trains@.len() + raw@.len() == items.len(),
            raw@ == rev.take(raw@.len() as int),
            forall|k: int| 0 <= k < trains@.len() ==> train_from(#[trigger] trains@[k], items[k]),
        decreases raw@.len(),
    {
        let ghost n = raw@.len();
        let t = raw.pop().unwrap();
        assert(t == items[trains@.len() as int]);
        trains.push(decode_train(t));
        assert(raw@ =~= rev.take(n - 1));
    }
    RouteBoard { key: r.name, label, trains }
}

/// Map a decoded positions envelope into route boards.
pub fn boards_from_ctatt(ctatt: PosCtatt) -> (boards: Vec<RouteBoard>)
    ensures
        boards@.len() == flat_items(ctatt.route).len(),
        forall|i: int| 0 <= i < boards@.len() ==> board_from(#[trigger] boards@[i], flat_items(ctatt.route)[i]),
{
    let ghost items = flat_items(ctatt.route);
    let mut raw = reversed(flat(ctatt.route));
    let ghost rev = raw@;
    assert(rev =~= items.reverse());
    let mut boards: Vec<RouteBoard> = Vec::new();
    while raw.len() > 0
        invariant
            rev == items.reverse(),
            boards@.len() + raw@.len() == items.len(),
            raw@ == rev.take(raw@.len() as int),
            forall|k: int| 0 <= k < boards@.len() ==> board_from(#[trigger] boards@[k], items[k]),
        decreases raw@.len(),
    {
        let ghost n = raw@.len();
        let r = raw.pop().unwrap();
        assert(r == items[boards@.len() as int]);
        boards.push(decode_route(r));
        assert(raw@ =~= rev.take(n - 1));
    }
    boards
}

/// A feed error code other than "0" means the request was refused.
pub open spec fn refused(err_cd: Option<String>) -> bool {
    err_cd matches Some(c) && c@ != "0"@
}

/// The positions feed's boards, or the error it reported (its message, or
/// "CTA error" when it gave none).
pub fn positions_from(ctatt: PosCtatt) -> (r: Result<Vec<RouteBoard>, String>)
    ensures
        match r {
            Err(e) => refused(ctatt.err_cd) && e@ == (match ctatt.err_nm {
                Some(m) => m@,
                None => "CTA error"@,
            }),
            Ok(boards) => {
                &&& !refused(ctatt.err_cd)
                &&& boards@.len() == flat_items(ctatt.route).len()
                &&& forall|i: int| 0 <= i < boards@.len() ==> board_from(#[trigger] boards@[i], flat_items(ctatt.route)[i])
            },
        },
{
    let is_err = match &ctatt.err_cd {
        Some(c) => {
            let v = chars_of(c.as_str());
            !is_word(&v, "0")
        },
        None => false,
    };
    if is_err {
        match ctatt.err_nm {
            Some(m) => Err(m),
            None => Err("CTA error".to_owned()),
        }
    } else {
        Ok(boards_from_ctatt(ctatt))
    }
}

/// The arrivals feed's envelope.
pub struct ArrCtatt {
    pub eta: Option<OneOrMany<RawEta>>,
}

/// One predicted arrival of the arrivals feed.
pub struct RawEta {
    pub sta_nm: Option<String>,
    pub rn: Option<String>,
    pub rt: Option<String>,
    pub dest_nm: Option<String>,
    pub arr_t: Option<String>,
    pub is_app: Option<String>,
    pub is_dly: Option<String>,
}

/// `a` is the board's arrival for feed record `r` (its ETA measured from the clock).
pub open spec fn arrival_from(a: Arrival, r: RawEta) -> bool {
    &&& a.station@ == text_or_empty(r.sta_nm)
    &&& a.run@ == text_or_empty(r.rn)
    &&& a.route@ == text_or_empty(r.rt)
    &&& a.dest@ == text_or_empty(r.dest_nm)
    &&& eta_reading(r.arr_t, a.eta_min)
    &&& a.approaching == flag_set(opt_text(r.is_app))
    &&& a.delayed == flag_set(opt_text(r.is_dly))
}

fn decode_arrival(r: RawEta) -> (a: Arrival)
    ensures
        arrival_from(a, r),
{
    let eta_min = eta_minutes(&r.arr_t);
    let approaching = truthy(&r.is_app);
    let delayed = truthy(&r.is_dly);
    Arrival {
        station: take_text(r.sta_nm),
        run: take_text(r.rn),
        route: take_text(r.rt),
        dest: take_text(r.dest_nm),
        eta_min,
        approaching,
        delayed,
    }
}

/// The home-station arrivals of an arrivals envelope, in feed order.
pub fn arrivals_from(ctatt: ArrCtatt) -> (arrivals: Vec<Arrival>)
    ensures
        arrivals@.len() == flat_items(ctatt.eta).len(),
        forall|i: int| 0 <= i < arrivals@.len() ==> arrival_from(#[trigger] arrivals@[i], flat_items(ctatt.eta)[i]),
{
    let ghost items = flat_items(ctatt.eta);
    let mut raw = reversed(flat(ctatt.eta));
    let ghost rev = raw@;
    let mut out: Vec<Arrival> = Vec::new();
    while raw.len() > 0
        invariant
            rev == items.reverse(),
            out@.len() + raw@.len() == items.len(),
            raw@ == rev.take(raw@.len() as int),
            forall|k: int| 0 <= k < out@.len() ==> arrival_from(#[trigger] out@[k], items[k]),
        decreases raw@.len(),
    {
        let ghost n = raw@.len();
        let r = raw.pop().unwrap();
        assert(r == items[out@.len() as int]);
        out.push(decode_arrival(r));
        assert(raw@ =~= rev.take(n - 1));
    }
    out
}

/// The route-status feed's list.
pub struct CtaRoutes {
    pub route_info: Option<OneOrMany<RawRouteInfo>>,
}

/// One route of the route-status feed.
pub struct RawRouteInfo {
    pub route: String,
    pub color: Option<String>,
    pub status: Option<String>,
    pub status_color: Option<String>,
}

/// Positions of the rail lines among the status feed's routes, in order.
pub open spec fn rail_rows(items: Seq<RawRouteInfo>) -> Seq<int>
    decreases items.len(),
{
    if items.len() == 0 {
        seq![]
    } else {
        let rest = rail_rows(items.drop_last());
        if rail_line_name(normalized(items.last().route@)) {
            rest.push(items.len() - 1)
        } else {
            rest
        }
    }
}

/// `s` is the status row for feed route `r` (an absent status reads "—").
pub open spec fn status_from(s: RouteStatus, r: RawRouteInfo) -> bool {
    &&& s.route@ == r.route@
    &&& s.status@ == (match r.status {
        Some(t) => t@,
        None => "—"@,
    })
    &&& opt_text(s.color_hex) == opt_text(r.color)
    &&& opt_text(s.status_color_hex) == opt_text(r.status_color)
}

proof fn lemma_rail_rows_bounds(items: Seq<RawRouteInfo>)
    ensures
        forall|j: int| 0 <= j < rail_rows(items).len() ==> 0 <= #[trigger] rail_rows(items)[j] < items.len(),
    decreases items.len(),
{
    if items.len() > 0 {
        let rest = rail_rows(items.drop_last());
        lemma_rail_rows_bounds(items.drop_last());
        assert forall|j: int| 0 <= j < rail_rows(items).len() implies 0 <= #[trigger] rail_rows(items)[j] < items.len() by {
            if j < rest.len() {
                assert(rail_rows(items)[j] == rest[j]);
            }
        }
    }
}

/// The status rows of the 'L' lines, in feed order.
pub fn statuses_from(routes: CtaRoutes) -> (statuses: Vec<RouteStatus>)
    ensures
        statuses@.len() == rail_rows(flat_items(routes.route_info)).len(),
        forall|j: int|
            0 <= j < statuses@.len() ==> status_from(
                #[trigger] statuses@[j],
                flat_items(routes.route_info)[rail_rows(flat_items(routes.route_info))[j]],
            ),
{
    let ghost items = flat_items(routes.route_info);
    let mut raw = reversed(flat(routes.route_info));
    let ghost rev = raw@;
    let mut out: Vec<RouteStatus> = Vec::new();
    let mut taken: usize = 0;
    let total = raw.len();
    assert(total == items.len());
    assert(items.take(0) =~= Seq::<RawRouteInfo>::empty());
    while raw.len() > 0
        invariant
            rev == items.reverse(),
            taken + raw@.len() == items.len(),
            items.len() <= usize::MAX,
            raw@ == rev.take(raw@.len() as int),
            out@.len() == rail_rows(items.take(taken as int)).len(),
            forall|j: int|
                0 <= j < out@.len() ==> status_from(#[trigger] out@[j], items[rail_rows(items.take(taken as int))[j]]),
        decreases raw@.len(),
    {
        let ghost n = raw@.len();
        let ghost pre = items.take(taken as int);
        let ghost post = items.take(taken + 1);
        assert(post.drop_last() =~= pre);
        let r = raw.pop().unwrap();
        assert(r == items[taken as int]);
        proof {
            lemma_rail_rows_bounds(pre);
        }
        if is_rail_line(r.route.as_str()) {
            let status = match r.status {
                Some(t) => t,
                None => "—".to_owned(),
            };
            out.push(RouteStatus { route: r.route, status, color_hex: r.color, status_color_hex: r.status_color });
            assert(rail_rows(post) == rail_rows(pre).push(taken as int));
        } else {
            assert(rail_rows(post) == rail_rows(pre));
        }
        taken = taken + 1;
        assert(raw@ =~= rev.take(n - 1));
    }
    assert(items.take(taken as int) =~= items);
    out
}

/// The customer-alerts feed's list.
pub struct CtaAlerts {
    pub alert: Option<OneOrMany<RawAlert>>,
}

/// One alert of the customer-alerts feed.
pub struct RawAlert {
    pub headline: Option<String>,
    pub short_description: Option<String>,
    pub impact: Option<String>,
    pub major_alert: Option<String>,
    pub impacted_service: Option<RawImpacted>,
}

/// The services an alert impacts.
pub struct RawImpacted {
    pub service: Option<OneOrMany<RawService>>,
}

/// One impacted service.
pub struct RawService {
    pub service_type: Option<String>,
    pub service_id: Option<String>,
}

/// The impacted services of an alert.
pub open spec fn services_of(i: Option<RawImpacted>) -> Seq<RawService> {
    match i {
        Some(x) => flat_items(x.service),
        None => seq![],
    }
}

/// Lowercased ids of the rail services (type "R") among `svcs`, in order.
pub open spec fn rail_service_ids(svcs: Seq<RawService>) -> Seq<Seq<char>>
    decreases svcs.len(),
{
    if svcs.len() == 0 {
        seq![]
    } else {
        let rest = rail_service_ids(svcs.drop_last());
        let s = svcs.last();
        if opt_text(s.service_type) == Some("R"@) && s.service_id is Some {
            rest.push(lowercase(s.service_id->0@))
        } else {
            rest
        }
    }
}

/// `a` is the alert for feed record `r`.
pub open spec fn alert_from(a: Alert, r: RawAlert) -> bool {
    &&& a.headline@ == text_or_empty(r.headline)
    &&& a.short@ == text_or_empty(r.short_description)
    &&& a.impact@ == text_or_empty(r.impact)
    &&& a.major == flag_set(opt_text(r.major_alert))
    &&& texts(a.routes@) == rail_service_ids(services_of(r.impacted_service))
}

fn rail_ids(svcs: Vec<RawService>) -> (ids: Vec<String>)
    ensures
        texts(ids@) == rail_service_ids(svcs@),
{
    let ghost items = svcs@;
    let mut i: usize = 0;
    let mut ids: Vec<String> = Vec::new();
    while i < svcs.len()
        invariant
            items == svcs@,
            i <= svcs.len(),
            texts(ids@) == rail_service_ids(items.take(i as int)),
        decreases svcs.len() - i,
    {
        let s = &svcs[i];
        assert(items.take(i + 1).drop_last() =~= items.take(i as int));
        assert(items.take(i + 1).last() == items[i as int]);
        let is_rail = match &s.service_type {
            Some(t) => {
                let c = chars_of(t.as_str());
                is_word(&c, "R")
            },
            None => false,
        };
        if is_rail {
            match &s.service_id {
                Some(id) => {
                    let ghost before = texts(ids@);
                    ids.push(to_lower(id.as_str()));
                    assert(texts(ids@) =~= before.push(lowercase(id@)));
                },
                None => {},
            }
        }
        i = i + 1;
    }
    assert(items.take(i as int) =~= items);
    ids
}

fn decode_alert(r: RawAlert) -> (a: Alert)
    ensures
        alert_from(a, r),
{
    let major = truthy(&r.major_alert);
    let svcs = match r.impacted_service {
        Some(x) => flat(x.service),
        None => Vec::new(),
    };
    let routes = rail_ids(svcs);
    Alert {
        headline: take_text(r.headline),
        short: take_text(r.short_description),
        impact: take_text(r.impact),
        major,
        routes,
    }
}

/// Active customer alerts, each tagged with the rail lines it impacts
/// (service type "R"), so the UI can filter to the focused line.
pub fn alerts_from(feed: CtaAlerts) -> (alerts: Vec<Alert>)
    ensures
        alerts@.len() == flat_items(feed.alert).len(),
        forall|i: int| 0 <= i < alerts@.len() ==> alert_from(#[trigger] alerts@[i], flat_items(feed.alert)[i]),
{
    let ghost items = flat_items(feed.alert);
    let mut raw = reversed(flat(feed.alert));
    let ghost rev = raw@;
    let mut out: Vec<Alert> = Vec::new();
    while raw.len() > 0
        invariant
            rev == items.reverse(),
            out@.len() + raw@.len() == items.len(),
            raw@ == rev.take(raw@.len() as int),
            forall|k: int| 0 <= k < out@.len() ==> alert_from(#[trigger] out@[k], items[k]),
        decreases raw@.len(),
    {
        let ghost n = raw@.len();
        let r = raw.pop().unwrap();
        assert(r == items[out@.len() as int]);
        out.push(decode_alert(r));
        assert(raw@ =~= rev.take(n - 1));
    }
    out
}

/// The regional alerts feed.
pub struct MetraAlertsResp {
    pub alerts: Vec<MetraAlert>,
}

/// One regional service alert (decoded from GTFS-realtime).
pub struct MetraAlert {
    pub header: Option<String>,
    pub description: Option<String>,
    /// GTFS-realtime effect enum name (e.g. SIGNIFICANT_DELAYS).
    pub effect: Option<String>,
    pub routes: Vec<String>,
}

/// Whether a regional alert has a headline worth showing.
pub open spec fn has_header(a: MetraAlert) -> bool {
    a.header matches Some(h) && h@.len() > 0
}

/// Positions of the regional alerts that have a headline, in order.
pub open spec fn headed_rows(items: Seq<MetraAlert>) -> Seq<int>
    decreases items.len(),
{
    if items.len() == 0 {
        seq![]
    } else {
        let rest = headed_rows(items.drop_last());
        if has_header(items.last()) {
            rest.push(items.len() - 1)
        } else {
            rest
        }
    }
}

/// `a` is the alert for regional record `r`: its routes lowercased, its effect
/// made readable, never major.
pub open spec fn regional_alert_from(a: Alert, r: MetraAlert) -> bool {
    &&& a.headline@ == text_or_empty(r.header)
    &&& a.short@ == text_or_empty(r.description)
    &&& a.impact@ == (match r.effect {
        Some(e) => titled_from(e@, seq![]),
        None => seq![],
    })
    &&& !a.major
    &&& texts(a.routes@) == texts(r.routes@).map_values(|k: Seq<char>| lowercase(k))
}

proof fn lemma_headed_rows_bounds(items: Seq<MetraAlert>)
    ensures
        forall|j: int| 0 <= j < headed_rows(items).len() ==> 0 <= #[trigger] headed_rows(items)[j] < items.len(),
    decreases items.len(),
{
    if items.len() > 0 {
        let rest = headed_rows(items.drop_last());
        lemma_headed_rows_bounds(items.drop_last());
        assert forall|j: int| 0 <= j < headed_rows(items).len() implies 0 <= #[trigger] headed_rows(items)[j] < items.len() by {
            if j < rest.len() {
                assert(headed_rows(items)[j] == rest[j]);
            }
        }
    }
}

fn lowered_all(v: &Vec<String>) -> (r: Vec<String>)
    ensures
        texts(r@) == texts(v@).map_values(|k: Seq<char>| lowercase(k)),
{
    let mut r: Vec<String> = Vec::new();
    let mut i: usize = 0;
    while i < v.len()
        invariant
            i <= v.len(),
            r@.len() == i,
            forall|k: int| 0 <= k < i ==> (#[trigger] r@[k])@ == lowercase(v@[k]@),
        decreases v.len() - i,
    {
        r.push(to_lower(v[i].as_str()));
        i = i + 1;
    }
    assert(texts(r@) =~= texts(v@).map_values(|k: Seq<char>| lowercase(k)));
    r
}

/// Active regional service alerts with a headline, tagged with the lowercased
/// route ids they impact so they match the regional board keys.
pub fn metra_alerts_from(resp: MetraAlertsResp) -> (alerts: Vec<Alert>)
    ensures
        alerts@.len() == headed_rows(resp.alerts@).len(),
        forall|j: int|
            0 <= j < alerts@.len() ==> regional_alert_from(#[trigger] alerts@[j], resp.alerts@[headed_rows(resp.alerts@)[j]]),
{
    let ghost items = resp.alerts@;
    let mut raw = reversed(resp.alerts);
    let ghost rev = raw@;
    let mut out: Vec<Alert> = Vec::new();
    let mut taken: usize = 0;
    let total = raw.len();
    assert(total == items.len());
    assert(items.take(0) =~= Seq::<MetraAlert>::empty());
    while raw.len() > 0
        invariant
            rev == items.reverse(),
            taken + raw@.len() == items.len(),
            items.len() <= usize::MAX,
            raw@ == rev.take(raw@.len() as int),
            out@.len() == headed_rows(items.take(taken as int)).len(),
            forall|j: int|
                0 <= j < out@.len() ==> regional_alert_from(#[trigger] out@[j], items[headed_rows(items.take(taken as int))[j]]),
        decreases raw@.len(),
    {
        let ghost n = raw@.len();
        let ghost pre = items.take(taken as int);
        let ghost post = items.take(taken + 1);
        assert(post.drop_last() =~= pre);
        let r = raw.pop().unwrap();
        assert(r == items[taken as int]);
        proof {
            lemma_headed_rows_bounds(pre);
        }
        let keep = match &r.header {
            Some(h) => !h.as_str().is_empty(),
            None => false,
        };
        if keep {
            let routes = lowered_all(&r.routes);
            let impact = match r.effect {
                Some(e) => pretty_effect(e),
                None => String::new(),
            };
            out.push(Alert {
                headline: take_text(r.header),
                short: take_text(r.description),
                impact,
                major: false,
                routes,
            });
            assert(headed_rows(post) == headed_rows(pre).push(taken as int));
        } else {
            assert(headed_rows(post) == headed_rows(pre));
        }
        taken = taken + 1;
        assert(raw@ =~= rev.take(n - 1));
    }
    assert(items.take(taken as int) =~= items);
    out
}

} // verus!
