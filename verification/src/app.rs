//! UI-side application state: which line and train are focused, the station
//! search overlay, and the two watchers that turn successive snapshots into a
//! terminal bell (a train newly close to the home station) and desktop
//! notes (a train newly delayed).

use vstd::prelude::*;
use vstd::string::StringExecFns;
use crate::fuzzy::{fuzzy_fits, fuzzy_score, fuzzy_score_spec, score_fits};
use crate::model::{texts, Arrival, RouteBoard, Snapshot, Train};
use crate::text::{
    chars_lt, chars_of, chars_eq, lemma_text_lt_strict, lemma_text_lt_trans, lowercase, pop_char,
    push_char, string_of, text_lt, trim, trim_chars,
};

verus! {

/// A searchable reference to one station on one line.
#[derive(Clone)]
pub struct StationRef {
    pub name: String,
    pub route: String,
    /// Which branch of the route.
    pub branch: usize,
    /// Position in that branch's ordered station list.
    pub index: usize,
}

/// Active station fuzzy-search overlay.
pub struct Search {
    pub query: String,
    /// Indices into the station index, best match first.
    pub matches: Vec<usize>,
    pub cursor: usize,
}

/// A station the map is zoomed in on.
pub struct Zoom {
    pub route: String,
    /// Station index within that route.
    pub index: usize,
}

/// Frames the arrivals panel flashes for after a fresh approach (~2 s at 4 fps).
pub const FLASH_FRAMES: u8 = 8;

/// Whether an arrival counts as near: a known ETA within the threshold and a run number.
pub open spec fn is_near(a: Arrival, alert_min: i64) -> bool {
    &&& a.eta_min matches Some(m) && m <= alert_min
    &&& a.run@.len() > 0
}

/// Runs of the arrivals that are near, in feed order.
pub open spec fn near_runs(arrivals: Seq<Arrival>, alert_min: i64) -> Seq<Seq<char>>
    decreases arrivals.len(),
{
    if arrivals.len() == 0 {
        seq![]
    } else {
        let rest = near_runs(arrivals.drop_last(), alert_min);
        if is_near(arrivals.last(), alert_min) {
            rest.push(arrivals.last().run@)
        } else {
            rest
        }
    }
}

/// A poll is a fresh approach when, past the first poll, some near run was
/// not near on the previous poll.
pub open spec fn approach_fresh(started: bool, alerted: Seq<Seq<char>>, near: Seq<Seq<char>>) -> bool {
    started && exists|i: int| 0 <= i < near.len() && !alerted.contains(#[trigger] near[i])
}

/// Whether a train counts for delay notes: delayed, with a run number.
pub open spec fn is_delayed(t: Train) -> bool {
    t.delayed && t.run@.len() > 0
}

/// Runs of the delayed trains of one board, in order.
pub open spec fn delayed_in(trains: Seq<Train>) -> Seq<Seq<char>>
    decreases trains.len(),
{
    if trains.len() == 0 {
        seq![]
    } else {
        let rest = delayed_in(trains.drop_last());
        if is_delayed(trains.last()) {
            rest.push(trains.last().run@)
        } else {
            rest
        }
    }
}

/// Runs of the delayed trains of all boards, board by board.
pub open spec fn delayed_runs(boards: Seq<RouteBoard>) -> Seq<Seq<char>>
    decreases boards.len(),
{
    if boards.len() == 0 {
        seq![]
    } else {
        delayed_runs(boards.drop_last()) + delayed_in(boards.last().trains@)
    }
}

/// The text of a delay note: "LABEL #RUN → DEST".
pub open spec fn note_text(label: Seq<char>, t: Train) -> Seq<char> {
    label + " #"@ + t.run@ + " → "@ + t.dest@
}

/// Notes for the delayed trains of one board: one for each train whose run
/// was not delayed on the last poll (`seen`) and not already delayed earlier
/// in this poll (`before`, then this board's earlier trains), so that each
/// newly delayed run is noted once, for its first delayed train.
pub open spec fn notes_in(label: Seq<char>, trains: Seq<Train>, seen: Seq<Seq<char>>, before: Seq<Seq<char>>) -> Seq<Seq<char>>
    decreases trains.len(),
{
    if trains.len() == 0 {
        seq![]
    } else {
        let init = trains.drop_last();
        let rest = notes_in(label, init, seen, before);
        let t = trains.last();
        if is_delayed(t) && !seen.contains(t.run@) && !(before + delayed_in(init)).contains(t.run@) {
            rest.push(note_text(label, t))
        } else {
            rest
        }
    }
}

/// Notes for all boards, board by board.
pub open spec fn delay_notes(boards: Seq<RouteBoard>, seen: Seq<Seq<char>>) -> Seq<Seq<char>>
    decreases boards.len(),
{
    if boards.len() == 0 {
        seq![]
    } else {
        let init = boards.drop_last();
        delay_notes(init, seen) + notes_in(boards.last().label@, boards.last().trains@, seen, delayed_runs(init))
    }
}

/// The application state.
pub struct App {
    pub snap: Snapshot,
    /// Index into `snap.boards`.
    pub focused: usize,
    /// Index into the focused board's trains.
    pub selected: usize,
    pub loading: bool,
    pub should_quit: bool,
    pub home_label: String,
    /// Animation tick, drives the radar sweep and the blink.
    pub frame: u64,
    /// Flat, searchable index of every station of every line.
    pub stations: Vec<StationRef>,
    pub search: Option<Search>,
    pub zoom: Option<Zoom>,
    /// Approach threshold in minutes (0 or less disables the bell).
    pub alert_min: i64,
    /// Runs that were near the home station on the last poll.
    pub alerted: Vec<String>,
    /// Set after the first poll, which never rings.
    pub started: bool,
    /// Frames remaining to flash the arrivals panel.
    pub flash: u8,
    /// A new approach to ring once, consumed by the caller.
    pub pending_bell: bool,
    pub notify_enabled: bool,
    /// Runs that were delayed on the last poll.
    pub delayed_seen: Vec<String>,
    /// Set after the first poll, which never notifies.
    pub started_delay: bool,
    /// Notes for newly delayed trains, drained by the caller.
    pub pending_notes: Vec<String>,
}

/// The line after `i` among `n`, wrapping around.
pub open spec fn next_index(i: int, n: int) -> int {
    (i + 1) % n
}

/// The line before `i` among `n`, wrapping around.
pub open spec fn prev_index(i: int, n: int) -> int {
    (i + n - 1) % n
}

/// The score of station `i` against query `q`; `None` when it does not
/// match, and for a name whose score would not fit an `i32`.
pub open spec fn station_score(st: Seq<StationRef>, q: Seq<char>, i: int) -> Option<int> {
    if fuzzy_fits(lowercase(st[i].name@), lowercase(q)) {
        fuzzy_score_spec(st[i].name@, q)
    } else {
        None
    }
}

/// Whether station `a` ranks before station `b`: higher score first, then by
/// name, then by position in the index.
pub open spec fn ranks_before(st: Seq<StationRef>, q: Seq<char>, a: int, b: int) -> bool {
    let sa = station_score(st, q, a)->0;
    let sb = station_score(st, q, b)->0;
    ||| sa > sb
    ||| sa == sb && text_lt(st[a].name@, st[b].name@)
    ||| sa == sb && st[a].name@ == st[b].name@ && a < b
}

/// `m` lists exactly the stations that match `q`, best first.
pub open spec fn ranked(st: Seq<StationRef>, q: Seq<char>, m: Seq<usize>) -> bool {
    &&& forall|i: int| 0 <= i < m.len() ==> m[i] < st.len() && (station_score(st, q, #[trigger] m[i] as int) is Some)
    &&& forall|j: int| 0 <= j < st.len() && (station_score(st, q, j) is Some) ==> #[trigger] m.contains(j as usize)
    &&& forall|i: int, k: int| 0 <= i < k < m.len() ==> ranks_before(st, q, #[trigger] m[i] as int, #[trigger] m[k] as int)
}

/// The approach watcher's state after a poll with `arrivals`, from its state before.
pub open spec fn approach_effect(before: App, after: App, arrivals: Seq<Arrival>) -> bool {
    if before.alert_min <= 0 {
        &&& after.alerted == before.alerted
        &&& after.started == before.started
        &&& after.pending_bell == before.pending_bell
        &&& after.flash == before.flash
    } else {
        let near = near_runs(arrivals, before.alert_min);
        let fresh = approach_fresh(before.started, texts(before.alerted@), near);
        &&& texts(after.alerted@) == near
        &&& after.started
        &&& after.pending_bell == (before.pending_bell || fresh)
        &&& after.flash == (if fresh { FLASH_FRAMES } else { before.flash })
    }
}

/// The delay watcher's state after a poll with `boards`, from its state before.
pub open spec fn delay_effect(before: App, after: App, boards: Seq<RouteBoard>) -> bool {
    if !before.notify_enabled {
        &&& after.delayed_seen == before.delayed_seen
        &&& after.started_delay == before.started_delay
        &&& after.pending_notes == before.pending_notes
    } else {
        let fresh = if before.started_delay {
            delay_notes(boards, texts(before.delayed_seen@))
        } else {
            seq![]
        };
        &&& texts(after.delayed_seen@) == delayed_runs(boards)
        &&& after.started_delay
        &&& if fresh.len() > 0 {
            texts(after.pending_notes@) == fresh
        } else {
            after.pending_notes == before.pending_notes
        }
    }
}

/// Everything but the watchers is unchanged.
pub open spec fn view_same(before: App, after: App) -> bool {
    &&& after.snap == before.snap
    &&& after.focused == before.focused
    &&& after.selected == before.selected
    &&& after.loading == before.loading
    &&& after.should_quit == before.should_quit
    &&& after.home_label == before.home_label
    &&& after.frame == before.frame
    &&& after.stations == before.stations
    &&& after.search == before.search
    &&& after.zoom == before.zoom
    &&& after.alert_min == before.alert_min
    &&& after.notify_enabled == before.notify_enabled
}

/// The first board whose key is `key`.
pub open spec fn board_with_key(boards: Seq<RouteBoard>, key: Seq<char>) -> Option<int>
    decreases boards.len(),
{
    if boards.len() == 0 {
        None
    } else {
        match board_with_key(boards.drop_last(), key) {
            Some(p) => Some(p),
            None => if boards.last().key@ == key { Some(boards.len() - 1) } else { None },
        }
    }
}

proof fn lemma_board_with_key(boards: Seq<RouteBoard>, key: Seq<char>)
    ensures
        board_with_key(boards, key) matches Some(p) ==> 0 <= p < boards.len() && boards[p].key@ == key
            && forall|k: int| 0 <= k < p ==> boards[k].key@ != key,
        board_with_key(boards, key) is None ==> forall|k: int| 0 <= k < boards.len() ==> boards[k].key@ != key,
    decreases boards.len(),
{
    if boards.len() > 0 {
        let init = boards.drop_last();
        lemma_board_with_key(init, key);
        match board_with_key(init, key) {
            Some(p) => {
                assert forall|k: int| 0 <= k < p implies boards[k].key@ != key by {
                    assert(init[k] == boards[k]);
                }
                assert(init[p] == boards[p]);
            },
            None => {
                assert forall|k: int| 0 <= k < boards.len() - 1 implies boards[k].key@ != key by {
                    assert(init[k] == boards[k]);
                }
            },
        }
    }
}

/// Whether entry `a` ranks before entry `b`, from their names and scores.
fn ranks_before_exec(
    names: &Vec<Vec<char>>,
    scores: &Vec<i32>,
    a: usize,
    b: usize,
    Ghost(st): Ghost<Seq<StationRef>>,
    Ghost(q): Ghost<Seq<char>>,
) -> (r: bool)
    requires
        a < names@.len(),
        b < names@.len(),
        names@.len() == scores@.len(),
        names@.len() <= st.len(),
        names@[a as int]@ == st[a as int].name@,
        names@[b as int]@ == st[b as int].name@,
        station_score(st, q, a as int) == Some(scores@[a as int] as int),
        station_score(st, q, b as int) == Some(scores@[b as int] as int),
    ensures
        r == ranks_before(st, q, a as int, b as int),
{
    if scores[a] != scores[b] {
        scores[a] > scores[b]
    } else if chars_lt(&names[a], &names[b]) {
        true
    } else {
        chars_eq(&names[a], &names[b]) && a < b
    }
}

/// Two different scored stations always rank one way or the other, never both.
proof fn lemma_ranks_total(st: Seq<StationRef>, q: Seq<char>, a: int, b: int)
    requires
        a != b,
    ensures
        ranks_before(st, q, a, b) || ranks_before(st, q, b, a),
        !(ranks_before(st, q, a, b) && ranks_before(st, q, b, a)),
{
    lemma_text_lt_strict(st[a].name@, st[b].name@);
}

/// Ranking is transitive.
proof fn lemma_ranks_trans(st: Seq<StationRef>, q: Seq<char>, a: int, b: int, c: int)
    requires
        ranks_before(st, q, a, b),
        ranks_before(st, q, b, c),
    ensures
        ranks_before(st, q, a, c),
{
    if text_lt(st[a].name@, st[b].name@) && text_lt(st[b].name@, st[c].name@) {
        lemma_text_lt_trans(st[a].name@, st[b].name@, st[c].name@);
    }
}

/// Whether the views of `v` contain `s`.
fn contains_text(v: &Vec<String>, s: &String) -> (r: bool)
    ensures
        r == texts(v@).contains(s@),
{
    let mut i: usize = 0;
    while i < v.len()
        invariant
            i <= v.len(),
            forall|k: int| 0 <= k < i ==> v@[k]@ != s@,
        decreases v.len() - i,
    {
        if v[i] == *s {
            assert(texts(v@)[i as int] == s@);
            return true;
        }
        i = i + 1;
    }
    proof {
        if texts(v@).contains(s@) {
            let k = choose|k: int| 0 <= k < texts(v@).len() && texts(v@)[k] == s@;
            assert(v@[k]@ == s@);
        }
    }
    false
}

impl App {
    /// The number of trains on the focused line (0 when no line is focused).
    pub open spec fn focused_count(self) -> nat {
        if self.focused < self.snap.boards@.len() {
            self.snap.boards@[self.focused as int].trains@.len()
        } else {
            0
        }
    }

    /// The line and train cursors point at something, or rest at 0.
    pub open spec fn cursor_ok(self) -> bool {
        &&& self.focused < self.snap.boards@.len() || self.focused == 0
        &&& self.selected < self.focused_count() || self.selected == 0
    }

    /// A board waiting for its first poll, with an empty station index.
    pub fn new(home_label: String, alert_min: i64, notify_enabled: bool) -> (app: App)
        ensures
            app.home_label == home_label,
            app.alert_min == alert_min,
            app.notify_enabled == notify_enabled,
            app.focused == 0,
            app.selected == 0,
            app.loading,
            !app.should_quit,
            app.frame == 0,
            app.flash == 0,
            app.stations@.len() == 0,
            app.search is None,
            app.zoom is None,
            app.snap.updated@.len() == 0,
            app.snap.boards@.len() == 0,
            app.snap.arrivals@.len() == 0,
            app.snap.statuses@.len() == 0,
            app.snap.alerts@.len() == 0,
            app.snap.error is None,
            app.alerted@.len() == 0,
            !app.started,
            !app.pending_bell,
            app.delayed_seen@.len() == 0,
            !app.started_delay,
            app.pending_notes@.len() == 0,
            app.cursor_ok(),
    {
        let app = App {
            snap: Snapshot::default(),
            focused: 0,
            selected: 0,
            loading: true,
            should_quit: false,
            home_label,
            frame: 0,
            stations: Vec::new(),
            search: None,
            zoom: None,
            alert_min,
            alerted: Vec::new(),
            started: false,
            flash: 0,
            pending_bell: false,
            notify_enabled,
            delayed_seen: Vec::new(),
            started_delay: false,
            pending_notes: Vec::new(),
        };
        app
    }

    /// Advance the animation frame and count the flash down.
    pub fn tick(&mut self)
        ensures
            notes_quiet_step(*old(self), *final(self)),
            *final(self) == (App {
                frame: if old(self).frame == u64::MAX { 0 } else { (old(self).frame + 1) as u64 },
                flash: if old(self).flash == 0 { 0 } else { (old(self).flash - 1) as u8 },
                ..*old(self)
            }),
    {
        self.frame = self.frame.wrapping_add(1);
        self.flash = self.flash.saturating_sub(1);
    }

    /// Consume a queued bell (rung once when a train newly comes within range).
    pub fn take_bell(&mut self) -> (rang: bool)
        ensures
            notes_quiet_step(*old(self), *final(self)),
            rang == old(self).pending_bell,
            *final(self) == (App { pending_bell: false, ..*old(self) }),
    {
        let rang = self.pending_bell;
        self.pending_bell = false;
        rang
    }

    /// Drain newly-delayed descriptions for the caller to push as notifications.
    pub fn take_notes(&mut self) -> (notes: Vec<String>)
        ensures
            notes_quiet_step(*old(self), *final(self)),
            notes@ == old(self).pending_notes@,
            final(self).pending_notes@.len() == 0,
            *final(self) == (App { pending_notes: final(self).pending_notes, ..*old(self) }),
    {
        let mut notes: Vec<String> = Vec::new();
        std::mem::swap(&mut notes, &mut self.pending_notes);
        assert(texts(self.pending_notes@) =~= Seq::<Seq<char>>::empty());
        notes
    }

    /// After a new snapshot, fire the approach alert when a home-station train
    /// newly enters the threshold. Dedupes by run so each train rings once.
    fn check_approach(&mut self)
        ensures
            approach_effect(*old(self), *final(self), old(self).snap.arrivals@),
            view_same(*old(self), *final(self)),
            final(self).delayed_seen == old(self).delayed_seen,
            final(self).started_delay == old(self).started_delay,
            final(self).pending_notes == old(self).pending_notes,
    {
        if self.alert_min <= 0 {
            return;
        }
        let ghost arrivals = self.snap.arrivals@;
        let alert_min = self.alert_min;
        let mut near: Vec<String> = Vec::new();
        let n = self.snap.arrivals.len();
        let mut i: usize = 0;
        while i < n
            invariant
                n == arrivals.len(),
                arrivals == self.snap.arrivals@,
                alert_min == self.alert_min,
                i <= n,
                texts(near@) == near_runs(arrivals.take(i as int), alert_min),
            decreases n - i,
        {
            let a = &self.snap.arrivals[i];
            assert(arrivals.take(i + 1).drop_last() =~= arrivals.take(i as int));
            assert(arrivals.take(i + 1).last() == arrivals[i as int]);
            let within = match a.eta_min {
                Some(m) => m <= alert_min,
                None => false,
            };
            if within && !a.run.as_str().is_empty() {
                near.push(a.run.clone());
                assert(texts(near@) =~= near_runs(arrivals.take(i as int), alert_min).push(a.run@));
            }
            i = i + 1;
        }
        assert(arrivals.take(n as int) =~= arrivals);
        let ghost near_v = texts(near@);
        let mut fresh = false;
        if self.started {
            let mut k: usize = 0;
            while k < near.len() && !fresh
                invariant
                    near_v == texts(near@),
                    k <= near.len(),
                    fresh ==> 1 <= k && !texts(self.alerted@).contains(near_v[k - 1]),
                    !fresh ==> forall|q: int| 0 <= q < k ==> texts(self.alerted@).contains(#[trigger] near_v[q]),
                decreases near.len() - k,
            {
                if !contains_text(&self.alerted, &near[k]) {
                    fresh = true;
                }
                k = k + 1;
            }
            proof {
                if fresh {
                    let w = k - 1;
                    assert(0 <= w < near_v.len() && !texts(self.alerted@).contains(near_v[w]));
                }
            }
        }
        assert(fresh == approach_fresh(self.started, texts(self.alerted@), near_v));
        if fresh {
            self.pending_bell = true;
            self.flash = FLASH_FRAMES;
        }
        self.alerted = near;
        self.started = true;
    }

    /// After a new snapshot, queue a desktop notification for any tracked train
    /// that has newly gone delayed. Dedupes by run; one delay episode per run.
    fn check_delays(&mut self)
        ensures
            delay_effect(*old(self), *final(self), old(self).snap.boards@),
            view_same(*old(self), *final(self)),
            final(self).alerted == old(self).alerted,
            final(self).started == old(self).started,
            final(self).pending_bell == old(self).pending_bell,
            final(self).flash == old(self).flash,
    {
        if !self.notify_enabled {
            return;
        }
        let ghost boards = self.snap.boards@;
        let ghost seen = texts(self.delayed_seen@);
        let started = self.started_delay;
        let mut current: Vec<String> = Vec::new();
        let mut fresh: Vec<String> = Vec::new();
        let nb = self.snap.boards.len();
        let mut bi: usize = 0;
        while bi < nb
            invariant
                nb == boards.len(),
                boards == self.snap.boards@,
                seen == texts(self.delayed_seen@),
                started == self.started_delay,
                bi <= nb,
                texts(current@) == delayed_runs(boards.take(bi as int)),
                texts(fresh@) == (if started { delay_notes(boards.take(bi as int), seen) } else { seq![] }),
            decreases nb - bi,
        {
            let b = &self.snap.boards[bi];
            let ghost trains = b.trains@;
            let ghost cur0 = texts(current@);
            let ghost fresh0 = texts(fresh@);
            let nt = b.trains.len();
            let mut ti: usize = 0;
            while ti < nt
                invariant
                    nt == trains.len(),
                    trains == b.trains@,
                    seen == texts(self.delayed_seen@),
                    ti <= nt,
                    texts(current@) == cur0 + delayed_in(trains.take(ti as int)),
                    texts(fresh@) == fresh0 + (if started { notes_in(b.label@, trains.take(ti as int), seen, cur0) } else { seq![] }),
                    cur0 == delayed_runs(boards.take(bi as int)),
                decreases nt - ti,
            {
                let t = &b.trains[ti];
                assert(trains.take(ti + 1).drop_last() =~= trains.take(ti as int));
                assert(trains.take(ti + 1).last() == trains[ti as int]);
                if t.delayed && !t.run.as_str().is_empty() {
                    let ghost cur1 = texts(current@);
                    let earlier = contains_text(&current, &t.run);
                    current.push(t.run.clone());
                    assert(is_delayed(trains.take(ti + 1).last()));
                    assert(delayed_in(trains.take(ti + 1)) == delayed_in(trains.take(ti as int)).push(t.run@));
                    assert(texts(current@) =~= cur1.push(t.run@));
                    assert(texts(current@) =~= cur0 + delayed_in(trains.take(ti + 1)));
                    if started && !contains_text(&self.delayed_seen, &t.run) && !earlier {
                        let mut note = String::new();
                        note.append(b.label.as_str());
                        note.append(" #");
                        note.append(t.run.as_str());
                        note.append(" → ");
                        note.append(t.dest.as_str());
                        let ghost fr1 = texts(fresh@);
                        fresh.push(note);
                        assert(notes_in(b.label@, trains.take(ti + 1), seen, cur0) == notes_in(b.label@, trains.take(ti as int), seen, cur0).push(note_text(b.label@, *t)));
                        assert(texts(fresh@) =~= fr1.push(note_text(b.label@, *t)));
                        assert(texts(fresh@) =~= fresh0 + notes_in(b.label@, trains.take(ti + 1), seen, cur0));
                    } else {
                        assert(texts(fresh@) =~= fresh0 + (if started { notes_in(b.label@, trains.take(ti + 1), seen, cur0) } else { seq![] }));
                    }
                } else {
                    assert(texts(fresh@) =~= fresh0 + (if started { notes_in(b.label@, trains.take(ti + 1), seen, cur0) } else { seq![] }));
                }
                ti = ti + 1;
            }
            assert(trains.take(nt as int) =~= trains);
            assert(boards.take(bi + 1).drop_last() =~= boards.take(bi as int));
            assert(boards.take(bi + 1).last() == boards[bi as int]);
            assert(texts(current@) =~= delayed_runs(boards.take(bi + 1)));
            assert(texts(fresh@) =~= (if started { delay_notes(boards.take(bi + 1), seen) } else { seq![] }));
            bi = bi + 1;
        }
        assert(boards.take(nb as int) =~= boards);
        if fresh.len() > 0 {
            self.pending_notes = fresh;
        }
        self.delayed_seen = current;
        self.started_delay = true;
    }

    /// Number of trains on the focused line.
    pub fn focused_len(&self) -> (n: usize)
        ensures
            n == self.focused_count(),
    {
        if self.focused < self.snap.boards.len() {
            self.snap.boards[self.focused].trains.len()
        } else {
            0
        }
    }

    /// The trains on the focused line; none when no line is focused.
    pub fn trains_of(&self) -> (ts: &[Train])
        ensures
            ts@ == (if self.focused < self.snap.boards@.len() {
                self.snap.boards@[self.focused as int].trains@
            } else {
                Seq::<Train>::empty()
            }),
    {
        if self.focused < self.snap.boards.len() {
            self.snap.boards[self.focused].trains.as_slice()
        } else {
            &[]
        }
    }

    /// Take in a new snapshot: keep the cursors on something that exists,
    /// then run the approach and delay watchers over it.
    pub fn apply(&mut self, snap: Snapshot)
        ensures
            notes_quiet_step(*old(self), *final(self)),
            final(self).snap == snap,
            !final(self).loading,
            final(self).focused == (if old(self).focused >= snap.boards@.len() { 0 } else { old(self).focused }),
            final(self).selected == (if old(self).selected >= final(self).focused_count() {
                if final(self).focused_count() == 0 { 0 } else { (final(self).focused_count() - 1) as usize }
            } else {
                old(self).selected
            }),
            final(self).cursor_ok(),
            approach_effect(*old(self), *final(self), snap.arrivals@),
            delay_effect(*old(self), *final(self), snap.boards@),
            final(self).should_quit == old(self).should_quit,
            final(self).home_label == old(self).home_label,
            final(self).frame == old(self).frame,
            final(self).stations == old(self).stations,
            final(self).search == old(self).search,
            final(self).zoom == old(self).zoom,
            final(self).alert_min == old(self).alert_min,
            final(self).notify_enabled == old(self).notify_enabled,
    {
        self.loading = false;
        if self.focused >= snap.boards.len() {
            self.focused = 0;
        }
        self.snap = snap;
        let len = self.focused_len();
        if self.selected >= len {
            self.selected = len.saturating_sub(1);
        }
        self.check_approach();
        self.check_delays();
    }

    /// Focus the next line, wrapping around.
    pub fn next_route(&mut self)
        requires
            old(self).snap.boards@.len() > 0 ==> old(self).focused < usize::MAX,
        ensures
            notes_quiet_step(*old(self), *final(self)),
            old(self).snap.boards@.len() == 0 ==> *final(self) == *old(self),
            old(self).snap.boards@.len() > 0 ==> {
                &&& final(self).focused == next_index(old(self).focused as int, old(self).snap.boards@.len() as int)
                &&& final(self).selected == 0
                &&& *final(self) == (App { focused: final(self).focused, selected: 0, ..*old(self) })
            },
            old(self).cursor_ok() ==> final(self).cursor_ok(),
    {
        if self.snap.boards.len() > 0 {
            self.focused = (self.focused + 1) % self.snap.boards.len();
            self.selected = 0;
        }
    }
    /// Focus the previous line, wrapping around.
    pub fn prev_route(&mut self)
        requires
            old(self).snap.boards@.len() > 0 ==> old(self).focused + old(self).snap.boards@.len() <= usize::MAX,
        ensures
            notes_quiet_step(*old(self), *final(self)),
            old(self).snap.boards@.len() == 0 ==> *final(self) == *old(self),
            old(self).snap.boards@.len() > 0 ==> {
                &&& final(self).focused == prev_index(old(self).focused as int, old(self).snap.boards@.len() as int)
                &&& final(self).selected == 0
                &&& *final(self) == (App { focused: final(self).focused, selected: 0, ..*old(self) })
            },
            old(self).cursor_ok() ==> final(self).cursor_ok(),
    {
        if self.snap.boards.len() > 0 {
            self.focused = (self.focused + self.snap.boards.len() - 1) % self.snap.boards.len();
            self.selected = 0;
        }
    }

    /// Leave any zoom and focus the next line.
    pub fn next_line(&mut self)
        requires
            old(self).snap.boards@.len() > 0 ==> old(self).focused < usize::MAX,
        ensures
            notes_quiet_step(*old(self), *final(self)),
            old(self).snap.boards@.len() == 0 ==> *final(self) == (App { zoom: None, ..*old(self) }),
            old(self).snap.boards@.len() > 0 ==> *final(self) == (App {
                zoom: None,
                focused: next_index(old(self).focused as int, old(self).snap.boards@.len() as int) as usize,
                selected: 0,
                ..*old(self)
            }),
    {
        self.clear_zoom();
        self.next_route();
    }

    /// Leave any zoom and focus the previous line.
    pub fn prev_line(&mut self)
        requires
            old(self).snap.boards@.len() > 0 ==> old(self).focused + old(self).snap.boards@.len() <= usize::MAX,
        ensures
            notes_quiet_step(*old(self), *final(self)),
            old(self).snap.boards@.len() == 0 ==> *final(self) == (App { zoom: None, ..*old(self) }),
            old(self).snap.boards@.len() > 0 ==> *final(self) == (App {
                zoom: None,
                focused: prev_index(old(self).focused as int, old(self).snap.boards@.len() as int) as usize,
                selected: 0,
                ..*old(self)
            }),
    {
        self.clear_zoom();
        self.prev_route();
    }

    /// Move the train cursor down; saturates at the last train.
    pub fn select_next(&mut self)
        requires
            old(self).focused_count() > 0 ==> old(self).selected < usize::MAX,
        ensures
            notes_quiet_step(*old(self), *final(self)),
            old(self).focused_count() == 0 ==> *final(self) == *old(self),
            old(self).focused_count() > 0 ==> *final(self) == (App {
                selected: if old(self).selected + 1 < old(self).focused_count() {
                    (old(self).selected + 1) as usize
                } else {
                    (old(self).focused_count() - 1) as usize
                },
                ..*old(self)
            }),
            old(self).cursor_ok() ==> final(self).cursor_ok(),
    {
        let len = self.focused_len();
        if len > 0 {
            let up = self.selected + 1;
            self.selected = if up < len - 1 { up } else { len - 1 };
        }
    }

    /// Move the train cursor up; saturates at the first train.
    pub fn select_prev(&mut self)
        ensures
            notes_quiet_step(*old(self), *final(self)),
            *final(self) == (App {
                selected: if old(self).selected == 0 { 0 } else { (old(self).selected - 1) as usize },
                ..*old(self)
            }),
            old(self).cursor_ok() ==> final(self).cursor_ok(),
    {
        self.selected = self.selected.saturating_sub(1);
    }

    /// The currently selected train's run number, if any.
    pub fn selected_run(&self) -> (r: Option<&str>)
        ensures
            r is Some <==> (self.focused < self.snap.boards@.len() && self.selected < self.focused_count()),
            r matches Some(run) ==> run@ == self.snap.boards@[self.focused as int].trains@[self.selected as int].run@,
    {
        if self.focused < self.snap.boards.len() {
            let b = &self.snap.boards[self.focused];
            if self.selected < b.trains.len() {
                return Some(b.trains[self.selected].run.as_str());
            }
        }
        None
    }

    /// Route key the center panel should display: the zoom target if zoomed,
    /// otherwise the focused board's line.
    pub fn view_route(&self) -> (r: Option<String>)
        ensures
            match self.zoom {
                Some(z) => r matches Some(k) && k@ == z.route@,
                None => if self.focused < self.snap.boards@.len() {
                    r matches Some(k) && k@ == self.snap.boards@[self.focused as int].key@
                } else {
                    r is None
                },
            },
    {
        if let Some(z) = &self.zoom {
            return Some(z.route.clone());
        }
        if self.focused < self.snap.boards.len() {
            Some(self.snap.boards[self.focused].key.clone())
        } else {
            None
        }
    }

    /// Leave the zoomed station view.
    pub fn clear_zoom(&mut self)
        ensures
            notes_quiet_step(*old(self), *final(self)),
            *final(self) == (App { zoom: None, ..*old(self) }),
    {
        self.zoom = None;
    }

    /// Rank the whole station index against the current query.
    fn recompute_matches(&mut self)
        ensures
            match old(self).search {
                None => *final(self) == *old(self),
                Some(s) => final(self).search matches Some(t) && {
                    &&& t.query == s.query
                    &&& t.cursor == 0
                    &&& ranked(old(self).stations@, trim(s.query@), t.matches@)
                    &&& *final(self) == (App { search: final(self).search, ..*old(self) })
                },
            },
    {
        let query_chars = match &self.search {
            Some(s) => chars_of(s.query.as_str()),
            None => {
                return;
            },
        };
        let q_chars = trim_chars(&query_chars);
        let q = string_of(&q_chars);
        let ghost st = self.stations@;
        let ghost qv = q@;
        let n = self.stations.len();
        let mut names: Vec<Vec<char>> = Vec::new();
        let mut scores: Vec<i32> = Vec::new();
        let mut order: Vec<usize> = Vec::new();
        let mut i: usize = 0;
        while i < n
            invariant
                n == st.len(),
                st == self.stations@,
                qv == q@,
                i <= n,
                names@.len() == i,
                scores@.len() == i,
                forall|k: int| 0 <= k < i ==> (#[trigger] names@[k])@ == st[k].name@,
                forall|k: int|
                    0 <= k < i && (station_score(st, qv, k) is Some) ==> station_score(st, qv, k) == Some(
                        #[trigger] scores@[k] as int,
                    ),
                forall|x: int|
                    0 <= x < order@.len() ==> order@[x] < i && (station_score(
                        st,
                        qv,
                        #[trigger] order@[x] as int,
                    ) is Some),
                forall|j: int| 0 <= j < i && (station_score(st, qv, j) is Some) ==> #[trigger] order@.contains(j as usize),
                forall|x: int, y: int|
                    0 <= x < y < order@.len() ==> ranks_before(st, qv, #[trigger] order@[x] as int, #[trigger] order@[y] as int),
            decreases n - i,
        {
            let name = &self.stations[i].name;
            names.push(chars_of(name.as_str()));
            let fits = score_fits(name.as_str(), q.as_str());
            let sc = if fits {
                fuzzy_score(name.as_str(), q.as_str())
            } else {
                None
            };
            match sc {
                Some(v) => {
                    scores.push(v);
                    assert(station_score(st, qv, i as int) == Some(v as int));
                    let ghost prev = order@;
                    let mut p: usize = 0;
                    while p < order.len() && !ranks_before_exec(&names, &scores, i, order[p], Ghost(st), Ghost(qv))
                        invariant
                            order@ == prev,
                            p <= prev.len(),
                            names@.len() == i + 1,
                            scores@.len() == i + 1,
                            i < st.len(),
                            station_score(st, qv, i as int) is Some,
                            forall|k: int| 0 <= k <= i ==> (#[trigger] names@[k])@ == st[k].name@,
                            forall|k: int|
                                0 <= k <= i && (station_score(st, qv, k) is Some) ==> station_score(st, qv, k) == Some(
                                    #[trigger] scores@[k] as int,
                                ),
                            forall|x: int|
                                0 <= x < prev.len() ==> prev[x] < i && (station_score(
                                    st,
                                    qv,
                                    #[trigger] prev[x] as int,
                                ) is Some),
                            forall|x: int| 0 <= x < p ==> ranks_before(st, qv, #[trigger] prev[x] as int, i as int),
                        decreases prev.len() - p,
                    {
                        proof {
                            lemma_ranks_total(st, qv, i as int, prev[p as int] as int);
                        }
                        p = p + 1;
                    }
                    order.insert(p, i);
                    proof {
                        let new = order@;
                        assert(new == prev.insert(p as int, i));
                        assert forall|x: int, y: int| 0 <= x < y < new.len() implies ranks_before(
                            st,
                            qv,
                            #[trigger] new[x] as int,
                            #[trigger] new[y] as int,
                        ) by {
                            if x < p && y == p {
                            } else if x < p && y > p {
                                assert(new[y] == prev[y - 1]);
                            } else if x == p {
                                assert(p < prev.len());
                                assert(new[y] == prev[y - 1]);
                                if y - 1 > p {
                                    assert(ranks_before(st, qv, prev[p as int] as int, prev[y - 1] as int));
                                    lemma_ranks_trans(st, qv, i as int, prev[p as int] as int, prev[y - 1] as int);
                                }
                            } else if x > p {
                                assert(new[x] == prev[x - 1]);
                                assert(new[y] == prev[y - 1]);
                            }
                        }
                        assert forall|j: int| 0 <= j <= i && (station_score(st, qv, j) is Some) implies #[trigger] new.contains(j as usize) by {
                            if j == i {
                                assert(new[p as int] == i);
                            } else {
                                assert(prev.contains(j as usize));
                                let w = choose|w: int| 0 <= w < prev.len() && prev[w] == j as usize;
                                if w < p {
                                    assert(new[w] == j as usize);
                                } else {
                                    assert(new[w + 1] == j as usize);
                                }
                            }
                        }
                        assert forall|x: int| 0 <= x < new.len() implies new[x] < i + 1 && (station_score(
                            st,
                            qv,
                            #[trigger] new[x] as int,
                        ) is Some) by {
                            if x < p {
                            } else if x > p {
                                assert(new[x] == prev[x - 1]);
                            }
                        }
                    }
                },
                None => {
                    scores.push(0);
                    assert(station_score(st, qv, i as int) is None);
                },
            }
            i = i + 1;
        }
        match &mut self.search {
            Some(s) => {
                s.matches = order;
                s.cursor = 0;
            },
            None => {},
        }
    }

    /// Open the station search overlay with an empty query.
    pub fn open_search(&mut self)
        ensures
            notes_quiet_step(*old(self), *final(self)),
            final(self).search matches Some(t) && {
                &&& t.query@.len() == 0
                &&& t.cursor == 0
                &&& ranked(old(self).stations@, trim(t.query@), t.matches@)
            },
            *final(self) == (App { search: final(self).search, ..*old(self) }),
    {
        self.search = Some(Search { query: String::new(), matches: Vec::new(), cursor: 0 });
        self.recompute_matches();
    }

    /// Close the station search overlay.
    pub fn close_search(&mut self)
        ensures
            notes_quiet_step(*old(self), *final(self)),
            *final(self) == (App { search: None, ..*old(self) }),
    {
        self.search = None;
    }

    /// Type a character into the search query and re-rank.
    pub fn search_input(&mut self, c: char)
        ensures
            notes_quiet_step(*old(self), *final(self)),
            match old(self).search {
                None => *final(self) == *old(self),
                Some(s) => final(self).search matches Some(t) && {
                    &&& t.query@ == s.query@.push(c)
                    &&& t.cursor == 0
                    &&& ranked(old(self).stations@, trim(t.query@), t.matches@)
                    &&& *final(self) == (App { search: final(self).search, ..*old(self) })
                },
            },
    {
        match &mut self.search {
            Some(s) => push_char(&mut s.query, c),
            None => {},
        }
        self.recompute_matches();
    }

    /// Delete the last character of the search query and re-rank.
    pub fn search_backspace(&mut self)
        ensures
            notes_quiet_step(*old(self), *final(self)),
            match old(self).search {
                None => *final(self) == *old(self),
                Some(s) => final(self).search matches Some(t) && {
                    &&& t.query@ == (if s.query@.len() > 0 { s.query@.drop_last() } else { s.query@ })
                    &&& t.cursor == 0
                    &&& ranked(old(self).stations@, trim(t.query@), t.matches@)
                    &&& *final(self) == (App { search: final(self).search, ..*old(self) })
                },
            },
    {
        match &mut self.search {
            Some(s) => pop_char(&mut s.query),
            None => {},
        }
        self.recompute_matches();
    }

    /// Move the highlighted search result by `delta`, staying within the results.
    pub fn search_move(&mut self, delta: i32)
        requires
            old(self).search matches Some(s) ==> (s.matches@.len() > 0 ==> {
                &&& s.matches@.len() - 1 <= i32::MAX
                &&& s.cursor <= i32::MAX
                &&& i32::MIN <= s.cursor + delta <= i32::MAX
            }),
        ensures
            notes_quiet_step(*old(self), *final(self)),
            match old(self).search {
                Some(s) if s.matches@.len() > 0 => final(self).search matches Some(t) && {
                    let want = s.cursor + delta;
                    let last = s.matches@.len() - 1;
                    &&& t.cursor == (if want < 0 { 0 } else if want > last { last } else { want })
                    &&& t.query == s.query
                    &&& t.matches == s.matches
                    &&& *final(self) == (App { search: final(self).search, ..*old(self) })
                },
                _ => *final(self) == *old(self),
            },
    {
        match &mut self.search {
            Some(s) => {
                if s.matches.len() == 0 {
                    return;
                }
                let last = (s.matches.len() - 1) as i32;
                let want = s.cursor as i32 + delta;
                let clamped = if want < 0 {
                    0
                } else if want > last {
                    last
                } else {
                    want
                };
                s.cursor = clamped as usize;
            },
            None => {},
        }
    }

    /// Jump to the highlighted result: focus its line and zoom on the station.
    pub fn commit_search(&mut self)
        requires
            old(self).search matches Some(s) ==> forall|k: int|
                0 <= k < s.matches@.len() ==> #[trigger] s.matches@[k] < old(self).stations@.len(),
        ensures
            notes_quiet_step(*old(self), *final(self)),
            match old(self).search {
                None => *final(self) == *old(self),
                Some(s) => if s.cursor < s.matches@.len() {
                    let st = old(self).stations@[s.matches@[s.cursor as int] as int];
                    let found = board_with_key(old(self).snap.boards@, st.route@);
                    &&& final(self).search is None
                    &&& final(self).zoom matches Some(z) && z.route@ == st.route@ && z.index == st.index
                    &&& final(self).focused == (if found is Some { found->0 as usize } else { old(self).focused })
                    &&& final(self).selected == (if found is Some { 0 } else { old(self).selected })
                    &&& *final(self) == (App {
                        search: None,
                        zoom: final(self).zoom,
                        focused: final(self).focused,
                        selected: final(self).selected,
                        ..*old(self)
                    })
                } else {
                    *final(self) == (App { search: None, ..*old(self) })
                },
            },
            old(self).cursor_ok() ==> final(self).cursor_ok(),
    {
        let idx = match &self.search {
            None => {
                return;
            },
            Some(s) => {
                if s.cursor < s.matches.len() {
                    s.matches[s.cursor]
                } else {
                    self.close_search();
                    return;
                }
            },
        };
        let route = self.stations[idx].route.clone();
        let index = self.stations[idx].index;
        let mut pos: usize = 0;
        let nb = self.snap.boards.len();
        while pos < nb && self.snap.boards[pos].key != route
            invariant
                nb == self.snap.boards@.len(),
                pos <= nb,
                forall|k: int| 0 <= k < pos ==> self.snap.boards@[k].key@ != route@,
            decreases nb - pos,
        {
            pos = pos + 1;
        }
        proof {
            lemma_board_with_key(self.snap.boards@, route@);
        }
        if pos < nb {
            self.focused = pos;
            self.selected = 0;
        }
        self.zoom = Some(Zoom { route, index });
        self.close_search();
    }
}

/// Stepping to the next line and back again returns to the line one started on,
/// and so does stepping back and then forward.
pub proof fn law_next_prev_inverse(i: int, n: int)
    requires
        0 <= i < n,
    ensures
        prev_index(next_index(i, n), n) == i,
        next_index(prev_index(i, n), n) == i,
        0 <= next_index(i, n) < n,
        0 <= prev_index(i, n) < n,
{
    assert(prev_index(next_index(i, n), n) == i) by (nonlinear_arith)
        requires
            0 <= i < n,
    {
        if i + 1 < n {
            assert((i + 1) % n == i + 1);
        } else {
            assert((i + 1) % n == 0);
        }
    }
    assert(next_index(prev_index(i, n), n) == i) by (nonlinear_arith)
        requires
            0 <= i < n,
    {
        if i == 0 {
            assert((i + n - 1) % n == n - 1);
        } else {
            assert((i + n - 1) % n == i - 1);
        }
    }
}

/// `prev_route` undoes `next_route`: from a focused line, stepping forward
/// and then back (the two calls' own results, the second allowed by its
/// bound on the line index) returns to that line with the train cursor at
/// the top, and changes nothing else.
pub proof fn law_prev_route_undoes_next(a0: App, a1: App, a2: App)
    requires
        a0.focused < a0.snap.boards@.len(),
        a1 == (App {
            focused: next_index(a0.focused as int, a0.snap.boards@.len() as int) as usize,
            selected: 0,
            ..a0
        }),
        a1.focused + a1.snap.boards@.len() <= usize::MAX,
        a2 == (App {
            focused: prev_index(a1.focused as int, a1.snap.boards@.len() as int) as usize,
            selected: 0,
            ..a1
        }),
    ensures
        a2 == (App { selected: 0, ..a0 }),
{
    law_next_prev_inverse(a0.focused as int, a0.snap.boards@.len() as int);
}

/// An arrival within `alert_min` minutes: a run number and a known ETA at
/// or below the threshold, whatever its delayed or approaching flags.
pub open spec fn within_window(a: Arrival, alert_min: i64) -> bool {
    a.run@.len() > 0 && a.eta_min is Some && a.eta_min->0 <= alert_min
}

/// The runs the approach watcher counts as near are exactly the runs of the
/// arrivals that have a run number and an ETA at or below the threshold; an
/// arrival's delayed and approaching flags play no part.
pub proof fn law_near_runs_are_the_close_arrivals(arrivals: Seq<Arrival>, alert_min: i64)
    ensures
        forall|x: Seq<char>|
            near_runs(arrivals, alert_min).contains(x) <==> exists|i: int|
                0 <= i < arrivals.len() && (#[trigger] arrivals[i]).run@ == x && within_window(arrivals[i], alert_min),
    decreases arrivals.len(),
{
    if arrivals.len() > 0 {
        let init = arrivals.drop_last();
        let n = arrivals.len() - 1;
        law_near_runs_are_the_close_arrivals(init, alert_min);
        let rest = near_runs(init, alert_min);
        let near = near_runs(arrivals, alert_min);
        assert forall|x: Seq<char>|
            near.contains(x) <==> exists|i: int|
                0 <= i < arrivals.len() && (#[trigger] arrivals[i]).run@ == x && within_window(arrivals[i], alert_min) by {
            if near.contains(x) {
                let k = choose|k: int| 0 <= k < near.len() && near[k] == x;
                if k < rest.len() {
                    assert(rest[k] == x);
                    assert(rest.contains(x));
                    let i = choose|i: int| 0 <= i < init.len() && (#[trigger] init[i]).run@ == x && within_window(init[i], alert_min);
                    assert(arrivals[i] == init[i]);
                } else {
                    assert(arrivals[n].run@ == x);
                }
            }
            if exists|i: int| 0 <= i < arrivals.len() && (#[trigger] arrivals[i]).run@ == x && within_window(arrivals[i], alert_min) {
                let i = choose|i: int| 0 <= i < arrivals.len() && (#[trigger] arrivals[i]).run@ == x && within_window(arrivals[i], alert_min);
                if i < n {
                    assert(init[i] == arrivals[i]);
                    assert(rest.contains(x));
                    let k = choose|k: int| 0 <= k < rest.len() && rest[k] == x;
                    assert(near[k] == x);
                } else {
                    assert(near[near.len() - 1] == x);
                }
            }
        }
    }
}

/// A train that is flagged delayed and has a run number.
pub open spec fn flagged_delayed(t: Train) -> bool {
    t.delayed && t.run@.len() > 0
}

proof fn lemma_delayed_in_exact(trains: Seq<Train>)
    ensures
        forall|x: Seq<char>|
            delayed_in(trains).contains(x) <==> exists|i: int|
                0 <= i < trains.len() && (#[trigger] trains[i]).run@ == x && flagged_delayed(trains[i]),
    decreases trains.len(),
{
    if trains.len() > 0 {
        let init = trains.drop_last();
        let n = trains.len() - 1;
        lemma_delayed_in_exact(init);
        let rest = delayed_in(init);
        let d = delayed_in(trains);
        assert forall|x: Seq<char>|
            d.contains(x) <==> exists|i: int| 0 <= i < trains.len() && (#[trigger] trains[i]).run@ == x && flagged_delayed(trains[i]) by {
            if d.contains(x) {
                let k = choose|k: int| 0 <= k < d.len() && d[k] == x;
                if k < rest.len() {
                    assert(rest[k] == x);
                    assert(rest.contains(x));
                    let i = choose|i: int| 0 <= i < init.len() && (#[trigger] init[i]).run@ == x && flagged_delayed(init[i]);
                    assert(trains[i] == init[i]);
                } else {
                    assert(trains[n].run@ == x);
                }
            }
            if exists|i: int| 0 <= i < trains.len() && (#[trigger] trains[i]).run@ == x && flagged_delayed(trains[i]) {
                let i = choose|i: int| 0 <= i < trains.len() && (#[trigger] trains[i]).run@ == x && flagged_delayed(trains[i]);
                if i < n {
                    assert(init[i] == trains[i]);
                    assert(rest.contains(x));
                    let k = choose|k: int| 0 <= k < rest.len() && rest[k] == x;
                    assert(d[k] == x);
                } else {
                    assert(d[d.len() - 1] == x);
                }
            }
        }
    }
}

/// The runs the delay watcher counts as delayed are exactly the runs of the
/// trains, on any board, whose delayed flag is set and that have a run
/// number; an on-time train never counts, whatever its other flags.
pub proof fn law_delayed_runs_are_the_flagged_trains(boards: Seq<RouteBoard>)
    ensures
        forall|x: Seq<char>|
            delayed_runs(boards).contains(x) <==> exists|b: int, i: int|
                0 <= b < boards.len() && 0 <= i < boards[b].trains@.len() && (#[trigger] boards[b].trains@[i]).run@ == x
                    && flagged_delayed(boards[b].trains@[i]),
    decreases boards.len(),
{
    if boards.len() > 0 {
        let init = boards.drop_last();
        let n = boards.len() - 1;
        law_delayed_runs_are_the_flagged_trains(init);
        lemma_delayed_in_exact(boards[n].trains@);
        let rest = delayed_runs(init);
        let e = delayed_in(boards[n].trains@);
        let d = delayed_runs(boards);
        assert(d == rest + e);
        assert forall|x: Seq<char>|
            d.contains(x) <==> exists|b: int, i: int|
                0 <= b < boards.len() && 0 <= i < boards[b].trains@.len() && (#[trigger] boards[b].trains@[i]).run@ == x
                    && flagged_delayed(boards[b].trains@[i]) by {
            if d.contains(x) {
                let k = choose|k: int| 0 <= k < d.len() && d[k] == x;
                if k < rest.len() {
                    assert(rest[k] == x);
                    assert(rest.contains(x));
                    let (b, i) = choose|b: int, i: int|
                        0 <= b < init.len() && 0 <= i < init[b].trains@.len() && (#[trigger] init[b].trains@[i]).run@ == x
                            && flagged_delayed(init[b].trains@[i]);
                    assert(boards[b] == init[b]);
                    assert(boards[b].trains@[i].run@ == x);
                } else {
                    assert(e[k - rest.len()] == x);
                    assert(e.contains(x));
                    let i = choose|i: int|
                        0 <= i < boards[n].trains@.len() && (#[trigger] boards[n].trains@[i]).run@ == x && flagged_delayed(boards[n].trains@[i]);
                    assert(boards[n].trains@[i].run@ == x);
                }
            }
            if exists|b: int, i: int|
                0 <= b < boards.len() && 0 <= i < boards[b].trains@.len() && (#[trigger] boards[b].trains@[i]).run@ == x
                    && flagged_delayed(boards[b].trains@[i]) {
                let (b, i) = choose|b: int, i: int|
                    0 <= b < boards.len() && 0 <= i < boards[b].trains@.len() && (#[trigger] boards[b].trains@[i]).run@ == x
                        && flagged_delayed(boards[b].trains@[i]);
                if b < n {
                    assert(init[b] == boards[b]);
                    assert(init[b].trains@[i].run@ == x);
                    assert(rest.contains(x));
                    let k = choose|k: int| 0 <= k < rest.len() && rest[k] == x;
                    assert(d[k] == x);
                } else {
                    assert(boards[n].trains@[i].run@ == x);
                    assert(e.contains(x));
                    let k = choose|k: int| 0 <= k < e.len() && e[k] == x;
                    assert(d[rest.len() + k] == x);
                }
            }
        }
    }
}

/// A note names one train: its line's label, "#", its run, "→" and its destination.
pub open spec fn names_train(note: Seq<char>, label: Seq<char>, t: Train) -> bool {
    note == label + " #"@ + t.run@ + " → "@ + t.dest@
}

/// `note` names a train of `trains` whose delayed flag is set, that has a
/// run number, and whose run is not in `seen`.
pub open spec fn names_flagged_train(note: Seq<char>, label: Seq<char>, trains: Seq<Train>, seen: Seq<Seq<char>>) -> bool {
    exists|i: int|
        0 <= i < trains.len() && flagged_delayed(#[trigger] trains[i]) && !seen.contains(trains[i].run@)
            && names_train(note, label, trains[i])
}

/// `note` names a train of one of the boards whose delayed flag is set, that
/// has a run number, and whose run is not in `seen`.
pub open spec fn names_flagged_board_train(note: Seq<char>, boards: Seq<RouteBoard>, seen: Seq<Seq<char>>) -> bool {
    exists|b: int| 0 <= b < boards.len() && names_flagged_train(note, (#[trigger] boards[b]).label@, boards[b].trains@, seen)
}

proof fn lemma_notes_in_flagged(label: Seq<char>, trains: Seq<Train>, seen: Seq<Seq<char>>, before: Seq<Seq<char>>)
    ensures
        forall|j: int|
            0 <= j < notes_in(label, trains, seen, before).len() ==> names_flagged_train(
                #[trigger] notes_in(label, trains, seen, before)[j],
                label,
                trains,
                seen,
            ),
    decreases trains.len(),
{
    if trains.len() > 0 {
        let init = trains.drop_last();
        let n = trains.len() - 1;
        lemma_notes_in_flagged(label, init, seen, before);
        let rest = notes_in(label, init, seen, before);
        let all = notes_in(label, trains, seen, before);
        assert forall|j: int| 0 <= j < all.len() implies names_flagged_train(#[trigger] all[j], label, trains, seen) by {
            if j < rest.len() {
                assert(all[j] == rest[j]);
                assert(names_flagged_train(rest[j], label, init, seen));
                let i = choose|i: int|
                    0 <= i < init.len() && flagged_delayed(#[trigger] init[i]) && !seen.contains(init[i].run@)
                        && names_train(rest[j], label, init[i]);
                assert(trains[i] == init[i]);
                assert(flagged_delayed(trains[i]));
            } else {
                assert(all[j] == note_text(label, trains[n]));
                assert(flagged_delayed(trains[n]));
            }
        }
    }
}

/// Every delay note names a train whose delayed flag is set, that has a run
/// number, and whose run was not delayed on the last poll: "LABEL #RUN →
/// DEST" with the label of the train's line.
pub proof fn law_notes_name_delayed_trains(boards: Seq<RouteBoard>, seen: Seq<Seq<char>>)
    ensures
        forall|j: int|
            0 <= j < delay_notes(boards, seen).len() ==> names_flagged_board_train(
                #[trigger] delay_notes(boards, seen)[j],
                boards,
                seen,
            ),
    decreases boards.len(),
{
    if boards.len() > 0 {
        let init = boards.drop_last();
        let n = boards.len() - 1;
        law_notes_name_delayed_trains(init, seen);
        let rest = delay_notes(init, seen);
        let last = notes_in(boards[n].label@, boards[n].trains@, seen, delayed_runs(init));
        lemma_notes_in_flagged(boards[n].label@, boards[n].trains@, seen, delayed_runs(init));
        let all = delay_notes(boards, seen);
        assert(all == rest + last);
        assert forall|j: int| 0 <= j < all.len() implies names_flagged_board_train(#[trigger] all[j], boards, seen) by {
            if j < rest.len() {
                assert(all[j] == rest[j]);
                assert(names_flagged_board_train(rest[j], init, seen));
                let b = choose|b: int| 0 <= b < init.len() && names_flagged_train(rest[j], (#[trigger] init[b]).label@, init[b].trains@, seen);
                assert(boards[b] == init[b]);
            } else {
                assert(all[j] == last[j - rest.len()]);
                assert(names_flagged_train(last[j - rest.len()], boards[n].label@, boards[n].trains@, seen));
                assert(names_flagged_train(all[j], boards[n].label@, boards[n].trains@, seen));
            }
        }
    }
}

/// The first poll never rings, whatever is already near.
pub proof fn law_first_poll_silent(alerted: Seq<Seq<char>>, near: Seq<Seq<char>>)
    ensures
        !approach_fresh(false, alerted, near),
{
}

/// A train that stays near the home station does not ring again: a poll whose
/// near runs were all near on the previous poll is not a fresh approach.
pub proof fn law_still_near_no_repeat(before: Seq<Arrival>, after: Seq<Arrival>, alert_min: i64)
    requires
        forall|i: int| 0 <= i < near_runs(after, alert_min).len()
            ==> near_runs(before, alert_min).contains(#[trigger] near_runs(after, alert_min)[i]),
    ensures
        !approach_fresh(true, near_runs(before, alert_min), near_runs(after, alert_min)),
{
}

/// Past the first poll, a run that is near now and was not near before rings.
pub proof fn law_new_near_run_rings(alerted: Seq<Seq<char>>, near: Seq<Seq<char>>, i: int)
    requires
        0 <= i < near.len(),
        !alerted.contains(near[i]),
    ensures
        approach_fresh(true, alerted, near),
{
}

/// Some run is near after a poll and was not near on the poll before.
pub open spec fn new_near(before: Seq<Arrival>, after: Seq<Arrival>, alert_min: i64) -> bool {
    exists|k: int|
        0 <= k < near_runs(after, alert_min).len() && !near_runs(before, alert_min).contains(
            #[trigger] near_runs(after, alert_min)[k],
        )
}

/// `apps[i + 1]` is `apps[i]` after the approach watcher saw `polls[i]`, as
/// `App::apply` leaves it, with the threshold unchanged.
pub open spec fn watched(apps: Seq<App>, polls: Seq<Seq<Arrival>>) -> bool {
    &&& apps.len() == polls.len() + 1
    &&& forall|i: int|
        0 <= i < polls.len() ==> approach_effect(#[trigger] apps[i], apps[i + 1], polls[i])
            && apps[i + 1].alert_min == apps[i].alert_min
}

/// Whether poll `i` rang, as the watcher decides it.
pub open spec fn rang_at(apps: Seq<App>, polls: Seq<Seq<Arrival>>, i: int) -> bool {
    approach_fresh(apps[i].started, texts(apps[i].alerted@), near_runs(polls[i], apps[i].alert_min))
}

proof fn lemma_watched_prefix(apps: Seq<App>, polls: Seq<Seq<Arrival>>, n: int)
    requires
        watched(apps, polls),
        0 <= n <= polls.len(),
    ensures
        watched(apps.take(n + 1), polls.take(n)),
{
    let a = apps.take(n + 1);
    let p = polls.take(n);
    assert forall|i: int| 0 <= i < p.len() implies approach_effect(#[trigger] a[i], a[i + 1], p[i])
        && a[i + 1].alert_min == a[i].alert_min by {
        assert(a[i] == apps[i] && a[i + 1] == apps[i + 1] && p[i] == polls[i]);
    }
}

/// What the watcher holds after a run of polls: its threshold, whether it has
/// started, the runs near on the last poll, and a bell that is pending exactly
/// when it was pending at the start or some poll rang.
proof fn lemma_watch_run(apps: Seq<App>, polls: Seq<Seq<Arrival>>)
    requires
        watched(apps, polls),
    ensures
        apps.last().alert_min == apps[0].alert_min,
        apps[0].alert_min <= 0 ==> apps.last().pending_bell == apps[0].pending_bell && apps.last().started == apps[0].started,
        apps[0].alert_min > 0 ==> {
            &&& apps.last().started == (apps[0].started || polls.len() > 0)
            &&& polls.len() > 0 ==> texts(apps.last().alerted@) == near_runs(polls.last(), apps[0].alert_min)
            &&& apps.last().pending_bell == (apps[0].pending_bell || exists|i: int|
                0 <= i < polls.len() && #[trigger] rang_at(apps, polls, i))
        },
    decreases polls.len(),
{
    if polls.len() > 0 {
        let n = polls.len() - 1;
        let a = apps.take(n + 1);
        let p = polls.take(n);
        lemma_watched_prefix(apps, polls, n);
        lemma_watch_run(a, p);
        assert(a.last() == apps[n]);
        assert(a[0] == apps[0]);
        assert(approach_effect(apps[n], apps[n + 1], polls[n]));
        assert(apps.last() == apps[n + 1]);
        if apps[0].alert_min > 0 {
            assert forall|i: int| 0 <= i < p.len() implies #[trigger] rang_at(a, p, i) == rang_at(apps, polls, i) by {
                assert(a[i] == apps[i] && p[i] == polls[i]);
            }
            if apps.last().pending_bell && !apps[0].pending_bell {
                if !rang_at(apps, polls, n) {
                    let i = choose|i: int| 0 <= i < p.len() && #[trigger] rang_at(a, p, i);
                    assert(rang_at(apps, polls, i));
                }
            }
            if exists|i: int| 0 <= i < polls.len() && #[trigger] rang_at(apps, polls, i) {
                let i = choose|i: int| 0 <= i < polls.len() && #[trigger] rang_at(apps, polls, i);
                if i < n {
                    assert(rang_at(a, p, i));
                }
            }
        }
    }
}

/// The approach bell over a run of polls from a fresh board: it is pending
/// exactly when the threshold is on and some poll after the first brought a
/// run near that was not near on the poll before. So the first poll never
/// rings, a run that stays near rings once, and one that leaves the window
/// and comes back rings again.
pub proof fn law_bell_over_polls(apps: Seq<App>, polls: Seq<Seq<Arrival>>)
    requires
        watched(apps, polls),
        !apps[0].started,
        !apps[0].pending_bell,
    ensures
        apps.last().pending_bell == (apps[0].alert_min > 0 && exists|i: int|
            1 <= i < polls.len() && #[trigger] new_near(polls[i - 1], polls[i], apps[0].alert_min)),
{
    lemma_watch_run(apps, polls);
    let m = apps[0].alert_min;
    if m > 0 {
        assert forall|i: int| 0 <= i < polls.len() implies #[trigger] rang_at(apps, polls, i) == (i >= 1 && new_near(
            polls[i - 1],
            polls[i],
            m,
        )) by {
            let a = apps.take(i + 1);
            let p = polls.take(i);
            lemma_watched_prefix(apps, polls, i);
            lemma_watch_run(a, p);
            assert(a.last() == apps[i] && a[0] == apps[0]);
            if i >= 1 {
                assert(p.last() == polls[i - 1]);
            }
        }
        if apps.last().pending_bell {
            let i = choose|i: int| 0 <= i < polls.len() && #[trigger] rang_at(apps, polls, i);
            assert(new_near(polls[i - 1], polls[i], m));
        }
        if exists|i: int| 1 <= i < polls.len() && #[trigger] new_near(polls[i - 1], polls[i], m) {
            let i = choose|i: int| 1 <= i < polls.len() && #[trigger] new_near(polls[i - 1], polls[i], m);
            assert(rang_at(apps, polls, i));
        }
    }
}

/// The approach bell after it was taken following poll `p0`: over the polls
/// that follow, it is pending again exactly when the threshold is on and
/// some poll brought a run near that was not near on the poll before it.
pub proof fn law_bell_after_take(apps: Seq<App>, p0: Seq<Arrival>, polls: Seq<Seq<Arrival>>)
    requires
        watched(apps, polls),
        apps[0].started,
        !apps[0].pending_bell,
        texts(apps[0].alerted@) == near_runs(p0, apps[0].alert_min),
    ensures
        apps.last().pending_bell == (apps[0].alert_min > 0 && exists|i: int|
            1 <= i < polls.len() + 1 && #[trigger] new_near(
                (seq![p0] + polls)[i - 1],
                (seq![p0] + polls)[i],
                apps[0].alert_min,
            )),
{
    lemma_watch_run(apps, polls);
    let m = apps[0].alert_min;
    let all = seq![p0] + polls;
    if m > 0 {
        assert forall|i: int| 0 <= i < polls.len() implies #[trigger] rang_at(apps, polls, i) == new_near(
            all[i],
            all[i + 1],
            m,
        ) by {
            let a = apps.take(i + 1);
            let p = polls.take(i);
            lemma_watched_prefix(apps, polls, i);
            lemma_watch_run(a, p);
            assert(a.last() == apps[i] && a[0] == apps[0]);
            assert(all[i + 1] == polls[i]);
            if i >= 1 {
                assert(p.last() == polls[i - 1]);
                assert(all[i] == polls[i - 1]);
            } else {
                assert(all[0] == p0);
            }
        }
        if apps.last().pending_bell {
            let i = choose|i: int| 0 <= i < polls.len() && #[trigger] rang_at(apps, polls, i);
            assert(new_near(all[(i + 1) - 1], all[i + 1], m));
        }
        if exists|i: int| 1 <= i < polls.len() + 1 && #[trigger] new_near(all[i - 1], all[i], m) {
            let i = choose|i: int| 1 <= i < polls.len() + 1 && #[trigger] new_near(all[i - 1], all[i], m);
            assert(rang_at(apps, polls, i - 1));
        }
    }
}

/// With notifications off, a step leaves them off and queues no note: the
/// notes waiting are kept as they were, or taken.
pub open spec fn notes_quiet_step(a: App, b: App) -> bool {
    !a.notify_enabled ==> !b.notify_enabled && (b.pending_notes == a.pending_notes || b.pending_notes@.len() == 0)
}

/// With desktop notifications off, no note ever waits: from a board with
/// none waiting, every state a run of `App` calls passes through (each call
/// ensures `notes_quiet_step`) has none waiting, and `take_notes` gives none.
pub proof fn law_no_notes_when_off(apps: Seq<App>)
    requires
        apps.len() > 0,
        !apps[0].notify_enabled,
        apps[0].pending_notes@.len() == 0,
        forall|i: int| 0 <= i < apps.len() - 1 ==> notes_quiet_step(#[trigger] apps[i], apps[i + 1]),
    ensures
        forall|i: int| 0 <= i < apps.len() ==> !(#[trigger] apps[i]).notify_enabled && apps[i].pending_notes@.len() == 0,
    decreases apps.len(),
{
    if apps.len() > 1 {
        let init = apps.drop_last();
        assert forall|i: int| 0 <= i < init.len() - 1 implies notes_quiet_step(#[trigger] init[i], init[i + 1]) by {
            assert(init[i] == apps[i] && init[i + 1] == apps[i + 1]);
        }
        law_no_notes_when_off(init);
        let n = apps.len() - 1;
        assert(init[n - 1] == apps[n - 1]);
        assert(notes_quiet_step(apps[n - 1], apps[n]));
        assert forall|i: int| 0 <= i < apps.len() implies !(#[trigger] apps[i]).notify_enabled && apps[i].pending_notes@.len() == 0 by {
            if i < n {
                assert(init[i] == apps[i]);
            }
        }
    }
}

proof fn lemma_notes_in_seen(label: Seq<char>, trains: Seq<Train>, seen: Seq<Seq<char>>, before: Seq<Seq<char>>)
    requires
        forall|i: int| 0 <= i < delayed_in(trains).len() ==> seen.contains(#[trigger] delayed_in(trains)[i]),
    ensures
        notes_in(label, trains, seen, before).len() == 0,
    decreases trains.len(),
{
    if trains.len() > 0 {
        let init = trains.drop_last();
        let d = delayed_in(init);
        assert forall|i: int| 0 <= i < d.len() implies seen.contains(#[trigger] d[i]) by {
            assert(delayed_in(trains)[i] == d[i]);
        }
        lemma_notes_in_seen(label, init, seen, before);
        if is_delayed(trains.last()) {
            assert(delayed_in(trains)[d.len() as int] == trains.last().run@);
        }
    }
}

proof fn lemma_delay_notes_seen(boards: Seq<RouteBoard>, seen: Seq<Seq<char>>)
    requires
        forall|i: int| 0 <= i < delayed_runs(boards).len() ==> seen.contains(#[trigger] delayed_runs(boards)[i]),
    ensures
        delay_notes(boards, seen).len() == 0,
    decreases boards.len(),
{
    if boards.len() > 0 {
        let init = boards.drop_last();
        let d = delayed_runs(init);
        let e = delayed_in(boards.last().trains@);
        assert(delayed_runs(boards) == d + e);
        assert forall|i: int| 0 <= i < d.len() implies seen.contains(#[trigger] d[i]) by {
            assert(delayed_runs(boards)[i] == d[i]);
        }
        assert forall|i: int| 0 <= i < e.len() implies seen.contains(#[trigger] e[i]) by {
            assert(delayed_runs(boards)[d.len() + i] == e[i]);
        }
        lemma_delay_notes_seen(init, seen);
        lemma_notes_in_seen(boards.last().label@, boards.last().trains@, seen, d);
    }
}

/// One delay episode per run: a train that was already delayed on the last
/// poll gets no new note while it stays delayed, so polling the same boards
/// twice notes nothing the second time.
pub proof fn law_same_delays_no_new_notes(boards: Seq<RouteBoard>)
    ensures
        delay_notes(boards, delayed_runs(boards)).len() == 0,
{
    let d = delayed_runs(boards);
    assert forall|i: int| 0 <= i < d.len() implies d.contains(#[trigger] d[i]) by {}
    lemma_delay_notes_seen(boards, d);
}

/// The best-ranked result scores at least as high as every other match.
pub proof fn law_best_match_first(st: Seq<StationRef>, q: Seq<char>, m: Seq<usize>, j: usize)
    requires
        ranked(st, q, m),
        m.len() > 0,
        j < st.len(),
        station_score(st, q, j as int) is Some,
    ensures
        station_score(st, q, m[0] as int)->0 >= station_score(st, q, j as int)->0,
{
    let ji: int = j as int;
    assert(m.contains(ji as usize));
    let k = choose|k: int| 0 <= k < m.len() && m[k] == j;
    if k > 0 {
        assert(ranks_before(st, q, m[0] as int, m[k] as int));
    }
}

proof fn lemma_ranks_asym(st: Seq<StationRef>, q: Seq<char>, a: int, b: int)
    ensures
        !(ranks_before(st, q, a, b) && ranks_before(st, q, b, a)),
        !ranks_before(st, q, a, a),
{
    lemma_text_lt_strict(st[a].name@, st[b].name@);
    lemma_text_lt_strict(st[b].name@, st[a].name@);
}

/// Two lists, each strictly ordered by rank and holding the same stations,
/// are the same list.
proof fn lemma_sorted_same(st: Seq<StationRef>, q: Seq<char>, m1: Seq<usize>, m2: Seq<usize>)
    requires
        forall|i: int, k: int| 0 <= i < k < m1.len() ==> ranks_before(st, q, #[trigger] m1[i] as int, #[trigger] m1[k] as int),
        forall|i: int, k: int| 0 <= i < k < m2.len() ==> ranks_before(st, q, #[trigger] m2[i] as int, #[trigger] m2[k] as int),
        forall|x: usize| m1.contains(x) <==> m2.contains(x),
    ensures
        m1 == m2,
    decreases m1.len(),
{
    if m1.len() == 0 {
        if m2.len() > 0 {
            assert(m2.contains(m2[0]));
        }
        assert(m1 =~= m2);
    } else {
        let x = m1[0];
        assert(m1.contains(x));
        let p = choose|p: int| 0 <= p < m2.len() && m2[p] == x;
        let y = m2[0];
        if y != x {
            assert(m2.contains(y));
            let j = choose|j: int| 0 <= j < m1.len() && m1[j] == y;
            assert(ranks_before(st, q, m1[0] as int, m1[j] as int));
            assert(ranks_before(st, q, m2[0] as int, m2[p] as int));
            lemma_ranks_asym(st, q, x as int, y as int);
        }
        let t1 = m1.drop_first();
        let t2 = m2.drop_first();
        assert forall|z: usize| t1.contains(z) <==> t2.contains(z) by {
            if t1.contains(z) {
                let i = choose|i: int| 0 <= i < t1.len() && t1[i] == z;
                assert(m1[i + 1] == z);
                assert(ranks_before(st, q, m1[0] as int, m1[i + 1] as int));
                lemma_ranks_asym(st, q, z as int, z as int);
                assert(m1.contains(z));
                let k = choose|k: int| 0 <= k < m2.len() && m2[k] == z;
                assert(k != 0);
                assert(t2[k - 1] == z);
            }
            if t2.contains(z) {
                let i = choose|i: int| 0 <= i < t2.len() && t2[i] == z;
                assert(m2[i + 1] == z);
                assert(ranks_before(st, q, m2[0] as int, m2[i + 1] as int));
                lemma_ranks_asym(st, q, z as int, z as int);
                assert(m2.contains(z));
                let k = choose|k: int| 0 <= k < m1.len() && m1[k] == z;
                assert(k != 0);
                assert(t1[k - 1] == z);
            }
        }
        assert forall|i: int, k: int| 0 <= i < k < t1.len() implies ranks_before(st, q, #[trigger] t1[i] as int, #[trigger] t1[k] as int) by {
            assert(t1[i] == m1[i + 1] && t1[k] == m1[k + 1]);
        }
        assert forall|i: int, k: int| 0 <= i < k < t2.len() implies ranks_before(st, q, #[trigger] t2[i] as int, #[trigger] t2[k] as int) by {
            assert(t2[i] == m2[i + 1] && t2[k] == m2[k + 1]);
        }
        lemma_sorted_same(st, q, t1, t2);
        assert(m1 =~= seq![x] + t1);
        assert(m2 =~= seq![y] + t2);
    }
}

/// The search results are determined by the station index and the query:
/// any two rankings of one query are the same list.
pub proof fn law_ranking_is_unique(st: Seq<StationRef>, q: Seq<char>, m1: Seq<usize>, m2: Seq<usize>)
    requires
        ranked(st, q, m1),
        ranked(st, q, m2),
    ensures
        m1 == m2,
{
    assert forall|x: usize| m1.contains(x) <==> m2.contains(x) by {
        if m1.contains(x) {
            let i = choose|i: int| 0 <= i < m1.len() && m1[i] == x;
            assert(station_score(st, q, m1[i] as int) is Some);
            assert(m2.contains(x as int as usize));
        }
        if m2.contains(x) {
            let i = choose|i: int| 0 <= i < m2.len() && m2[i] == x;
            assert(station_score(st, q, m2[i] as int) is Some);
            assert(m1.contains(x as int as usize));
        }
    }
    lemma_sorted_same(st, q, m1, m2);
}

/// Typing a character into the search and erasing it again gives back the
/// query and the results one had.
pub proof fn law_type_then_erase(st: Seq<StationRef>, q: Seq<char>, c: char, before: Seq<usize>, after: Seq<usize>)
    requires
        ranked(st, trim(q), before),
        ranked(st, trim(q.push(c).drop_last()), after),
    ensures
        q.push(c).drop_last() == q,
        after == before,
{
    assert(q.push(c).drop_last() =~= q);
    law_ranking_is_unique(st, trim(q), before, after);
}

} // verus!
