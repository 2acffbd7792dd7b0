//! Decisions behind the console's panels: the blink and radar sweep, the
//! banner state, how trains and stations are marked, the row buffer in which
//! the strip map's markers are placed by column, and the texts of the rows of
//! the line board, the arrivals ticker and the system board.

use vstd::prelude::*;
use vstd::string::StringExecFns;
use crate::display::{
    decimal, decimal_text, eta_label, fmt_eta, heading_arrow, heading_glyph, left_aligned, pad_left, pad_right, right_aligned, trunc, truncated,
};
use crate::lines::{normalized, short_label, short_line};
use crate::model::{Arrival, RouteStatus, Train};
use crate::text::{chars_of, lowercase, push_char, string_of, to_lower, to_upper, uppercase};

verus! {

/// Whether blinking things are lit on this animation frame (~0.5 s on/off at 4 fps).
pub fn blink_on(frame: u64) -> (on: bool)
    ensures
        on == ((frame / 2) % 2 == 0),
{
    (frame / 2) % 2 == 0
}

/// The radar dish glyph of the header sweep on this frame.
pub fn sweep_glyph(frame: u64) -> (c: char)
    ensures
        c == (if (frame / 2) % 4 == 0 { '◜' } else if (frame / 2) % 4 == 1 { '◝' } else if (frame / 2) % 4 == 2 { '◞' } else { '◟' }),
{
    let i = (frame / 2) % 4;
    if i == 0 { '◜' } else if i == 1 { '◝' } else if i == 2 { '◞' } else { '◟' }
}

/// The state the banner announces.
#[derive(Clone, Copy, PartialEq, Eq, Structural, Debug)]
pub enum Scan {
    /// Waiting for the first poll; blinks.
    Acquiring,
    /// The last poll reported an error; blinks.
    LinkFault,
    Tracking,
}

/// What the banner says: loading first, then a fault, else tracking.
pub fn scan_state(loading: bool, has_error: bool) -> (s: Scan)
    ensures
        s == (if loading { Scan::Acquiring } else if has_error { Scan::LinkFault } else { Scan::Tracking }),
{
    if loading { Scan::Acquiring } else if has_error { Scan::LinkFault } else { Scan::Tracking }
}

/// How a train's status flag is shown.
#[derive(Clone, Copy, PartialEq, Eq, Structural, Debug)]
pub enum Flag {
    /// "DLY", amber while lit, dim otherwise.
    Delayed,
    /// "APP", bright.
    Approaching,
    /// No flag.
    Plain,
}

/// The flag of a train: a delayed train is flagged before an approaching one.
pub open spec fn flag_of(delayed: bool, approaching: bool) -> Flag {
    if delayed { Flag::Delayed } else if approaching { Flag::Approaching } else { Flag::Plain }
}

/// The three-letter tag of a flag.
pub open spec fn tag_text(f: Flag) -> Seq<char> {
    match f {
        Flag::Delayed => "DLY"@,
        Flag::Approaching => "APP"@,
        Flag::Plain => ""@,
    }
}

/// Flag a train.
pub fn train_flag(delayed: bool, approaching: bool) -> (f: Flag)
    ensures
        f == flag_of(delayed, approaching),
{
    if delayed { Flag::Delayed } else if approaching { Flag::Approaching } else { Flag::Plain }
}

/// The tag a flag shows.
pub fn flag_tag(f: Flag) -> (t: &'static str)
    ensures
        t@ == tag_text(f),
{
    match f {
        Flag::Delayed => "DLY",
        Flag::Approaching => "APP",
        Flag::Plain => "",
    }
}

/// Whether `needle` occurs in `hay` as a contiguous run.
pub open spec fn contains_text(hay: Seq<char>, needle: Seq<char>) -> bool {
    exists|i: int| 0 <= i && i + needle.len() <= hay.len() && #[trigger] hay.subrange(i, i + needle.len()) == needle
}

/// Whether `needle` occurs in `hay` starting at `i`.
fn occurs_at(hay: &Vec<char>, needle: &Vec<char>, i: usize) -> (r: bool)
    requires
        i + needle@.len() <= hay@.len(),
    ensures
        r == (hay@.subrange(i as int, i + needle@.len()) == needle@),
{
    let hl = hay.len();
    let mut k: usize = 0;
    while k < needle.len()
        invariant
            hl == hay@.len(),
            i + needle@.len() <= hay@.len(),
            k <= needle@.len(),
            forall|q: int| 0 <= q < k ==> hay@[i + q] == needle@[q],
        decreases needle@.len() - k,
    {
        if hay[i + k] != needle[k] {
            assert(hay@.subrange(i as int, i + needle@.len())[k as int] != needle@[k as int]);
            return false;
        }
        k = k + 1;
    }
    assert(hay@.subrange(i as int, i + needle@.len()) =~= needle@);
    true
}

/// Whether `needle` occurs in `hay`.
pub fn contains_chars(hay: &Vec<char>, needle: &Vec<char>) -> (r: bool)
    ensures
        r == contains_text(hay@, needle@),
{
    if needle.len() > hay.len() {
        return false;
    }
    let last = hay.len() - needle.len();
    let mut i: usize = 0;
    while i < last
        invariant
            i <= last,
            last + needle@.len() == hay@.len(),
            forall|q: int| 0 <= q < i ==> #[trigger] hay@.subrange(q, q + needle@.len()) != needle@,
        decreases last - i,
    {
        if occurs_at(hay, needle, i) {
            return true;
        }
        i = i + 1;
    }
    if occurs_at(hay, needle, last) {
        return true;
    }
    proof {
        assert forall|q: int| 0 <= q && q + needle@.len() <= hay@.len() implies #[trigger] hay@.subrange(q, q + needle@.len()) != needle@ by {
        }
    }
    false
}

/// Whether a status text reads as normal service (case-insensitively).
pub fn status_is_normal(status: &str) -> (r: bool)
    ensures
        r == contains_text(lowercase(status@), "normal"@),
{
    let low = to_lower(status);
    let hay = chars_of(low.as_str());
    let needle = chars_of("normal");
    contains_chars(&hay, &needle)
}

/// Whether a station is the home station: its name (lowercased) is the home
/// label (lowercased) or contains it; never for an empty label.
pub open spec fn is_home_spec(name: Seq<char>, home: Seq<char>) -> bool {
    let h = lowercase(home);
    let n = lowercase(name);
    h.len() > 0 && (n == h || contains_text(n, h))
}

/// Whether a station is the home station.
pub fn is_home_station(name: &str, home_label: &str) -> (r: bool)
    ensures
        r == is_home_spec(name@, home_label@),
{
    let h_s = to_lower(home_label);
    let h = chars_of(h_s.as_str());
    if h.len() == 0 {
        return false;
    }
    let n_s = to_lower(name);
    let n = chars_of(n_s.as_str());
    crate::text::chars_eq(&n, &h) || contains_chars(&n, &h)
}

/// The look of one strip-map cell.
#[derive(Clone, Copy, PartialEq, Eq, Structural, Debug)]
pub enum Tone {
    /// Empty space.
    Blank,
    /// The rail itself and the terminus labels.
    Dim,
    /// An ordinary station tick, in the line's color.
    Station,
    /// A terminus, in the line's color, bold.
    Terminus,
    /// The home station: amber, bold.
    Home,
    /// An ordinary train, in the line's color, bold.
    Train,
    /// An approaching train: bright, bold.
    Approaching,
    /// A delayed train: amber, bold.
    Delayed,
}

/// How a station tick looks, and how much it outranks others on its column:
/// the home star over a terminus diamond over a plain tick.
pub fn station_mark(home: bool, terminus: bool) -> (m: (char, Tone, u8))
    ensures
        m == (if home { ('★', Tone::Home, 3u8) } else if terminus { ('◆', Tone::Terminus, 2u8) } else { ('┿', Tone::Station, 1u8) }),
{
    if home {
        ('★', Tone::Home, 3)
    } else if terminus {
        ('◆', Tone::Terminus, 2)
    } else {
        ('┿', Tone::Station, 1)
    }
}

/// How a train marker looks and ranks: delayed trains over approaching ones
/// over the rest; a delayed train is left out while the blink is dark.
pub fn train_mark(delayed: bool, approaching: bool, blink_on: bool) -> (m: Option<(Tone, u8)>)
    ensures
        m == (if delayed {
            if blink_on { Some((Tone::Delayed, 3u8)) } else { None }
        } else if approaching {
            Some((Tone::Approaching, 2u8))
        } else {
            Some((Tone::Train, 1u8))
        }),
{
    if delayed {
        if blink_on { Some((Tone::Delayed, 3)) } else { None }
    } else if approaching {
        Some((Tone::Approaching, 2))
    } else {
        Some((Tone::Train, 1))
    }
}

/// Whether a train runs on the upper rail: trip direction "1".
pub fn on_upper_rail(dir: &Option<String>) -> (up: bool)
    ensures
        up == (dir matches Some(d) && d@ == "1"@),
{
    match dir {
        Some(d) => {
            let c = chars_of(d.as_str());
            crate::text::is_word(&c, "1")
        },
        None => false,
    }
}

/// A fixed-width row of cells. Markers are placed by column, then runs of
/// cells with the same tone are joined into spans for drawing.
pub struct RowBuf {
    pub ch: Vec<char>,
    pub st: Vec<Tone>,
    pub prio: Vec<u8>,
}

/// The characters of spans, in order.
pub open spec fn span_text(spans: Seq<(String, Tone)>) -> Seq<char>
    decreases spans.len(),
{
    if spans.len() == 0 {
        seq![]
    } else {
        span_text(spans.drop_last()) + spans.last().0@
    }
}

/// The tone of each character of spans, in order.
pub open spec fn span_tones(spans: Seq<(String, Tone)>) -> Seq<Tone>
    decreases spans.len(),
{
    if spans.len() == 0 {
        seq![]
    } else {
        span_tones(spans.drop_last()) + Seq::new(spans.last().0@.len(), |i: int| spans.last().1)
    }
}

/// Spans are maximal: none is empty and neighbours differ in tone.
pub open spec fn spans_maximal(spans: Seq<(String, Tone)>) -> bool {
    &&& forall|i: int| 0 <= i < spans.len() ==> (#[trigger] spans[i]).0@.len() > 0
    &&& forall|i: int| 0 < i < spans.len() ==> (#[trigger] spans[i]).1 != spans[i - 1].1
}

/// A cell, as (glyph, rank), after a marker is placed on it with
/// `RowBuf::put_prio`: the marker wins when it ranks at least as high.
pub open spec fn placed(cell: (char, u8), mark: (char, u8)) -> (char, u8) {
    if mark.1 >= cell.1 {
        mark
    } else {
        cell
    }
}

/// A cell after markers are placed on it one after another.
pub open spec fn placed_all(cell: (char, u8), marks: Seq<(char, u8)>) -> (char, u8)
    decreases marks.len(),
{
    if marks.len() == 0 {
        cell
    } else {
        placed(placed_all(cell, marks.drop_last()), marks.last())
    }
}

/// However many markers crowd onto one column, and in whatever order, the
/// cell never loses rank and shows the highest-ranked of them, the last one
/// placed among equals (or what it showed before, if that ranks higher).
pub proof fn law_highest_rank_shows(cell: (char, u8), marks: Seq<(char, u8)>)
    ensures
        placed_all(cell, marks).1 >= cell.1,
        forall|i: int| 0 <= i < marks.len() ==> placed_all(cell, marks).1 >= (#[trigger] marks[i]).1,
        placed_all(cell, marks) == cell || exists|i: int|
            0 <= i < marks.len() && placed_all(cell, marks) == marks[i] && forall|j: int|
                i < j < marks.len() ==> (#[trigger] marks[j]).1 < marks[i].1,
    decreases marks.len(),
{
    if marks.len() > 0 {
        let init = marks.drop_last();
        law_highest_rank_shows(cell, init);
        let before = placed_all(cell, init);
        let last = marks.last();
        assert forall|i: int| 0 <= i < marks.len() implies placed_all(cell, marks).1 >= (#[trigger] marks[i]).1 by {
            if i < init.len() {
                assert(marks[i] == init[i]);
            }
        }
        if last.1 >= before.1 {
            assert(placed_all(cell, marks) == marks[marks.len() - 1]);
        } else if before != cell {
            let i = choose|i: int|
                0 <= i < init.len() && before == init[i] && forall|j: int| i < j < init.len() ==> (#[trigger] init[j]).1 < init[i].1;
            assert(marks[i] == init[i]);
            assert forall|j: int| i < j < marks.len() implies (#[trigger] marks[j]).1 < marks[i].1 by {
                if j < init.len() {
                    assert(marks[j] == init[j]);
                }
            }
        }
    }
}

impl RowBuf {
    /// All three columns agree in width.
    pub open spec fn wf(self) -> bool {
        self.ch@.len() == self.st@.len() && self.st@.len() == self.prio@.len()
    }

    /// A row of `w` cells, all `fill` in `style`, ranked 0.
    pub fn new(w: usize, fill: char, style: Tone) -> (r: RowBuf)
        ensures
            r.wf(),
            r.ch@ == Seq::new(w as nat, |i: int| fill),
            r.st@ == Seq::new(w as nat, |i: int| style),
            r.prio@ == Seq::new(w as nat, |i: int| 0u8),
    {
        let mut ch: Vec<char> = Vec::new();
        let mut st: Vec<Tone> = Vec::new();
        let mut prio: Vec<u8> = Vec::new();
        let mut i: usize = 0;
        while i < w
            invariant
                i <= w,
                ch@ == Seq::new(i as nat, |k: int| fill),
                st@ == Seq::new(i as nat, |k: int| style),
                prio@ == Seq::new(i as nat, |k: int| 0u8),
            decreases w - i,
        {
            ch.push(fill);
            st.push(style);
            prio.push(0);
            i = i + 1;
            assert(ch@ =~= Seq::new(i as nat, |k: int| fill));
            assert(st@ =~= Seq::new(i as nat, |k: int| style));
            assert(prio@ =~= Seq::new(i as nat, |k: int| 0u8));
        }
        RowBuf { ch, st, prio }
    }

    /// Set a cell, if the column exists, keeping its rank.
    pub fn put(&mut self, x: usize, c: char, style: Tone)
        requires
            old(self).wf(),
        ensures
            final(self).wf(),
            x < old(self).ch@.len() ==> final(self).ch@ == old(self).ch@.update(x as int, c)
                && final(self).st@ == old(self).st@.update(x as int, style),
            x >= old(self).ch@.len() ==> final(self).ch@ == old(self).ch@ && final(self).st@ == old(self).st@,
            final(self).prio@ == old(self).prio@,
    {
        if x < self.ch.len() {
            self.ch.set(x, c);
            self.st.set(x, style);
        }
    }

    /// Place a cell only if it ranks at least as high as what is already
    /// there (keeps delayed and approaching trains visible when several
    /// project onto the same column).
    pub fn put_prio(&mut self, x: usize, c: char, style: Tone, prio: u8)
        requires
            old(self).wf(),
        ensures
            final(self).wf(),
            x < old(self).ch@.len() ==> (final(self).ch@[x as int], final(self).prio@[x as int]) == placed(
                (old(self).ch@[x as int], old(self).prio@[x as int]),
                (c, prio),
            ),
            if x < old(self).ch@.len() && prio >= old(self).prio@[x as int] {
                &&& final(self).ch@ == old(self).ch@.update(x as int, c)
                &&& final(self).st@ == old(self).st@.update(x as int, style)
                &&& final(self).prio@ == old(self).prio@.update(x as int, prio)
            } else {
                *final(self) == *old(self)
            },
    {
        if x < self.ch.len() && prio >= self.prio[x] {
            self.ch.set(x, c);
            self.st.set(x, style);
            self.prio.set(x, prio);
        }
    }

    /// Write a text from column `x0` on; what falls past the row is dropped.
    pub fn write_str(&mut self, x0: usize, s: &str, style: Tone)
        requires
            old(self).wf(),
            s@.len() == 0 || x0 + s@.len() - 1 <= usize::MAX,
        ensures
            final(self).wf(),
            final(self).prio@ == old(self).prio@,
            final(self).ch@.len() == old(self).ch@.len(),
            forall|k: int|
                0 <= k < old(self).ch@.len() ==> {
                    if x0 <= k < x0 + s@.len() {
                        final(self).ch@[k] == s@[k - x0] && final(self).st@[k] == style
                    } else {
                        final(self).ch@[k] == old(self).ch@[k] && final(self).st@[k] == old(self).st@[k]
                    }
                },
    {
        let c = chars_of(s);
        let mut i: usize = 0;
        while i < c.len()
            invariant
                self.wf(),
                c@ == s@,
                i <= c@.len(),
                c@.len() == 0 || x0 + c@.len() - 1 <= usize::MAX,
                self.prio@ == old(self).prio@,
                self.ch@.len() == old(self).ch@.len(),
                forall|k: int|
                    0 <= k < old(self).ch@.len() ==> {
                        if x0 <= k < x0 + i {
                            self.ch@[k] == s@[k - x0] && self.st@[k] == style
                        } else {
                            self.ch@[k] == old(self).ch@[k] && self.st@[k] == old(self).st@[k]
                        }
                    },
            decreases c@.len() - i,
        {
            self.put(x0 + i, c[i], style);
            i = i + 1;
        }
    }

    /// The row as spans: maximal runs of cells with one tone.
    pub fn into_line(self) -> (spans: Vec<(String, Tone)>)
        requires
            self.wf(),
        ensures
            span_text(spans@) == self.ch@,
            span_tones(spans@) == self.st@,
            spans_maximal(spans@),
    {
        let mut spans: Vec<(String, Tone)> = Vec::new();
        let len = self.ch.len();
        let mut i: usize = 0;
        while i < len
            invariant
                self.wf(),
                len == self.ch@.len(),
                i <= len,
                span_text(spans@) == self.ch@.take(i as int),
                span_tones(spans@) == self.st@.take(i as int),
                spans_maximal(spans@),
                spans@.len() > 0 ==> i > 0 && spans@.last().1 == self.st@[i - 1],
                i < len && spans@.len() > 0 ==> spans@.last().1 != self.st@[i as int],
            decreases len - i,
        {
            let style = self.st[i];
            let start = i;
            let mut buf: Vec<char> = Vec::new();
            while i < len && self.st[i] == style
                invariant
                    self.wf(),
                    len == self.ch@.len(),
                    start <= i <= len,
                    buf@ == self.ch@.subrange(start as int, i as int),
                    forall|k: int| start <= k < i ==> self.st@[k] == style,
                decreases len - i,
            {
                buf.push(self.ch[i]);
                i = i + 1;
            }
            assert(i > start);
            let text = string_of(&buf);
            let ghost before = spans@;
            spans.push((text, style));
            proof {
                assert(spans@.drop_last() =~= before);
                assert(self.ch@.take(i as int) =~= self.ch@.take(start as int) + self.ch@.subrange(start as int, i as int));
                assert(self.st@.take(i as int) =~= self.st@.take(start as int) + Seq::new((i - start) as nat, |k: int| style));
                assert(span_text(spans@) == span_text(before) + text@);
                assert(span_tones(spans@) == span_tones(before) + Seq::new(text@.len(), |k: int| style));
                assert forall|q: int| 0 < q < spans@.len() implies (#[trigger] spans@[q]).1 != spans@[q - 1].1 by {
                    if q < spans@.len() - 1 {
                        assert(spans@[q] == before[q]);
                        assert(spans@[q - 1] == before[q - 1]);
                    }
                }
                assert forall|q: int| 0 <= q < spans@.len() implies (#[trigger] spans@[q]).0@.len() > 0 by {
                    if q < spans@.len() - 1 {
                        assert(spans@[q] == before[q]);
                    }
                }
            }
        }
        assert(self.ch@.take(len as int) =~= self.ch@);
        assert(self.st@.take(len as int) =~= self.st@);
        spans
    }
}

/// The label row under the rail, `w` cells wide: the first terminus's name
/// from the left edge and the last one's flush right, each cut to a little
/// under half the width so they never meet.
pub open spec fn label_row(w: nat, first: Seq<char>, last: Seq<char>) -> Seq<char> {
    let half = (w / 2 - 1) as nat;
    let a = truncated(first, half);
    let b = truncated(last, half);
    let start = w - b.len();
    Seq::new(w, |k: int| if start <= k { b[k - start] } else if k < a.len() { a[k] } else { ' ' })
}

/// The terminus labels under the strip map.
pub fn terminus_labels(w: usize, first: &str, last: &str) -> (r: RowBuf)
    requires
        w >= 2,
    ensures
        r.wf(),
        r.ch@ == label_row(w as nat, first@, last@),
        r.st@ == Seq::new(w as nat, |i: int| Tone::Dim),
        r.prio@ == Seq::new(w as nat, |i: int| 0u8),
{
    let half = w / 2 - 1;
    let mut lab = RowBuf::new(w, ' ', Tone::Dim);
    let a = trunc(first, half);
    lab.write_str(0, a.as_str(), Tone::Dim);
    let b = trunc(last, half);
    let bl = chars_of(b.as_str()).len();
    let start = w - bl;
    let ghost mid = lab.ch@;
    lab.write_str(start, b.as_str(), Tone::Dim);
    proof {
        let spec_row = label_row(w as nat, first@, last@);
        assert forall|k: int| 0 <= k < w implies lab.ch@[k] == spec_row[k] by {
            if start <= k {
            } else {
                assert(lab.ch@[k] == mid[k]);
            }
        }
        assert(lab.ch@ =~= spec_row);
        assert forall|k: int| 0 <= k < w implies lab.st@[k] == Tone::Dim by {}
        assert(lab.st@ =~= Seq::new(w as nat, |i: int| Tone::Dim));
    }
    lab
}

/// The texts of one train's row on the line board, cell by cell.
pub struct TrainRow {
    /// The heading arrow.
    pub arrow: String,
    /// The run number.
    pub run: String,
    /// The ETA label, right-aligned.
    pub eta: String,
    /// The DLY/APP tag.
    pub tag: String,
    /// The next station.
    pub next: String,
    /// The destination.
    pub dest: String,
}

/// Lay out one train's row.
pub fn train_row(t: &Train) -> (r: TrainRow)
    ensures
        r.arrow@ == seq![' ', heading_glyph(t.heading), ' '],
        r.run@ == "#"@ + left_aligned(t.run@, 4) + " "@,
        r.eta@ == right_aligned(eta_label(t.eta_min), 4) + " "@,
        r.tag@ == left_aligned(tag_text(flag_of(t.delayed, t.approaching)), 4),
        r.next@ == "→ "@ + left_aligned(truncated(t.next_station@, 16), 16),
        r.dest@ == " ▸ "@ + left_aligned(truncated(t.dest@, 12), 12),
{
    let mut arrow = String::new();
    push_char(&mut arrow, ' ');
    push_char(&mut arrow, heading_arrow(t.heading));
    push_char(&mut arrow, ' ');
    assert(arrow@ =~= seq![' ', heading_glyph(t.heading), ' ']);

    let mut run = "#".to_owned();
    let run_cell = pad_right(t.run.as_str(), 4);
    run.append(run_cell.as_str());
    run.append(" ");

    let eta_text = fmt_eta(t.eta_min);
    let mut eta = pad_left(eta_text.as_str(), 4);
    eta.append(" ");

    let tag = pad_right(flag_tag(train_flag(t.delayed, t.approaching)), 4);

    let mut next = "→ ".to_owned();
    let next_name = trunc(t.next_station.as_str(), 16);
    let next_cell = pad_right(next_name.as_str(), 16);
    next.append(next_cell.as_str());

    let mut dest = " ▸ ".to_owned();
    let dest_name = trunc(t.dest.as_str(), 12);
    let dest_cell = pad_right(dest_name.as_str(), 12);
    dest.append(dest_cell.as_str());

    TrainRow { arrow, run, eta, tag, next, dest }
}

/// Lay out one arrival of the home-station ticker: the ETA label and the
/// destination.
pub fn arrival_row(a: &Arrival) -> (r: (String, String))
    ensures
        r.0@ == " "@ + right_aligned(eta_label(a.eta_min), 4) + " "@,
        r.1@ == truncated(a.dest@, 17),
{
    let mut eta = " ".to_owned();
    let eta_text = fmt_eta(a.eta_min);
    let cell = pad_left(eta_text.as_str(), 4);
    eta.append(cell.as_str());
    eta.append(" ");
    (eta, trunc(a.dest.as_str(), 17))
}

/// Lay out one line of the system board: the short line name and its status.
pub fn status_row(s: &RouteStatus) -> (r: (String, String))
    ensures
        r.0@ == left_aligned(short_label(normalized(s.route@)), 5),
        r.1@ == " "@ + truncated(s.status@, 11),
{
    let name = short_line(s.route.as_str());
    let mut status = " ".to_owned();
    let st = trunc(s.status.as_str(), 11);
    status.append(st.as_str());
    (pad_right(name.as_str(), 5), status)
}

/// The line board's title: the line's name in capitals.
pub fn line_title(label: &str) -> (r: String)
    ensures
        r@ == " "@ + uppercase(label@) + " LINE "@,
{
    let mut r = " ".to_owned();
    let up = to_upper(label);
    r.append(up.as_str());
    r.append(" LINE ");
    r
}

/// The line board's train count, with the keys that change line.
pub fn track_count(n: usize) -> (r: String)
    ensures
        r@ == "["@ + decimal(n as nat) + " TRK] ←/→ "@,
{
    let mut r = "[".to_owned();
    let d = decimal_text(n as u64);
    r.append(d.as_str());
    r.append(" TRK] ←/→ ");
    r
}

/// The arrivals ticker's title: the home label, cut to fit, in capitals.
pub fn home_title(label: &str) -> (r: String)
    ensures
        r@ == uppercase(truncated(label@, 18)) + " "@,
{
    let cut = trunc(label, 18);
    let mut r = to_upper(cut.as_str());
    r.append(" ");
    r
}

/// The bottom rule's fault notice, cut to fit.
pub fn fault_line(error: &str) -> (r: String)
    ensures
        r@ == " ⚠ "@ + truncated(error@, 40) + " "@,
{
    let mut r = " ⚠ ".to_owned();
    let cut = trunc(error, 40);
    r.append(cut.as_str());
    r.append(" ");
    r
}

/// The bottom rule's tally of trains and lines.
pub fn tracking_line(trains: usize, lines: usize) -> (r: String)
    ensures
        r@ == " "@ + decimal(trains as nat) + " TRAINS // "@ + decimal(lines as nat) + " LINES TRACKED "@,
{
    let mut r = " ".to_owned();
    let t = decimal_text(trains as u64);
    r.append(t.as_str());
    r.append(" TRAINS // ");
    let l = decimal_text(lines as u64);
    r.append(l.as_str());
    r.append(" LINES TRACKED ");
    r
}

} // verus!
