//! The decisions of the terminal loop and of the background daemon: what a
//! key press does, what one notification says, which panels a daemon round
//! refreshes, and whether a running daemon is still alive.

use vstd::prelude::*;
use vstd::string::StringExecFns;
use crate::display::{decimal, decimal_text};
use crate::model::texts;
use crate::text::joined;

verus! {

/// A key press, as the terminal reports it.
#[derive(Clone, Copy, PartialEq, Eq, Structural, Debug)]
pub enum Key {
    Char(char),
    Esc,
    Enter,
    Up,
    Down,
    Left,
    Right,
    Tab,
    Backspace,
    Other,
}

/// What a key press asks of the application.
#[derive(Clone, Copy, PartialEq, Eq, Structural, Debug)]
pub enum KeyAction {
    Nothing,
    Quit,
    OpenSearch,
    CloseSearch,
    CommitSearch,
    SearchMove(i32),
    SearchBackspace,
    SearchInput(char),
    ClearZoom,
    /// Poll the feeds now and show the board as loading.
    Refresh,
    /// Leave any zoom, then focus the next line.
    NextLine,
    /// Leave any zoom, then focus the previous line.
    PrevLine,
    SelectNext,
    SelectPrev,
}

/// The action of a key: the search overlay, when open, captures all keys;
/// otherwise Esc leaves the zoom first and quits only when nothing is zoomed.
pub open spec fn key_action_spec(search_open: bool, zoomed: bool, key: Key) -> KeyAction {
    if search_open {
        match key {
            Key::Esc => KeyAction::CloseSearch,
            Key::Enter => KeyAction::CommitSearch,
            Key::Up => KeyAction::SearchMove(-1i32),
            Key::Down => KeyAction::SearchMove(1i32),
            Key::Backspace => KeyAction::SearchBackspace,
            Key::Char(c) => KeyAction::SearchInput(c),
            _ => KeyAction::Nothing,
        }
    } else {
        match key {
            Key::Char(c) => if c == 'q' {
                KeyAction::Quit
            } else if c == '/' {
                KeyAction::OpenSearch
            } else if c == 'r' {
                KeyAction::Refresh
            } else {
                KeyAction::Nothing
            },
            Key::Esc => if zoomed { KeyAction::ClearZoom } else { KeyAction::Quit },
            Key::Right | Key::Tab => KeyAction::NextLine,
            Key::Left => KeyAction::PrevLine,
            Key::Down => KeyAction::SelectNext,
            Key::Up => KeyAction::SelectPrev,
            _ => KeyAction::Nothing,
        }
    }
}

/// Decide what a key press does.
pub fn key_action(search_open: bool, zoomed: bool, key: Key) -> (a: KeyAction)
    ensures
        a == key_action_spec(search_open, zoomed, key),
{
    if search_open {
        match key {
            Key::Esc => KeyAction::CloseSearch,
            Key::Enter => KeyAction::CommitSearch,
            Key::Up => KeyAction::SearchMove(-1),
            Key::Down => KeyAction::SearchMove(1),
            Key::Backspace => KeyAction::SearchBackspace,
            Key::Char(c) => KeyAction::SearchInput(c),
            _ => KeyAction::Nothing,
        }
    } else {
        match key {
            Key::Char(c) => if c == 'q' {
                KeyAction::Quit
            } else if c == '/' {
                KeyAction::OpenSearch
            } else if c == 'r' {
                KeyAction::Refresh
            } else {
                KeyAction::Nothing
            },
            Key::Esc => if zoomed { KeyAction::ClearZoom } else { KeyAction::Quit },
            Key::Right | Key::Tab => KeyAction::NextLine,
            Key::Left => KeyAction::PrevLine,
            Key::Down => KeyAction::SelectNext,
            Key::Up => KeyAction::SelectPrev,
            _ => KeyAction::Nothing,
        }
    }
}

/// At most this many delay notes go into one notification.
pub const NOTES_SHOWN: usize = 4;

/// The body of one delay notification: the first notes, one per line, and a
/// count of the rest, so that a meltdown cannot spam the desktop.
pub open spec fn notes_body_spec(notes: Seq<Seq<char>>) -> Seq<char> {
    if notes.len() <= NOTES_SHOWN {
        joined(notes, "\n"@)
    } else {
        joined(notes.take(NOTES_SHOWN as int), "\n"@) + "\n(+"@ + decimal((notes.len() - NOTES_SHOWN) as nat) + " more)"@
    }
}

/// The text of one notification for a batch of delay notes.
pub fn notes_body(notes: &Vec<String>) -> (body: String)
    ensures
        body@ == notes_body_spec(texts(notes@)),
{
    let ghost t = texts(notes@);
    let shown: usize = if notes.len() < NOTES_SHOWN { notes.len() } else { NOTES_SHOWN };
    let mut body = String::new();
    let mut i: usize = 0;
    while i < shown
        invariant
            t == texts(notes@),
            shown <= notes@.len(),
            i <= shown,
            body@ == joined(t.take(i as int), "\n"@),
        decreases shown - i,
    {
        assert(t.take(i + 1).drop_last() =~= t.take(i as int));
        assert(t.take(i + 1).last() == notes@[i as int]@);
        if i > 0 {
            body.append("\n");
        }
        body.append(notes[i].as_str());
        i = i + 1;
    }
    let extra = notes.len() - shown;
    if extra > 0 {
        body.append("\n(+");
        let n = decimal_text(extra as u64);
        body.append(n.as_str());
        body.append(" more)");
    } else {
        assert(t.take(i as int) =~= t);
    }
    body
}

/// Which AI panels one daemon round refreshes: dispatch every round (a
/// minute), the situation report every fifth, events every thirtieth.
pub fn daemon_round(n: u64) -> (due: (bool, bool, bool))
    ensures
        due == (true, n % 5 == 0, n % 30 == 0),
{
    (true, n % 5 == 0, n % 30 == 0)
}

/// A heartbeat no older than this many seconds means a daemon is running.
pub const HEARTBEAT_FRESH_SECS: i64 = 90;

/// Age of a heartbeat written at `updated_at`, seen at `now` (never negative).
pub fn heartbeat_age(now: i64, updated_at: i64) -> (age: i64)
    requires
        i64::MIN <= now - updated_at <= i64::MAX,
    ensures
        age == (if now - updated_at > 0 { now - updated_at } else { 0 }),
{
    let d = now - updated_at;
    if d > 0 { d } else { 0 }
}

/// Whether the cache shows a live daemon: a heartbeat exists and is fresh.
pub fn daemon_alive(age: Option<i64>) -> (alive: bool)
    ensures
        alive == (age matches Some(a) && a <= HEARTBEAT_FRESH_SECS),
{
    match age {
        Some(a) => a <= HEARTBEAT_FRESH_SECS,
        None => false,
    }
}

} // verus!
