# cta_tui

A NORAD-style terminal board for the Chicago 'L': live train positions per
line, the home station's arrivals, the system status of every line, an
approach bell and desktop notes for delays, and a fuzzy station search. The
logic is a Verus library whose behaviour is stated in contracts and proved;
the terminal program around it is ordinary Rust.

## Layout

- `src/` — the verified library.
  - `text` — characters of strings, trimming, the order on texts, joining;
    the few std text functions it calls (case mapping, character classes).
  - `model` — the board's data: trains, route boards, arrivals, statuses,
    alerts, snapshots.
  - `feed` — the feeds' records as plain values and how they become boards
    and arrivals (one-or-many lists, flags, ETA minutes, headings).
  - `regional` — the regional (Metra, South Shore) boards and status rows.
  - `poll` — folding one poll's answers into a snapshot; replay snapshots.
  - `request` — the feed addresses a poll asks.
  - `lines` — line names, labels and brand colors.
  - `fuzzy` — case-insensitive subsequence matching with a score.
  - `app` — the application state machine: cursors, the approach and delay
    watchers, the station search and zoom.
  - `track` — the flat station index used by the search.
  - `display`, `panels` — what the screen shows: ETA labels, truncation,
    heading arrows, colors, flags, marks and the strip map's row buffer.
  - `control` — key bindings, notification bodies, the daemon's schedule.
  - `config` — settings, integer parsing, notification titles and scripts.
  - `ai` — the AI panels' answers and their query paths.
- `app/` — the program: terminal, network, SQLite cache, notifications,
  text-to-speech and the floating-point track geometry.
- `tests/` — tests of the library on concrete values.

Laws that relate several functions stand as public proof functions named
`law_*`: for instance `app::law_next_prev_inverse` (stepping lines forth
and back returns), `app::law_ranking_is_unique` and `app::law_type_then_erase`
(search results depend on the query alone), `app::law_bell_over_polls`
(the approach bell over any run of polls), `app::law_no_notes_when_off`,
`app::law_prev_route_undoes_next`, `fuzzy::law_match_is_subsequence`,
`fuzzy::law_score_ignores_case`, `panels::law_highest_rank_shows` and
`track::law_line_names_once`.
