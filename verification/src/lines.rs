//! Names and colors of the lines: CTA 'L' route keys, Metra and South Shore
//! route ids, and the names the route-status feed uses.

use vstd::prelude::*;
use vstd::string::StringExecFns;
use crate::text::{chars_of, is_word, lowercase, push_char, string_of, to_lower, to_upper, trim, trim_chars, uppercase};

verus! {

/// The display name of a route key (already lowercased); unknown keys name themselves.
pub open spec fn route_label(k: Seq<char>) -> Seq<char> {
    if k == "red"@ { "Red"@ }
    else if k == "blue"@ { "Blue"@ }
    else if k == "brn"@ { "Brown"@ }
    else if k == "g"@ { "Green"@ }
    else if k == "org"@ { "Orange"@ }
    else if k == "p"@ || k == "pexp"@ { "Purple"@ }
    else if k == "pink"@ { "Pink"@ }
    else if k == "y"@ { "Yellow"@ }
    else if k == "bnsf"@ { "BNSF"@ }
    else if k == "hc"@ { "Heritage"@ }
    else if k == "md-n"@ { "MD-N"@ }
    else if k == "md-w"@ { "MD-W"@ }
    else if k == "me"@ { "Metra Electric"@ }
    else if k == "ncs"@ { "NCS"@ }
    else if k == "ri"@ { "Rock Island"@ }
    else if k == "sws"@ { "SW Service"@ }
    else if k == "up-n"@ { "UP-N"@ }
    else if k == "up-nw"@ { "UP-NW"@ }
    else if k == "up-w"@ { "UP-W"@ }
    else if k == "ss"@ { "South Shore"@ }
    else { k }
}

/// Display name of a route key, compared case-insensitively.
pub fn pretty_route(key: &str) -> (r: String)
    ensures
        r@ == route_label(lowercase(key@)),
{
    let lower = to_lower(key);
    let k = chars_of(lower.as_str());
    if is_word(&k, "red") { "Red".to_owned() }
    else if is_word(&k, "blue") { "Blue".to_owned() }
    else if is_word(&k, "brn") { "Brown".to_owned() }
    else if is_word(&k, "g") { "Green".to_owned() }
    else if is_word(&k, "org") { "Orange".to_owned() }
    else if is_word(&k, "p") || is_word(&k, "pexp") { "Purple".to_owned() }
    else if is_word(&k, "pink") { "Pink".to_owned() }
    else if is_word(&k, "y") { "Yellow".to_owned() }
    else if is_word(&k, "bnsf") { "BNSF".to_owned() }
    else if is_word(&k, "hc") { "Heritage".to_owned() }
    else if is_word(&k, "md-n") { "MD-N".to_owned() }
    else if is_word(&k, "md-w") { "MD-W".to_owned() }
    else if is_word(&k, "me") { "Metra Electric".to_owned() }
    else if is_word(&k, "ncs") { "NCS".to_owned() }
    else if is_word(&k, "ri") { "Rock Island".to_owned() }
    else if is_word(&k, "sws") { "SW Service".to_owned() }
    else if is_word(&k, "up-n") { "UP-N".to_owned() }
    else if is_word(&k, "up-nw") { "UP-NW".to_owned() }
    else if is_word(&k, "up-w") { "UP-W".to_owned() }
    else if is_word(&k, "ss") { "South Shore".to_owned() }
    else { lower }
}

/// The brand color of a Metra or South Shore line key (already lowercased).
pub open spec fn regional_color(k: Seq<char>) -> Option<Seq<char>> {
    if k == "bnsf"@ { Some("#29C233"@) }
    else if k == "hc"@ { Some("#550E0C"@) }
    else if k == "md-n"@ { Some("#CC5500"@) }
    else if k == "md-w"@ { Some("#F1AD0E"@) }
    else if k == "me"@ { Some("#EB5C00"@) }
    else if k == "ncs"@ { Some("#9785BC"@) }
    else if k == "ri"@ { Some("#E02400"@) }
    else if k == "sws"@ { Some("#0042A8"@) }
    else if k == "up-n"@ { Some("#008000"@) }
    else if k == "up-nw"@ { Some("#FFE600"@) }
    else if k == "up-w"@ { Some("#FE8D81"@) }
    else if k == "ss"@ { Some("#F6931C"@) }
    else { None }
}

/// Brand hex for a Metra/South Shore line (from the GTFS route colors), used
/// to color the synthesized SYSTEM rows. Compared case-insensitively.
pub fn regional_hex(key: &str) -> (r: Option<&'static str>)
    ensures
        match r {
            Some(h) => regional_color(lowercase(key@)) == Some(h@),
            None => regional_color(lowercase(key@)) is None,
        },
{
    let lower = to_lower(key);
    let k = chars_of(lower.as_str());
    if is_word(&k, "bnsf") { Some("#29C233") }
    else if is_word(&k, "hc") { Some("#550E0C") }
    else if is_word(&k, "md-n") { Some("#CC5500") }
    else if is_word(&k, "md-w") { Some("#F1AD0E") }
    else if is_word(&k, "me") { Some("#EB5C00") }
    else if is_word(&k, "ncs") { Some("#9785BC") }
    else if is_word(&k, "ri") { Some("#E02400") }
    else if is_word(&k, "sws") { Some("#0042A8") }
    else if is_word(&k, "up-n") { Some("#008000") }
    else if is_word(&k, "up-nw") { Some("#FFE600") }
    else if is_word(&k, "up-w") { Some("#FE8D81") }
    else if is_word(&k, "ss") { Some("#F6931C") }
    else { None }
}

/// Whether a route-status name (trimmed and lowercased) is one of the 'L' lines.
pub open spec fn rail_line_name(n: Seq<char>) -> bool {
    ||| n == "red line"@
    ||| n == "blue line"@
    ||| n == "brown line"@
    ||| n == "green line"@
    ||| n == "orange line"@
    ||| n == "purple line"@
    ||| n == "purple line express"@
    ||| n == "pink line"@
    ||| n == "yellow line"@
}

/// A status name, trimmed and then lowercased.
pub open spec fn normalized(name: Seq<char>) -> Seq<char> {
    lowercase(trim(name))
}

/// The trimmed, lowercased characters of a name.
fn normalized_chars(name: &str) -> (r: Vec<char>)
    ensures
        r@ == normalized(name@),
{
    let raw = chars_of(name);
    let t = trim_chars(&raw);
    let ts = string_of(&t);
    let lower = to_lower(ts.as_str());
    chars_of(lower.as_str())
}

/// The route-status feed lists every CTA route (bus and rail); the board only
/// flies the 'L' lines, so keep just those.
pub fn is_rail_line(name: &str) -> (r: bool)
    ensures
        r == rail_line_name(normalized(name@)),
{
    let n = normalized_chars(name);
    is_word(&n, "red line") || is_word(&n, "blue line") || is_word(&n, "brown line")
        || is_word(&n, "green line") || is_word(&n, "orange line") || is_word(&n, "purple line")
        || is_word(&n, "purple line express") || is_word(&n, "pink line") || is_word(&n, "yellow line")
}

/// The short label of a status name (already trimmed and lowercased); other
/// names stand for themselves.
pub open spec fn short_label(n: Seq<char>) -> Seq<char> {
    if n == "red line"@ { "RED"@ }
    else if n == "blue line"@ { "BLUE"@ }
    else if n == "brown line"@ { "BRN"@ }
    else if n == "green line"@ { "GRN"@ }
    else if n == "orange line"@ { "ORG"@ }
    else if n == "purple line"@ { "PURP"@ }
    else if n == "purple line express"@ { "PEXP"@ }
    else if n == "pink line"@ { "PINK"@ }
    else if n == "yellow line"@ { "YEL"@ }
    else { n }
}

/// "Red Line" -> "RED", "Purple Line Express" -> "PEXP".
pub fn short_line(name: &str) -> (r: String)
    ensures
        r@ == short_label(normalized(name@)),
{
    let n = normalized_chars(name);
    if is_word(&n, "red line") { "RED".to_owned() }
    else if is_word(&n, "blue line") { "BLUE".to_owned() }
    else if is_word(&n, "brown line") { "BRN".to_owned() }
    else if is_word(&n, "green line") { "GRN".to_owned() }
    else if is_word(&n, "orange line") { "ORG".to_owned() }
    else if is_word(&n, "purple line") { "PURP".to_owned() }
    else if is_word(&n, "purple line express") { "PEXP".to_owned() }
    else if is_word(&n, "pink line") { "PINK".to_owned() }
    else if is_word(&n, "yellow line") { "YEL".to_owned() }
    else { string_of(&n) }
}

/// A word with its first character uppercased and the rest lowercased.
pub open spec fn title_word(w: Seq<char>) -> Seq<char> {
    if w.len() == 0 {
        seq![]
    } else {
        uppercase(seq![w[0]]) + lowercase(w.drop_first())
    }
}

/// The '_'-separated words of `s`, the first of them continuing `word`,
/// each title-cased, joined by single spaces.
pub open spec fn titled_from(s: Seq<char>, word: Seq<char>) -> Seq<char>
    decreases s.len(),
{
    if s.len() == 0 {
        title_word(word)
    } else if s[0] == '_' {
        title_word(word) + " "@ + titled_from(s.drop_first(), seq![])
    } else {
        titled_from(s.drop_first(), word.push(s[0]))
    }
}

/// The title-cased word.
fn title_case(w: &Vec<char>) -> (r: String)
    ensures
        r@ == title_word(w@),
{
    if w.len() == 0 {
        return String::new();
    }
    let mut first = String::new();
    push_char(&mut first, w[0]);
    assert(first@ =~= seq![w@[0]]);
    let mut rest: Vec<char> = Vec::new();
    let mut i: usize = 1;
    while i < w.len()
        invariant
            1 <= i <= w.len(),
            rest@ == w@.subrange(1, i as int),
        decreases w.len() - i,
    {
        rest.push(w[i]);
        i = i + 1;
    }
    assert(rest@ =~= w@.drop_first());
    let rest_s = string_of(&rest);
    let mut out = to_upper(first.as_str());
    let low = to_lower(rest_s.as_str());
    out.append(low.as_str());
    out
}

/// A transit-feed effect name made readable: "SIGNIFICANT_DELAYS" → "Significant Delays".
pub fn pretty_effect(e: String) -> (r: String)
    ensures
        r@ == titled_from(e@, seq![]),
{
    let c = chars_of(e.as_str());
    let mut out = String::new();
    let mut word: Vec<char> = Vec::new();
    let mut i: usize = 0;
    assert(c@.skip(0) =~= c@);
    while i < c.len()
        invariant
            c@ == e@,
            i <= c.len(),
            titled_from(e@, seq![]) == out@ + titled_from(c@.skip(i as int), word@),
        decreases c.len() - i,
    {
        let ch = c[i];
        assert(c@.skip(i as int).drop_first() =~= c@.skip(i + 1));
        assert(c@.skip(i as int)[0] == ch);
        if ch == '_' {
            let t = title_case(&word);
            out.append(t.as_str());
            out.append(" ");
            word = Vec::new();
            assert(word@ =~= Seq::<char>::empty());
        } else {
            word.push(ch);
        }
        i = i + 1;
    }
    assert(c@.skip(i as int).len() == 0);
    let t = title_case(&word);
    out.append(t.as_str());
    out
}

} // verus!
