//! What the board shows for values: ETA labels, truncated names, heading
//! arrows and line colors.

use vstd::prelude::*;
use vstd::string::StringExecFns;
use vstd::utf8::{encode_utf8, is_continuation_byte};
use crate::lines::{rail_line_name, route_label};
use crate::text::{chars_of, is_word, lowercase, push_char, string_of, to_lower};

verus! {

/// The decimal digits of a natural number.
pub open spec fn decimal(n: nat) -> Seq<char>
    decreases n,
{
    if n < 10 {
        seq![digit_char(n)]
    } else {
        decimal(n / 10).push(digit_char(n % 10))
    }
}

/// The ASCII digit for `d` below ten.
pub open spec fn digit_char(d: nat) -> char {
    if d == 0 { '0' } else if d == 1 { '1' } else if d == 2 { '2' } else if d == 3 { '3' }
    else if d == 4 { '4' } else if d == 5 { '5' } else if d == 6 { '6' } else if d == 7 { '7' }
    else if d == 8 { '8' } else { '9' }
}

fn digit(d: u64) -> (c: char)
    requires
        d < 10,
    ensures
        c == digit_char(d as nat),
{
    if d == 0 { '0' } else if d == 1 { '1' } else if d == 2 { '2' } else if d == 3 { '3' }
    else if d == 4 { '4' } else if d == 5 { '5' } else if d == 6 { '6' } else if d == 7 { '7' }
    else if d == 8 { '8' } else { '9' }
}

/// The decimal text of a number.
pub fn decimal_text(n: u64) -> (s: String)
    ensures
        s@ == decimal(n as nat),
    decreases n,
{
    if n < 10 {
        let mut s = String::new();
        push_char(&mut s, digit(n));
        s
    } else {
        let mut s = decimal_text(n / 10);
        push_char(&mut s, digit(n % 10));
        s
    }
}

/// The label of an ETA: "DUE" when it is now or past, "<m>m" ahead, "--" unknown.
pub open spec fn eta_label(eta: Option<i64>) -> Seq<char> {
    match eta {
        Some(m) => if m <= 0 { "DUE"@ } else { decimal(m as nat) + "m"@ },
        None => "--"@,
    }
}

/// The ETA label the board shows.
pub fn fmt_eta(eta_min: Option<i64>) -> (s: String)
    ensures
        s@ == eta_label(eta_min),
{
    match eta_min {
        Some(m) => {
            if m <= 0 {
                "DUE".to_owned()
            } else {
                let mut s = decimal_text(m as u64);
                push_char(&mut s, 'm');
                proof {
                    reveal_strlit("m");
                }
                assert(s@ =~= decimal(m as nat) + "m"@);
                s
            }
        },
        None => "--".to_owned(),
    }
}

/// `s` cut to at most `max` characters, the last one an ellipsis when cut.
pub open spec fn truncated(s: Seq<char>, max: nat) -> Seq<char> {
    if s.len() <= max {
        s
    } else {
        s.take(if max == 0 { 0 } else { max - 1 }).push('…')
    }
}

/// A label that fits its column is kept whole; a longer one is cut to the
/// column's width (for a column at least one wide), its last character an
/// ellipsis and the rest a prefix of the label.
pub proof fn law_truncated_fits(s: Seq<char>, max: nat)
    ensures
        s.len() <= max ==> truncated(s, max) == s,
        s.len() > max ==> {
            let t = truncated(s, max);
            &&& t.last() == '…'
            &&& t.drop_last() == s.take(t.len() - 1)
            &&& max >= 1 ==> t.len() == max
        },
{
    if s.len() > max {
        let t = truncated(s, max);
        assert(t.drop_last() =~= s.take(t.len() - 1));
    }
}

/// Cut a label to a column width, marking the cut with an ellipsis.
pub fn trunc(s: &str, max: usize) -> (r: String)
    ensures
        r@ == truncated(s@, max as nat),
{
    let c = chars_of(s);
    if c.len() <= max {
        return s.to_owned();
    }
    let keep: usize = if max == 0 { 0 } else { max - 1 };
    let mut out: Vec<char> = Vec::new();
    let mut i: usize = 0;
    while i < keep
        invariant
            keep < c@.len(),
            i <= keep,
            out@ == c@.take(i as int),
        decreases keep - i,
    {
        out.push(c[i]);
        assert(c@.take(i + 1) =~= c@.take(i as int).push(c@[i as int]));
        i = i + 1;
    }
    out.push('…');
    string_of(&out)
}

/// The compass arrow for eighth `i` (0 = north, clockwise).
pub open spec fn arrow(i: int) -> char {
    if i == 0 { '↑' } else if i == 1 { '↗' } else if i == 2 { '→' } else if i == 3 { '↘' }
    else if i == 4 { '↓' } else if i == 5 { '↙' } else if i == 6 { '←' } else { '↖' }
}

/// The eighth of the compass a heading in degrees falls in: the nearest of
/// the eight directions, counting 22.5 degrees either side of each.
pub open spec fn compass_eighth(d: int) -> int {
    ((2 * d + 45) / 90) % 8
}

/// The arrow for a heading; a bullet when the heading is unknown.
pub open spec fn heading_glyph(deg: Option<u16>) -> char {
    match deg {
        Some(d) => arrow(compass_eighth(d as int)),
        None => '•',
    }
}

/// 8-way arrow from a compass heading in degrees; a bullet when unknown.
/// The eighth is `floor((d + 22.5) / 45) mod 8`, computed exactly on integers:
/// `(d + 22.5) / 45` is never a whole number, so no rounding can move it across one.
pub fn heading_arrow(deg: Option<u16>) -> (c: char)
    ensures
        c == heading_glyph(deg),
{
    match deg {
        None => '•',
        Some(d) => {
            let i: u32 = ((2 * (d as u32) + 45) / 90) % 8;
            if i == 0 { '↑' } else if i == 1 { '↗' } else if i == 2 { '→' } else if i == 3 { '↘' }
            else if i == 4 { '↓' } else if i == 5 { '↙' } else if i == 6 { '←' } else { '↖' }
        },
    }
}

/// A terminal color for a line.
#[derive(Clone, Copy, PartialEq, Eq, Structural, Debug)]
pub enum LineColor {
    Rgb(u8, u8, u8),
    Gray,
}

/// Brand color of a CTA line key (already lowercased).
pub open spec fn line_color(k: Seq<char>) -> LineColor {
    if k == "red"@ { LineColor::Rgb(0xc6, 0x0c, 0x30) }
    else if k == "blue"@ { LineColor::Rgb(0x00, 0xa1, 0xde) }
    else if k == "brn"@ { LineColor::Rgb(0x62, 0x36, 0x1b) }
    else if k == "g"@ { LineColor::Rgb(0x00, 0x9b, 0x3a) }
    else if k == "org"@ { LineColor::Rgb(0xf9, 0x46, 0x1c) }
    else if k == "p"@ || k == "pexp"@ { LineColor::Rgb(0x52, 0x2c, 0xa8) }
    else if k == "pink"@ { LineColor::Rgb(0xe2, 0x7e, 0xa6) }
    else if k == "y"@ { LineColor::Rgb(0xf9, 0xe3, 0x00) }
    else { LineColor::Gray }
}

/// Brand color per CTA line key, compared case-insensitively.
pub fn route_color(key: &str) -> (c: LineColor)
    ensures
        c == line_color(lowercase(key@)),
{
    let lower = to_lower(key);
    let k = chars_of(lower.as_str());
    if is_word(&k, "red") { LineColor::Rgb(0xc6, 0x0c, 0x30) }
    else if is_word(&k, "blue") { LineColor::Rgb(0x00, 0xa1, 0xde) }
    else if is_word(&k, "brn") { LineColor::Rgb(0x62, 0x36, 0x1b) }
    else if is_word(&k, "g") { LineColor::Rgb(0x00, 0x9b, 0x3a) }
    else if is_word(&k, "org") { LineColor::Rgb(0xf9, 0x46, 0x1c) }
    else if is_word(&k, "p") || is_word(&k, "pexp") { LineColor::Rgb(0x52, 0x2c, 0xa8) }
    else if is_word(&k, "pink") { LineColor::Rgb(0xe2, 0x7e, 0xa6) }
    else if is_word(&k, "y") { LineColor::Rgb(0xf9, 0xe3, 0x00) }
    else { LineColor::Gray }
}

/// The eight 'L' line names the board shows.
pub open spec fn l_line_name(s: Seq<char>) -> bool {
    ||| s == "Red"@
    ||| s == "Blue"@
    ||| s == "Brown"@
    ||| s == "Green"@
    ||| s == "Orange"@
    ||| s == "Purple"@
    ||| s == "Pink"@
    ||| s == "Yellow"@
}

/// A key as the board passes it: no ASCII capital letters.
pub open spec fn no_capitals(k: Seq<char>) -> bool {
    forall|i: int| 0 <= i < k.len() ==> !('A' <= #[trigger] k[i] <= 'Z')
}

/// A key whose board name is an 'L' line name is one of the nine CTA keys.
proof fn lemma_l_label_key(k: Seq<char>)
    requires
        no_capitals(k),
    ensures
        l_line_name(route_label(k)) ==> (k == "red"@ || k == "blue"@ || k == "brn"@ || k == "g"@ || k == "org"@
            || k == "p"@ || k == "pexp"@ || k == "pink"@ || k == "y"@),
        (k == "red"@ || k == "blue"@ || k == "brn"@ || k == "g"@ || k == "org"@ || k == "p"@ || k == "pexp"@
            || k == "pink"@ || k == "y"@) ==> l_line_name(route_label(k)),
{
    reveal_strlit("Red");
    reveal_strlit("Blue");
    reveal_strlit("Brown");
    reveal_strlit("Green");
    reveal_strlit("Orange");
    reveal_strlit("Purple");
    reveal_strlit("Pink");
    reveal_strlit("Yellow");
    reveal_strlit("BNSF");
    reveal_strlit("Heritage");
    reveal_strlit("MD-N");
    reveal_strlit("MD-W");
    reveal_strlit("Metra Electric");
    reveal_strlit("NCS");
    reveal_strlit("Rock Island");
    reveal_strlit("SW Service");
    reveal_strlit("UP-N");
    reveal_strlit("UP-NW");
    reveal_strlit("UP-W");
    reveal_strlit("South Shore");
    let l = route_label(k);
    if l_line_name(l) && !(k == "red"@ || k == "blue"@ || k == "brn"@ || k == "g"@ || k == "org"@ || k == "p"@
        || k == "pexp"@ || k == "pink"@ || k == "y"@) {
        if k == "bnsf"@ {
            assert(l[1] == 'N');
        } else if k == "hc"@ {
            assert(l.len() == 8);
        } else if k == "md-n"@ || k == "md-w"@ {
            assert(l[0] == 'M');
        } else if k == "me"@ {
            assert(l.len() == 14);
        } else if k == "ncs"@ {
            assert(l[0] == 'N');
        } else if k == "ri"@ {
            assert(l.len() == 11);
        } else if k == "sws"@ {
            assert(l.len() == 10);
        } else if k == "up-n"@ || k == "up-nw"@ || k == "up-w"@ {
            assert(l[0] == 'U');
        } else if k == "ss"@ {
            assert(l.len() == 11);
        } else {
            assert(l == k);
            assert(k.len() > 0);
            assert(!('A' <= k[0] <= 'Z'));
        }
    }
}

/// A line key gets a brand color exactly when the board names it as one of
/// the eight 'L' lines; every other key (regional or unknown) is gray.
pub proof fn law_colored_keys_are_the_l_lines(k: Seq<char>)
    requires
        no_capitals(k),
    ensures
        (line_color(k) != LineColor::Gray) == l_line_name(route_label(k)),
{
    reveal_strlit("Red");
    reveal_strlit("Blue");
    reveal_strlit("Brown");
    reveal_strlit("Green");
    reveal_strlit("Orange");
    reveal_strlit("Purple");
    reveal_strlit("Pink");
    reveal_strlit("Yellow");
    reveal_strlit("BNSF");
    reveal_strlit("Heritage");
    reveal_strlit("MD-N");
    reveal_strlit("MD-W");
    reveal_strlit("Metra Electric");
    reveal_strlit("NCS");
    reveal_strlit("Rock Island");
    reveal_strlit("SW Service");
    reveal_strlit("UP-N");
    reveal_strlit("UP-NW");
    reveal_strlit("UP-W");
    reveal_strlit("South Shore");
    lemma_l_label_key(k);
}

/// Two 'L' line keys share a brand color exactly when the board gives them
/// the same name (only "p" and "pexp", both Purple, do).
pub proof fn law_l_line_names_match_colors(k1: Seq<char>, k2: Seq<char>)
    requires
        no_capitals(k1),
        no_capitals(k2),
        l_line_name(route_label(k1)),
        l_line_name(route_label(k2)),
    ensures
        (route_label(k1) == route_label(k2)) == (line_color(k1) == line_color(k2)),
{
    reveal_strlit("Red");
    reveal_strlit("Blue");
    reveal_strlit("Brown");
    reveal_strlit("Green");
    reveal_strlit("Orange");
    reveal_strlit("Purple");
    reveal_strlit("Pink");
    reveal_strlit("Yellow");
    reveal_strlit("BNSF");
    reveal_strlit("Heritage");
    reveal_strlit("MD-N");
    reveal_strlit("MD-W");
    reveal_strlit("Metra Electric");
    reveal_strlit("NCS");
    reveal_strlit("Rock Island");
    reveal_strlit("SW Service");
    reveal_strlit("UP-N");
    reveal_strlit("UP-NW");
    reveal_strlit("UP-W");
    reveal_strlit("South Shore");
    reveal_strlit("red");
    reveal_strlit("blue");
    reveal_strlit("brn");
    reveal_strlit("g");
    reveal_strlit("org");
    reveal_strlit("p");
    reveal_strlit("pexp");
    reveal_strlit("pink");
    reveal_strlit("y");
    lemma_l_label_key(k1);
    lemma_l_label_key(k2);
    lemma_l_key_facts(k1);
    lemma_l_key_facts(k2);
    assert("Red"@.len() == 3 && "Red"@[0] == 'R');
    assert("Blue"@.len() == 4 && "Blue"@[0] == 'B');
    assert("Brown"@.len() == 5 && "Brown"@[0] == 'B');
    assert("Green"@.len() == 5 && "Green"@[0] == 'G');
    assert("Orange"@.len() == 6 && "Orange"@[0] == 'O');
    assert("Purple"@.len() == 6 && "Purple"@[0] == 'P');
    assert("Pink"@.len() == 4 && "Pink"@[0] == 'P');
    assert("Yellow"@.len() == 6 && "Yellow"@[0] == 'Y');
}

/// The name and color of each of the nine CTA keys, as (first letter, length)
/// of the name and the color.
proof fn lemma_l_key_facts(k: Seq<char>)
    requires
        k == "red"@ || k == "blue"@ || k == "brn"@ || k == "g"@ || k == "org"@ || k == "p"@ || k == "pexp"@
            || k == "pink"@ || k == "y"@,
    ensures
        k == "red"@ ==> route_label(k) == "Red"@ && line_color(k) == LineColor::Rgb(0xc6, 0x0c, 0x30),
        k == "blue"@ ==> route_label(k) == "Blue"@ && line_color(k) == LineColor::Rgb(0x00, 0xa1, 0xde),
        k == "brn"@ ==> route_label(k) == "Brown"@ && line_color(k) == LineColor::Rgb(0x62, 0x36, 0x1b),
        k == "g"@ ==> route_label(k) == "Green"@ && line_color(k) == LineColor::Rgb(0x00, 0x9b, 0x3a),
        k == "org"@ ==> route_label(k) == "Orange"@ && line_color(k) == LineColor::Rgb(0xf9, 0x46, 0x1c),
        k == "p"@ || k == "pexp"@ ==> route_label(k) == "Purple"@ && line_color(k) == LineColor::Rgb(0x52, 0x2c, 0xa8),
        k == "pink"@ ==> route_label(k) == "Pink"@ && line_color(k) == LineColor::Rgb(0xe2, 0x7e, 0xa6),
        k == "y"@ ==> route_label(k) == "Yellow"@ && line_color(k) == LineColor::Rgb(0xf9, 0xe3, 0x00),
{
    reveal_strlit("red");
    reveal_strlit("blue");
    reveal_strlit("brn");
    reveal_strlit("g");
    reveal_strlit("org");
    reveal_strlit("p");
    reveal_strlit("pexp");
    reveal_strlit("pink");
    reveal_strlit("y");
    if k == "red"@ {
        assert(k.len() == 3 && k[0] == 'r');
        assert(k[1] == 'e');
        assert(route_label(k) == "Red"@);
        assert(line_color(k) == LineColor::Rgb(0xc6, 0x0c, 0x30));
    }
    if k == "blue"@ {
        assert(k.len() == 4 && k[0] == 'b');
        assert(k[1] == 'l');
        assert(route_label(k) == "Blue"@);
        assert(line_color(k) == LineColor::Rgb(0x00, 0xa1, 0xde));
    }
    if k == "brn"@ {
        assert(k.len() == 3 && k[0] == 'b');
        assert(k[1] == 'r');
        assert(route_label(k) == "Brown"@);
        assert(line_color(k) == LineColor::Rgb(0x62, 0x36, 0x1b));
    }
    if k == "g"@ {
        assert(k.len() == 1 && k[0] == 'g');
        assert(route_label(k) == "Green"@);
        assert(line_color(k) == LineColor::Rgb(0x00, 0x9b, 0x3a));
    }
    if k == "org"@ {
        assert(k.len() == 3 && k[0] == 'o');
        assert(k[1] == 'r');
        assert(route_label(k) == "Orange"@);
        assert(line_color(k) == LineColor::Rgb(0xf9, 0x46, 0x1c));
    }
    if k == "p"@ {
        assert(k.len() == 1 && k[0] == 'p');
        assert(route_label(k) == "Purple"@);
        assert(line_color(k) == LineColor::Rgb(0x52, 0x2c, 0xa8));
    }
    if k == "pexp"@ {
        assert(k.len() == 4 && k[0] == 'p');
        assert(k[1] == 'e');
        assert(route_label(k) == "Purple"@);
        assert(line_color(k) == LineColor::Rgb(0x52, 0x2c, 0xa8));
    }
    if k == "pink"@ {
        assert(k.len() == 4 && k[0] == 'p');
        assert(k[1] == 'i');
        assert(route_label(k) == "Pink"@);
        assert(line_color(k) == LineColor::Rgb(0xe2, 0x7e, 0xa6));
    }
    if k == "y"@ {
        assert(k.len() == 1 && k[0] == 'y');
        assert(route_label(k) == "Yellow"@);
        assert(line_color(k) == LineColor::Rgb(0xf9, 0xe3, 0x00));
    }
}

/// A text with its ASCII capital letters lowered.
pub open spec fn ascii_lower(s: Seq<char>) -> Seq<char> {
    Seq::new(s.len(), |i: int| if 'A' <= s[i] <= 'Z' { ((s[i] as int) + 32) as char } else { s[i] })
}

/// Every line the board names as an 'L' line is kept on the status board:
/// the route-status feed's name for it, "<name> Line", compared in lower
/// case, is one the status board keeps.
pub proof fn law_status_board_keeps_the_l_lines(k: Seq<char>)
    requires
        no_capitals(k),
        l_line_name(route_label(k)),
    ensures
        rail_line_name(ascii_lower(route_label(k) + " Line"@)),
{
    lemma_l_label_key(k);
    lemma_l_key_facts(k);
    reveal_strlit(" Line");
    reveal_strlit("Red");
    reveal_strlit("Blue");
    reveal_strlit("Brown");
    reveal_strlit("Green");
    reveal_strlit("Orange");
    reveal_strlit("Purple");
    reveal_strlit("Pink");
    reveal_strlit("Yellow");
    reveal_strlit("red line");
    reveal_strlit("blue line");
    reveal_strlit("brown line");
    reveal_strlit("green line");
    reveal_strlit("orange line");
    reveal_strlit("purple line");
    reveal_strlit("pink line");
    reveal_strlit("yellow line");
    let l = route_label(k);
    if l == "Red"@ {
        assert(ascii_lower(l + " Line"@) =~= "red line"@);
    } else if l == "Blue"@ {
        assert(ascii_lower(l + " Line"@) =~= "blue line"@);
    } else if l == "Brown"@ {
        assert(ascii_lower(l + " Line"@) =~= "brown line"@);
    } else if l == "Green"@ {
        assert(ascii_lower(l + " Line"@) =~= "green line"@);
    } else if l == "Orange"@ {
        assert(ascii_lower(l + " Line"@) =~= "orange line"@);
    } else if l == "Purple"@ {
        assert(ascii_lower(l + " Line"@) =~= "purple line"@);
    } else if l == "Pink"@ {
        assert(ascii_lower(l + " Line"@) =~= "pink line"@);
    } else {
        assert(ascii_lower(l + " Line"@) =~= "yellow line"@);
    }
}

/// The published brand color of each 'L' line, by its name.
pub open spec fn brand_color(name: Seq<char>) -> LineColor {
    if name == "Red"@ { LineColor::Rgb(0xc6, 0x0c, 0x30) }
    else if name == "Blue"@ { LineColor::Rgb(0x00, 0xa1, 0xde) }
    else if name == "Brown"@ { LineColor::Rgb(0x62, 0x36, 0x1b) }
    else if name == "Green"@ { LineColor::Rgb(0x00, 0x9b, 0x3a) }
    else if name == "Orange"@ { LineColor::Rgb(0xf9, 0x46, 0x1c) }
    else if name == "Purple"@ { LineColor::Rgb(0x52, 0x2c, 0xa8) }
    else if name == "Pink"@ { LineColor::Rgb(0xe2, 0x7e, 0xa6) }
    else if name == "Yellow"@ { LineColor::Rgb(0xf9, 0xe3, 0x00) }
    else { LineColor::Gray }
}

/// A line key's color is the brand color of the line the board names it:
/// the color and the name of a key always belong to the same line.
pub proof fn law_key_color_is_its_lines_brand(k: Seq<char>)
    requires
        no_capitals(k),
    ensures
        line_color(k) == brand_color(route_label(k)),
{
    lemma_l_label_key(k);
    law_colored_keys_are_the_l_lines(k);
    reveal_strlit("Red");
    reveal_strlit("Blue");
    reveal_strlit("Brown");
    reveal_strlit("Green");
    reveal_strlit("Orange");
    reveal_strlit("Purple");
    reveal_strlit("Pink");
    reveal_strlit("Yellow");
    if l_line_name(route_label(k)) {
        lemma_l_key_facts(k);
        assert("Red"@.len() == 3 && "Red"@[0] == 'R');
        assert("Blue"@.len() == 4 && "Blue"@[0] == 'B');
        assert("Brown"@.len() == 5 && "Brown"@[0] == 'B');
        assert("Green"@.len() == 5 && "Green"@[0] == 'G');
        assert("Orange"@.len() == 6 && "Orange"@[0] == 'O');
        assert("Purple"@.len() == 6 && "Purple"@[0] == 'P');
        assert("Pink"@.len() == 4 && "Pink"@[0] == 'P');
        assert("Yellow"@.len() == 6 && "Yellow"@[0] == 'Y');
    }
}

/// The status board keeps only 'L' lines: each name it keeps is the
/// route-status feed's name ("<name> Line", in lower case) of a line the
/// board names as an 'L' line, or the Purple Line Express.
pub proof fn law_status_board_keeps_only_l_lines(n: Seq<char>)
    requires
        rail_line_name(n),
    ensures
        n == "purple line express"@ || exists|k: Seq<char>|
            no_capitals(k) && #[trigger] l_line_name(route_label(k)) && n == ascii_lower(route_label(k) + " Line"@),
{
    reveal_strlit("red");
    reveal_strlit("blue");
    reveal_strlit("brn");
    reveal_strlit("g");
    reveal_strlit("org");
    reveal_strlit("p");
    reveal_strlit("pink");
    reveal_strlit("y");
    if n != "purple line express"@ {
        let k = if n == "red line"@ { "red"@ } else if n == "blue line"@ { "blue"@ } else if n == "brown line"@ {
            "brn"@
        } else if n == "green line"@ { "g"@ } else if n == "orange line"@ { "org"@ } else if n == "purple line"@ {
            "p"@
        } else if n == "pink line"@ { "pink"@ } else { "y"@ };
        assert forall|i: int| 0 <= i < k.len() implies !('A' <= #[trigger] k[i] <= 'Z') by {}
        lemma_l_label_key(k);
        law_status_board_keeps_the_l_lines(k);
        reveal_strlit("red line");
        reveal_strlit("blue line");
        reveal_strlit("brown line");
        reveal_strlit("green line");
        reveal_strlit("orange line");
        reveal_strlit("purple line");
        reveal_strlit("pink line");
        reveal_strlit("yellow line");
        lemma_l_key_facts(k);
        reveal_strlit(" Line");
        reveal_strlit("Red");
        reveal_strlit("Blue");
        reveal_strlit("Brown");
        reveal_strlit("Green");
        reveal_strlit("Orange");
        reveal_strlit("Purple");
        reveal_strlit("Pink");
        reveal_strlit("Yellow");
        assert(n == ascii_lower(route_label(k) + " Line"@));
    }
}

/// The value of an ASCII hexadecimal digit.
pub open spec fn hex_digit(b: u8) -> Option<int> {
    if 0x30 <= b <= 0x39 {
        Some(b - 0x30)
    } else if 0x61 <= b <= 0x66 {
        Some(b - 0x61 + 10)
    } else if 0x41 <= b <= 0x46 {
        Some(b - 0x41 + 10)
    } else {
        None
    }
}

/// What `u8::from_str_radix(_, 16)` gives for a text of the two bytes `a b`:
/// a '+' sign may lead.
pub open spec fn hex_pair(a: u8, b: u8) -> Option<u8> {
    if a == 0x2b {
        match hex_digit(b) {
            Some(v) => Some(v as u8),
            None => None,
        }
    } else {
        match (hex_digit(a), hex_digit(b)) {
            (Some(x), Some(y)) => Some((x * 16 + y) as u8),
            _ => None,
        }
    }
}

/// `b` without its leading '#' bytes.
pub open spec fn strip_hashes(b: Seq<u8>) -> Seq<u8>
    decreases b.len(),
{
    if b.len() > 0 && b[0] == 0x23 {
        strip_hashes(b.drop_first())
    } else {
        b
    }
}

/// The color an "#RRGGBB" text (its UTF-8 bytes) names, any number of
/// leading '#' allowed.
pub open spec fn hex_color(b: Seq<u8>) -> Option<LineColor> {
    let r = strip_hashes(b);
    if r.len() != 6 {
        None
    } else {
        match (hex_pair(r[0], r[1]), hex_pair(r[2], r[3]), hex_pair(r[4], r[5])) {
            (Some(x), Some(y), Some(z)) => Some(LineColor::Rgb(x, y, z)),
            _ => None,
        }
    }
}

/// Whether cutting the six bytes into pairs falls inside a character (the
/// cut is made pair by pair and stops at the first pair that does not parse).
pub open spec fn hex_cut_inside_char(b: Seq<u8>) -> bool {
    let r = strip_hashes(b);
    &&& r.len() == 6
    &&& is_continuation_byte(r[2]) || (hex_pair(r[0], r[1]) is Some && is_continuation_byte(r[4]))
}

fn hex_val(b: u8) -> (r: Option<u8>)
    ensures
        match r {
            Some(v) => hex_digit(b) == Some(v as int),
            None => hex_digit(b) is None,
        },
{
    if 0x30 <= b && b <= 0x39 {
        Some(b - 0x30)
    } else if 0x61 <= b && b <= 0x66 {
        Some(b - 0x61 + 10)
    } else if 0x41 <= b && b <= 0x46 {
        Some(b - 0x41 + 10)
    } else {
        None
    }
}

fn pair_val(a: u8, b: u8) -> (r: Option<u8>)
    ensures
        r == hex_pair(a, b),
{
    if a == 0x2b {
        hex_val(b)
    } else {
        match (hex_val(a), hex_val(b)) {
            (Some(x), Some(y)) => Some(x * 16 + y),
            _ => None,
        }
    }
}

/// Parse an "#RRGGBB" color.
pub fn parse_hex(h: &str) -> (c: Option<LineColor>)
    requires
        !hex_cut_inside_char(encode_utf8(h@)),
    ensures
        c == hex_color(encode_utf8(h@)),
{
    let b = h.as_bytes();
    let ghost bs = b@;
    let mut i: usize = 0;
    assert(bs.subrange(0, bs.len() as int) =~= bs);
    while i < b.len() && b[i] == 0x23
        invariant
            bs == b@,
            i <= bs.len(),
            strip_hashes(bs) == strip_hashes(bs.subrange(i as int, bs.len() as int)),
        decreases bs.len() - i,
    {
        assert(bs.subrange(i as int, bs.len() as int).drop_first() =~= bs.subrange(i + 1, bs.len() as int));
        i = i + 1;
    }
    assert(bs.subrange(0, bs.len() as int) =~= bs);
    let ghost r = bs.subrange(i as int, bs.len() as int);
    assert(strip_hashes(r) == r);
    if b.len() - i != 6 {
        return None;
    }
    let x = pair_val(b[i], b[i + 1]);
    let y = pair_val(b[i + 2], b[i + 3]);
    let z = pair_val(b[i + 4], b[i + 5]);
    match (x, y, z) {
        (Some(x), Some(y), Some(z)) => Some(LineColor::Rgb(x, y, z)),
        _ => None,
    }
}

/// The terminal color for a status color from the feed (gray when absent or unreadable).
pub fn status_color(hex: &Option<String>) -> (c: LineColor)
    requires
        hex matches Some(h) ==> !hex_cut_inside_char(encode_utf8(h@)),
    ensures
        c == (match hex {
            Some(h) => match hex_color(encode_utf8(h@)) {
                Some(x) => x,
                None => LineColor::Gray,
            },
            None => LineColor::Gray,
        }),
{
    match hex {
        Some(h) => match parse_hex(h.as_str()) {
            Some(x) => x,
            None => LineColor::Gray,
        },
        None => LineColor::Gray,
    }
}

/// `n` spaces.
pub open spec fn spaces(n: nat) -> Seq<char> {
    Seq::new(n, |i: int| ' ')
}

/// `s` filled out with spaces on the right to at least `w` characters, as a
/// `{:<w}` format does.
pub open spec fn left_aligned(s: Seq<char>, w: nat) -> Seq<char> {
    if s.len() >= w {
        s
    } else {
        s + spaces((w - s.len()) as nat)
    }
}

/// `s` filled out with spaces on the left to at least `w` characters, as a
/// `{:>w}` format does.
pub open spec fn right_aligned(s: Seq<char>, w: nat) -> Seq<char> {
    if s.len() >= w {
        s
    } else {
        spaces((w - s.len()) as nat) + s
    }
}

fn push_spaces(out: &mut String, n: usize)
    ensures
        final(out)@ == old(out)@ + spaces(n as nat),
{
    let mut i: usize = 0;
    while i < n
        invariant
            i <= n,
            out@ == old(out)@ + spaces(i as nat),
        decreases n - i,
    {
        push_char(out, ' ');
        i = i + 1;
        assert(out@ =~= old(out)@ + spaces(i as nat));
    }
}

/// Left-align a text in a column `w` characters wide.
pub fn pad_right(s: &str, w: usize) -> (r: String)
    ensures
        r@ == left_aligned(s@, w as nat),
{
    let n = chars_of(s).len();
    let mut r = s.to_owned();
    if n < w {
        push_spaces(&mut r, w - n);
    }
    r
}

/// Right-align a text in a column `w` characters wide.
pub fn pad_left(s: &str, w: usize) -> (r: String)
    ensures
        r@ == right_aligned(s@, w as nat),
{
    let n = chars_of(s).len();
    let mut r = String::new();
    if n < w {
        push_spaces(&mut r, w - n);
    }
    r.append(s);
    assert(n >= w ==> r@ =~= s@);
    r
}

} // verus!
