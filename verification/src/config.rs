//! Settings read from the environment, and the text of desktop notifications.

use vstd::prelude::*;
use vstd::string::StringExecFns;
use crate::feed::{all_digits, digits_value};
use crate::model::texts;
use crate::text::{
    chars_of, is_word, lemma_trim_ends, lowercase, push_char, string_of, to_lower, trim, trim_chars, white_space,
};

verus! {

/// The ','-separated fields of `s`, the first continuing `field`.
pub open spec fn fields_from(s: Seq<char>, field: Seq<char>) -> Seq<Seq<char>>
    decreases s.len(),
{
    if s.len() == 0 {
        seq![field]
    } else if s[0] == ',' {
        seq![field] + fields_from(s.drop_first(), seq![])
    } else {
        fields_from(s.drop_first(), field.push(s[0]))
    }
}

/// The trimmed, non-empty fields, in order.
pub open spec fn route_list(fields: Seq<Seq<char>>) -> Seq<Seq<char>>
    decreases fields.len(),
{
    if fields.len() == 0 {
        seq![]
    } else {
        let rest = route_list(fields.drop_last());
        if trim(fields.last()).len() > 0 {
            rest.push(trim(fields.last()))
        } else {
            rest
        }
    }
}

/// The routes to track from a comma-separated setting ("red, g,,blue"):
/// each field trimmed, empty ones dropped.
pub fn parse_routes(setting: &str) -> (routes: Vec<String>)
    ensures
        texts(routes@) == route_list(fields_from(setting@, seq![])),
{
    let c = chars_of(setting);
    let ghost all = fields_from(setting@, seq![]);
    let mut routes: Vec<String> = Vec::new();
    let mut field: Vec<char> = Vec::new();
    let ghost mut done: Seq<Seq<char>> = seq![];
    let mut i: usize = 0;
    assert(c@.skip(0) =~= c@);
    while i < c.len()
        invariant
            c@ == setting@,
            i <= c@.len(),
            all == done + fields_from(c@.skip(i as int), field@),
            texts(routes@) == route_list(done),
        decreases c@.len() - i,
    {
        let ch = c[i];
        assert(c@.skip(i as int).drop_first() =~= c@.skip(i + 1));
        assert(c@.skip(i as int)[0] == ch);
        if ch == ',' {
            let t = trim_chars(&field);
            let ghost before = texts(routes@);
            if t.len() > 0 {
                routes.push(string_of(&t));
                assert(texts(routes@) =~= before.push(t@));
            }
            proof {
                let nd = done.push(field@);
                assert(nd.drop_last() =~= done);
                done = nd;
            }
            field = Vec::new();
            assert(field@ =~= Seq::<char>::empty());
        } else {
            field.push(ch);
        }
        i = i + 1;
    }
    assert(c@.skip(i as int).len() == 0);
    let t = trim_chars(&field);
    let ghost before = texts(routes@);
    if t.len() > 0 {
        routes.push(string_of(&t));
        assert(texts(routes@) =~= before.push(t@));
    }
    proof {
        let nd = done.push(field@);
        assert(nd.drop_last() =~= done);
        assert(all == nd);
    }
    routes
}

/// No routes in the list are empty or padded with white space.
proof fn lemma_route_list_trimmed(fields: Seq<Seq<char>>)
    ensures
        forall|i: int|
            0 <= i < route_list(fields).len() ==> {
                let r = #[trigger] route_list(fields)[i];
                r.len() > 0 && !white_space(r[0]) && !white_space(r.last())
            },
    decreases fields.len(),
{
    if fields.len() > 0 {
        lemma_route_list_trimmed(fields.drop_last());
        lemma_trim_ends(fields.last());
        let rest = route_list(fields.drop_last());
        if trim(fields.last()).len() > 0 {
            assert forall|i: int| 0 <= i < rest.len() implies #[trigger] route_list(fields)[i] == rest[i] by {}
        }
    }
}

/// Every route read from a setting is non-empty, with no white space at
/// either end.
pub proof fn law_routes_are_trimmed(setting: Seq<char>)
    ensures
        forall|i: int|
            0 <= i < route_list(fields_from(setting, seq![])).len() ==> {
                let r = #[trigger] route_list(fields_from(setting, seq![]))[i];
                r.len() > 0 && !white_space(r[0]) && !white_space(r.last())
            },
{
    lemma_route_list_trimmed(fields_from(setting, seq![]));
}

/// Whether a switch setting turns the feature off: "0", "false" or "off",
/// case-insensitively.
pub open spec fn switched_off(v: Seq<char>) -> bool {
    let l = lowercase(v);
    l == "0"@ || l == "false"@ || l == "off"@
}

/// Whether a switch setting turns the feature off.
pub fn is_switched_off(v: &str) -> (off: bool)
    ensures
        off == switched_off(v@),
{
    let low = to_lower(v);
    let l = chars_of(low.as_str());
    is_word(&l, "0") || is_word(&l, "false") || is_word(&l, "off")
}

/// Whether an icon setting names a file (it holds a '/').
pub open spec fn icon_is_path(icon: Seq<char>) -> bool {
    icon.contains('/')
}

fn has_slash(s: &str) -> (r: bool)
    ensures
        r == icon_is_path(s@),
{
    let c = chars_of(s);
    let mut i: usize = 0;
    while i < c.len()
        invariant
            c@ == s@,
            i <= c@.len(),
            forall|k: int| 0 <= k < i ==> c@[k] != '/',
        decreases c@.len() - i,
    {
        if c[i] == '/' {
            return true;
        }
        i = i + 1;
    }
    false
}

/// Whether an icon setting names a file rather than a short text to prefix.
pub fn icon_names_file(icon: &str) -> (r: bool)
    ensures
        r == icon_is_path(icon@),
{
    has_slash(icon)
}

/// A notification title on a desktop whose notifier takes no icon: a short
/// text icon is prefixed to the title; an empty or file icon is not.
pub fn icon_title(icon: &str, title: &str) -> (t: String)
    ensures
        t@ == (if icon@.len() == 0 || icon_is_path(icon@) { title@ } else { icon@ + " "@ + title@ }),
{
    if icon.is_empty() || has_slash(icon) {
        title.to_owned()
    } else {
        let mut t = icon.to_owned();
        t.append(" ");
        t.append(title);
        t
    }
}

/// A notification title on a desktop whose notifier takes an icon file: the
/// text icon prefixed, then trimmed; the title alone when the icon is a file.
pub fn desktop_title(icon: &str, title: &str) -> (t: String)
    ensures
        t@ == (if icon_is_path(icon@) { title@ } else { trim(icon@ + " "@ + title@) }),
{
    if has_slash(icon) {
        title.to_owned()
    } else {
        let mut t = icon.to_owned();
        t.append(" ");
        t.append(title);
        let c = chars_of(t.as_str());
        let r = trim_chars(&c);
        string_of(&r)
    }
}

/// A text with backslashes and double quotes escaped by a backslash.
pub open spec fn quoted(s: Seq<char>) -> Seq<char>
    decreases s.len(),
{
    if s.len() == 0 {
        seq![]
    } else {
        let c = s.last();
        quoted(s.drop_last()) + (if c == '\\' { seq!['\\', '\\'] } else if c == '"' { seq!['\\', '"'] } else { seq![c] })
    }
}

/// Escape a text for a double-quoted script string.
pub fn escape_quoted(s: &str) -> (r: String)
    ensures
        r@ == quoted(s@),
{
    let c = chars_of(s);
    let mut out = String::new();
    let mut i: usize = 0;
    while i < c.len()
        invariant
            c@ == s@,
            i <= c@.len(),
            out@ == quoted(c@.take(i as int)),
        decreases c@.len() - i,
    {
        let ch = c[i];
        assert(c@.take(i + 1).drop_last() =~= c@.take(i as int));
        assert(c@.take(i + 1).last() == ch);
        let ghost before = out@;
        if ch == '\\' {
            push_char(&mut out, '\\');
            push_char(&mut out, '\\');
        } else if ch == '"' {
            push_char(&mut out, '\\');
            push_char(&mut out, '"');
        } else {
            push_char(&mut out, ch);
        }
        assert(out@ =~= quoted(c@.take(i + 1)));
        i = i + 1;
    }
    assert(c@.take(c@.len() as int) =~= c@);
    out
}

/// The script that shows a notification with a body and a title.
pub fn notification_script(body: &str, title: &str) -> (script: String)
    ensures
        script@ == "display notification \""@ + quoted(body@) + "\" with title \""@ + quoted(title@) + "\""@,
{
    let mut s = "display notification \"".to_owned();
    let b = escape_quoted(body);
    s.append(b.as_str());
    s.append("\" with title \"");
    let t = escape_quoted(title);
    s.append(t.as_str());
    s.append("\"");
    s
}

/// What `str::parse::<u64>` accepts: an optional '+', then one or more ASCII
/// digits whose value fits in 64 bits.
pub open spec fn parse_u64_spec(s: Seq<char>) -> Option<u64> {
    let d = if s.len() > 0 && s[0] == '+' { s.drop_first() } else { s };
    if d.len() > 0 && all_digits(d) && digits_value(d) <= u64::MAX {
        Some(digits_value(d) as u64)
    } else {
        None
    }
}

/// What `str::parse::<i64>` accepts: an optional sign, then one or more ASCII
/// digits whose signed value fits in 64 bits.
pub open spec fn parse_i64_spec(s: Seq<char>) -> Option<i64> {
    if s.len() > 0 && s[0] == '-' {
        let d = s.drop_first();
        if d.len() > 0 && all_digits(d) && digits_value(d) <= 0x8000_0000_0000_0000 {
            Some((-digits_value(d)) as i64)
        } else {
            None
        }
    } else {
        let d = if s.len() > 0 && s[0] == '+' { s.drop_first() } else { s };
        if d.len() > 0 && all_digits(d) && digits_value(d) <= i64::MAX {
            Some(digits_value(d) as i64)
        } else {
            None
        }
    }
}

/// The value of the characters of `c` from `start` on, read as a run of one
/// or more decimal digits whose value is at most `limit`.
fn digits_upto(c: &Vec<char>, start: usize, limit: u64) -> (r: Option<u64>)
    requires
        start <= c@.len(),
    ensures
        ({
            let d = c@.skip(start as int);
            match r {
                Some(v) => d.len() > 0 && all_digits(d) && digits_value(d) <= limit && v == digits_value(d),
                None => !(d.len() > 0 && all_digits(d) && digits_value(d) <= limit),
            }
        }),
{
    let ghost d = c@.skip(start as int);
    if start >= c.len() {
        return None;
    }
    let mut value: u128 = 0;
    let mut over = false;
    let mut i: usize = start;
    while i < c.len()
        invariant
            d == c@.skip(start as int),
            start <= i <= c@.len(),
            all_digits(d.take(i - start)),
            over ==> digits_value(d.take(i - start)) > limit,
            !over ==> value == digits_value(d.take(i - start)) && value <= limit,
        decreases c@.len() - i,
    {
        let ch = c[i];
        if ch < '0' || ch > '9' {
            assert(d[i - start] == ch);
            return None;
        }
        let ghost k = i - start;
        assert(d.take(k + 1).drop_last() =~= d.take(k));
        assert(d.take(k + 1).last() == ch);
        let digit = (ch as u128) - ('0' as u128);
        if !over {
            let next = value * 10 + digit;
            if next > limit as u128 {
                over = true;
            } else {
                value = next;
            }
        }
        i = i + 1;
    }
    assert(d.take(d.len() as int) =~= d);
    if over {
        None
    } else {
        Some(value as u64)
    }
}

/// Parse a decimal `u64` as `str::parse` does.
pub fn parse_u64(s: &str) -> (r: Option<u64>)
    ensures
        r == parse_u64_spec(s@),
{
    let c = chars_of(s);
    let start: usize = if c.len() > 0 && c[0] == '+' { 1 } else { 0 };
    assert(c@.skip(start as int) =~= (if s@.len() > 0 && s@[0] == '+' { s@.drop_first() } else { s@ }));
    digits_upto(&c, start, u64::MAX)
}

/// Parse a decimal `i64` as `str::parse` does.
pub fn parse_i64(s: &str) -> (r: Option<i64>)
    ensures
        r == parse_i64_spec(s@),
{
    let c = chars_of(s);
    if c.len() > 0 && c[0] == '-' {
        assert(c@.skip(1) =~= s@.drop_first());
        match digits_upto(&c, 1, 0x8000_0000_0000_0000) {
            Some(v) => {
                if v == 0x8000_0000_0000_0000 {
                    Some(i64::MIN)
                } else {
                    Some(-(v as i64))
                }
            },
            None => None,
        }
    } else {
        let start: usize = if c.len() > 0 && c[0] == '+' { 1 } else { 0 };
        assert(c@.skip(start as int) =~= (if s@.len() > 0 && s@[0] == '+' { s@.drop_first() } else { s@ }));
        match digits_upto(&c, start, 0x7fff_ffff_ffff_ffff) {
            Some(v) => Some(v as i64),
            None => None,
        }
    }
}

/// The routes tracked when none are set.
pub const DEFAULT_ROUTES: &'static str = "red,blue,brn,g,org,p,pink,y";

/// The home station's map id when none is set (Kedzie, Green Line).
pub const DEFAULT_HOME_MAPID: &'static str = "41070";

/// The home panel's label when none is set.
pub const DEFAULT_HOME_NAME: &'static str = "Kedzie";

/// Seconds between polls when none is set.
pub const DEFAULT_REFRESH_SECS: u64 = 30;

/// The approach bell's threshold in minutes when none is set.
pub const DEFAULT_ALERT_MIN: i64 = 6;

/// The board's settings.
pub struct Settings {
    pub routes: Vec<String>,
    pub home_mapid: String,
    pub home_name: String,
    /// Seconds between polls.
    pub refresh: u64,
    /// Approach bell threshold in minutes (0 or less turns it off).
    pub alert_min: i64,
    /// Desktop delay notifications.
    pub notify_enabled: bool,
    /// The regional (Metra and South Shore) boards.
    pub metra: bool,
}

/// A setting's text, or `default` when it is not set.
pub open spec fn or_default(v: Option<String>, default: Seq<char>) -> Seq<char> {
    match v {
        Some(s) => s@,
        None => default,
    }
}

fn text_or(v: Option<String>, default: &str) -> (r: String)
    ensures
        r@ == or_default(v, default@),
{
    match v {
        Some(s) => s,
        None => default.to_owned(),
    }
}

/// Read the settings from the raw values of `CTA_ROUTES`, `CTA_HOME_MAPID`,
/// `CTA_HOME_NAME`, `CTA_REFRESH`, `CTA_ALERT_MIN`, `CTA_NOTIFY` and
/// `CTA_METRA` (`None` for one that is not set): unset or unparsable numbers
/// take their defaults, and the two switches are on unless switched off.
pub fn settings_from(
    routes: Option<String>,
    home_mapid: Option<String>,
    home_name: Option<String>,
    refresh: Option<String>,
    alert_min: Option<String>,
    notify: Option<String>,
    metra: Option<String>,
) -> (s: Settings)
    ensures
        texts(s.routes@) == route_list(fields_from(or_default(routes, DEFAULT_ROUTES@), seq![])),
        s.home_mapid@ == or_default(home_mapid, DEFAULT_HOME_MAPID@),
        s.home_name@ == or_default(home_name, DEFAULT_HOME_NAME@),
        s.refresh == (match refresh {
            Some(v) => match parse_u64_spec(v@) {
                Some(n) => n,
                None => DEFAULT_REFRESH_SECS,
            },
            None => DEFAULT_REFRESH_SECS,
        }),
        s.alert_min == (match alert_min {
            Some(v) => match parse_i64_spec(v@) {
                Some(n) => n,
                None => DEFAULT_ALERT_MIN,
            },
            None => DEFAULT_ALERT_MIN,
        }),
        s.notify_enabled == !switched_off(or_default(notify, seq![])),
        s.metra == !switched_off(or_default(metra, seq![])),
{
    let route_text = text_or(routes, DEFAULT_ROUTES);
    let routes = parse_routes(route_text.as_str());
    let refresh = match refresh {
        Some(v) => match parse_u64(v.as_str()) {
            Some(n) => n,
            None => DEFAULT_REFRESH_SECS,
        },
        None => DEFAULT_REFRESH_SECS,
    };
    let alert_min = match alert_min {
        Some(v) => match parse_i64(v.as_str()) {
            Some(n) => n,
            None => DEFAULT_ALERT_MIN,
        },
        None => DEFAULT_ALERT_MIN,
    };
    let notify_text = text_or(notify, "");
    let metra_text = text_or(metra, "");
    proof {
        reveal_strlit("");
        assert(""@ =~= Seq::<char>::empty());
    }
    Settings {
        routes,
        home_mapid: text_or(home_mapid, DEFAULT_HOME_MAPID),
        home_name: text_or(home_name, DEFAULT_HOME_NAME),
        refresh,
        alert_min,
        notify_enabled: !is_switched_off(notify_text.as_str()),
        metra: !is_switched_off(metra_text.as_str()),
    }
}

/// Whether an API key setting is missing: empty once trimmed.
pub fn key_missing(key: &str) -> (missing: bool)
    ensures
        missing == (trim(key@).len() == 0),
{
    let c = chars_of(key);
    let t = trim_chars(&c);
    t.len() == 0
}

} // verus!
