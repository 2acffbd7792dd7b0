//! The AI panels: the worker's answer for each panel, how it is checked, the
//! query it is asked with, and the cached state the board reads.

use vstd::prelude::*;
use vstd::string::StringExecFns;
use vstd::utf8::encode_utf8;
use crate::text::{chars_of, push_char, trim, trim_chars};

verus! {

/// Shape of every AI endpoint response (`{summary, count, ...}` or `{error}`).
pub struct AiResp {
    pub summary: Option<String>,
    pub count: Option<i64>,
    pub error: Option<String>,
}

/// Why an AI panel's answer was not taken.
pub enum AiError {
    /// The worker reported an error.
    Remote(String),
    /// The answer carried no text.
    EmptySummary,
}

/// Whether an answer's summary has any text besides white space.
pub open spec fn has_summary(r: AiResp) -> bool {
    r.summary matches Some(s) && trim(s@).len() > 0
}

/// Take a worker answer: its error first, then an answer with no summary
/// text is refused; anything else is accepted as it is.
pub fn check_ai_resp(resp: AiResp) -> (r: Result<AiResp, AiError>)
    ensures
        match r {
            Ok(a) => a == resp && resp.error is None && has_summary(resp),
            Err(AiError::Remote(e)) => resp.error matches Some(m) && e@ == m@,
            Err(AiError::EmptySummary) => resp.error is None && !has_summary(resp),
        },
{
    let err = match &resp.error {
        Some(e) => Some(e.clone()),
        None => None,
    };
    if let Some(e) = err {
        return Err(AiError::Remote(e));
    }
    let blank = match &resp.summary {
        Some(s) => {
            let c = chars_of(s.as_str());
            trim_chars(&c).len() == 0
        },
        None => true,
    };
    if blank {
        Err(AiError::EmptySummary)
    } else {
        Ok(resp)
    }
}

/// Bytes that stand for themselves in a query value.
pub open spec fn unreserved(b: u8) -> bool {
    ||| 0x41 <= b <= 0x5a
    ||| 0x61 <= b <= 0x7a
    ||| 0x30 <= b <= 0x39
    ||| b == 0x2d || b == 0x5f || b == 0x2e || b == 0x7e
}

/// The uppercase hexadecimal digit for a value below 16.
pub open spec fn hex_upper(n: int) -> char {
    if n < 10 { ((n + 0x30) as u8) as char } else { ((n - 10 + 0x41) as u8) as char }
}

/// How one byte is written in a query value.
pub open spec fn encode_byte(b: u8) -> Seq<char> {
    if unreserved(b) {
        seq![b as char]
    } else {
        seq!['%', hex_upper(b as int / 16), hex_upper(b as int % 16)]
    }
}

/// A byte string percent-encoded.
pub open spec fn percent_encoded(bs: Seq<u8>) -> Seq<char>
    decreases bs.len(),
{
    if bs.len() == 0 {
        seq![]
    } else {
        percent_encoded(bs.drop_last()) + encode_byte(bs.last())
    }
}

fn hex_char(n: u8) -> (c: char)
    requires
        n < 16,
    ensures
        c == hex_upper(n as int),
{
    if n < 10 { (n + 0x30) as char } else { (n - 10 + 0x41) as char }
}

/// Minimal percent-encoding for query values (station names contain spaces, `/`).
pub fn urlenc(s: &str) -> (r: String)
    ensures
        r@ == percent_encoded(encode_utf8(s@)),
{
    let b = s.as_bytes();
    let ghost bs = b@;
    let mut out = String::new();
    let mut i: usize = 0;
    while i < b.len()
        invariant
            bs == b@,
            bs == encode_utf8(s@),
            i <= bs.len(),
            out@ == percent_encoded(bs.take(i as int)),
        decreases bs.len() - i,
    {
        let x = b[i];
        assert(bs.take(i + 1).drop_last() =~= bs.take(i as int));
        assert(bs.take(i + 1).last() == x);
        let ghost before = out@;
        if (0x41 <= x && x <= 0x5a) || (0x61 <= x && x <= 0x7a) || (0x30 <= x && x <= 0x39) || x == 0x2d
            || x == 0x5f || x == 0x2e || x == 0x7e {
            push_char(&mut out, x as char);
        } else {
            push_char(&mut out, '%');
            push_char(&mut out, hex_char(x / 16));
            push_char(&mut out, hex_char(x % 16));
        }
        assert(out@ =~= before + encode_byte(x));
        i = i + 1;
    }
    assert(bs.take(bs.len() as int) =~= bs);
    out
}

/// The path that asks for the home station's situation report.
pub fn sitrep_path(mapid: &str, name: &str) -> (p: String)
    ensures
        p@ == "/api/alerts/summary?station="@ + percent_encoded(encode_utf8(mapid@)) + "&stn="@
            + percent_encoded(encode_utf8(name@)),
{
    let mut p = "/api/alerts/summary?station=".to_owned();
    let a = urlenc(mapid);
    p.append(a.as_str());
    p.append("&stn=");
    let b = urlenc(name);
    p.append(b.as_str());
    p
}

/// One AI panel's latest text.
pub struct AiItem {
    pub summary: String,
    pub count: i64,
    /// Epoch seconds.
    pub updated_at: i64,
}

impl Default for AiItem {
    fn default() -> (d: AiItem)
        ensures
            d.summary@.len() == 0,
            d.count == 0,
            d.updated_at == 0,
    {
        AiItem { summary: String::new(), count: 0, updated_at: 0 }
    }
}

/// The three AI panels, as last cached.
pub struct AiState {
    pub dispatch: AiItem,
    pub sitrep: AiItem,
    pub events: AiItem,
}

impl Default for AiState {
    fn default() -> (d: AiState)
        ensures
            d.dispatch.summary@.len() == 0,
            d.sitrep.summary@.len() == 0,
            d.events.summary@.len() == 0,
    {
        AiState { dispatch: AiItem::default(), sitrep: AiItem::default(), events: AiItem::default() }
    }
}

} // verus!
