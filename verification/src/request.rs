//! The addresses a poll asks: each feed's URL with its query string.

use vstd::prelude::*;
use vstd::string::StringExecFns;
use crate::model::texts;
use crate::text::{join_texts, joined};

verus! {

/// The live positions of the trains on `routes`.
pub fn positions_url(key: &str, routes: &[String]) -> (url: String)
    ensures
        url@ == "https://lapi.transitchicago.com/api/1.0/ttpositions.aspx?key="@ + key@ + "&rt="@ + joined(
            texts(routes@),
            ","@,
        ) + "&outputType=JSON"@,
{
    let mut url = "https://lapi.transitchicago.com/api/1.0/ttpositions.aspx?key=".to_owned();
    url.append(key);
    url.append("&rt=");
    let r = join_texts(routes, ",");
    url.append(r.as_str());
    url.append("&outputType=JSON");
    url
}

/// The predicted arrivals at one station, by its map id.
pub fn arrivals_url(key: &str, mapid: &str) -> (url: String)
    ensures
        url@ == "https://lapi.transitchicago.com/api/1.0/ttarrivals.aspx?key="@ + key@ + "&mapid="@ + mapid@
            + "&outputType=JSON"@,
{
    let mut url = "https://lapi.transitchicago.com/api/1.0/ttarrivals.aspx?key=".to_owned();
    url.append(key);
    url.append("&mapid=");
    url.append(mapid);
    url.append("&outputType=JSON");
    url
}

/// The active customer alerts for a list of routes (no key needed).
pub fn alerts_url(routes: &[String]) -> (url: String)
    ensures
        url@ == "https://www.transitchicago.com/api/1.0/alerts.aspx?activeonly=true&routeid="@ + joined(
            texts(routes@),
            ","@,
        ) + "&outputType=JSON"@,
{
    let mut url = "https://www.transitchicago.com/api/1.0/alerts.aspx?activeonly=true&routeid=".to_owned();
    let r = join_texts(routes, ",");
    url.append(r.as_str());
    url.append("&outputType=JSON");
    url
}

} // verus!
