//! Market-data failures and the requests the market-data client sends.

use vstd::prelude::*;
use vstd::string::*;
use crate::text::{decimal, join, joined, push_decimal, texts};

verus! {

/// Why market data could not be had.
#[derive(Debug)]
pub enum DataError {
    ConnectionFailed(String),
    ParseError(String),
    NotFound(String),
}

/// The human-readable text of a market-data error.
pub open spec fn data_error_text(e: DataError) -> Seq<char> {
    match e {
        DataError::ConnectionFailed(msg) => "Connection failed: "@ + msg@,
        DataError::ParseError(msg) => "Parse error: "@ + msg@,
        DataError::NotFound(msg) => "Not found: "@ + msg@,
    }
}

impl DataError {
    /// The human-readable text of the error.
    pub fn to_string(&self) -> (s: String)
        ensures
            s@ == data_error_text(*self),
    {
        match self {
            DataError::ConnectionFailed(msg) => String::from_str("Connection failed: ").concat(msg.as_str()),
            DataError::ParseError(msg) => String::from_str("Parse error: ").concat(msg.as_str()),
            DataError::NotFound(msg) => String::from_str("Not found: ").concat(msg.as_str()),
        }
    }

    /// The error for a symbol the latest-bars reply did not cover.
    pub fn no_bar_for(symbol: &str) -> (e: DataError)
        ensures
            e matches DataError::NotFound(msg) && msg@ == "No bar for "@ + symbol@,
    {
        DataError::NotFound(String::from_str("No bar for ").concat(symbol))
    }
}

/// The historical-bars request for several symbols: IEX feed, at most `limit`
/// bars per symbol from `start` on.
pub open spec fn bars_request(
    endpoint: Seq<char>,
    symbols: Seq<Seq<char>>,
    timeframe: Seq<char>,
    limit: nat,
    start: Seq<char>,
) -> Seq<char> {
    endpoint + "/v2/stocks/bars?symbols="@ + joined(symbols, ","@) + "&timeframe="@ + timeframe
        + "&limit="@ + decimal(limit) + "&start="@ + start + "&feed=iex"@
}

/// The latest-bar request for several symbols on the IEX feed.
pub open spec fn latest_bars_request(endpoint: Seq<char>, symbols: Seq<Seq<char>>) -> Seq<char> {
    endpoint + "/v2/stocks/bars/latest?symbols="@ + joined(symbols, ","@) + "&feed=iex"@
}

/// The URL of a historical-bars request.
pub fn bars_url(
    endpoint: &str,
    symbols: &Vec<String>,
    timeframe: &str,
    limit: u32,
    start: &str,
) -> (url: String)
    ensures
        url@ == bars_request(endpoint@, texts(symbols@), timeframe@, limit as nat, start@),
{
    let mut url = String::from_str(endpoint);
    url.append("/v2/stocks/bars?symbols=");
    let list = join(symbols, ",");
    url.append(list.as_str());
    url.append("&timeframe=");
    url.append(timeframe);
    url.append("&limit=");
    push_decimal(&mut url, limit as u64);
    url.append("&start=");
    url.append(start);
    url.append("&feed=iex");
    assert(url@ =~= bars_request(endpoint@, texts(symbols@), timeframe@, limit as nat, start@));
    url
}

/// The URL of a latest-bars request.
pub fn latest_bars_url(endpoint: &str, symbols: &Vec<String>) -> (url: String)
    ensures
        url@ == latest_bars_request(endpoint@, texts(symbols@)),
{
    let mut url = String::from_str(endpoint);
    url.append("/v2/stocks/bars/latest?symbols=");
    let list = join(symbols, ",");
    url.append(list.as_str());
    url.append("&feed=iex");
    assert(url@ =~= latest_bars_request(endpoint@, texts(symbols@)));
    url
}

/// Where the latest bars of a tick come from.
#[derive(Clone, Copy, Debug, PartialEq, Eq, Structural)]
pub enum LatestBarsSource {
    /// The latest-bars reply itself.
    Latest,
    /// The newest daily bar of each symbol, fetched one symbol at a time.
    DailyFallback,
}

/// Chooses the source of the latest bars: the latest-bars reply when the
/// request succeeded and the reply carries bars, the daily fallback
/// otherwise (a successful reply that cannot be read is an error instead).
pub fn latest_bars_source(succeeded: bool, has_bars: bool) -> (src: LatestBarsSource)
    ensures
        src == (if succeeded && has_bars {
            LatestBarsSource::Latest
        } else {
            LatestBarsSource::DailyFallback
        }),
{
    if succeeded && has_bars {
        LatestBarsSource::Latest
    } else {
        LatestBarsSource::DailyFallback
    }
}

/// The timeframe and limit of the per-symbol fallback request: one daily bar.
pub fn fallback_request() -> (r: (&'static str, u32))
    ensures
        r.0@ == "1Day"@,
        r.1 == 1,
{
    let tf = "1Day";
    proof {
        reveal_strlit("1Day");
    }
    (tf, 1)
}

/// The bar the fallback keeps for a symbol: the first one returned, if any;
/// a failed request keeps none.
pub fn fallback_bar<T>(bars: Option<Vec<T>>) -> (r: Option<T>)
    ensures
        r == match bars {
            Some(v) => if v@.len() > 0 {
                Some(v@[0])
            } else {
                None
            },
            None => None,
        },
{
    match bars {
        Some(mut v) => {
            if v.len() > 0 {
                Some(v.remove(0))
            } else {
                None
            }
        },
        None => None,
    }
}

} // verus!
