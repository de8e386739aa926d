//! The discrete rules of the trading strategies: how price buffers grow and
//! shrink, when estimates are recomputed, which prices a momentum reading
//! compares, how a stationarity test result is graded, and the progress
//! lines of the diagnostics.

use vstd::prelude::*;
use vstd::string::*;
use crate::text::{decimal, push_decimal};

verus! {

/// How strongly an augmented Dickey-Fuller test rejects a unit root.
#[derive(Clone, Copy, Debug, PartialEq, Eq, Structural)]
pub enum AdfConfidence {
    NoRejection,
    TenPercent,
    FivePercent,
    OnePercent,
}

impl AdfConfidence {
    /// Grades a test result by the strictest level at which it rejects.
    pub fn from_rejections(reject_1pct: bool, reject_5pct: bool, reject_10pct: bool) -> (c: Self)
        ensures
            c == (if reject_1pct {
                AdfConfidence::OnePercent
            } else if reject_5pct {
                AdfConfidence::FivePercent
            } else if reject_10pct {
                AdfConfidence::TenPercent
            } else {
                AdfConfidence::NoRejection
            }),
    {
        if reject_1pct {
            AdfConfidence::OnePercent
        } else if reject_5pct {
            AdfConfidence::FivePercent
        } else if reject_10pct {
            AdfConfidence::TenPercent
        } else {
            AdfConfidence::NoRejection
        }
    }

    /// Whether the test rejected a unit root at any level.
    pub fn is_stationary(self) -> (b: bool)
        ensures
            b == !(self is NoRejection),
    {
        !matches!(self, AdfConfidence::NoRejection)
    }
}

/// Bars a mean-reversion symbol needs before it can be estimated: one more
/// than the rolling window, the window counting as at least 1.
pub open spec fn bars_needed(window: i32) -> int {
    (if window < 1 {
        1
    } else {
        window as int
    }) + 1
}

/// Bars needed before a window of this size can be estimated.
pub fn min_bars(window: i32) -> (n: usize)
    ensures
        n == bars_needed(window),
{
    let w: i32 = if window < 1 {
        1
    } else {
        window
    };
    w as usize + 1
}

/// Whether the `count`-th bar of a symbol triggers a recomputation: every
/// `interval`-th bar does, an interval of 0 counting as 1.
pub fn recompute_due(count: usize, interval: usize) -> (b: bool)
    ensures
        b == (count as int % (if interval == 0 {
            1
        } else {
            interval as int
        }) == 0),
{
    let every: usize = if interval == 0 {
        1
    } else {
        interval
    };
    count % every == 0
}

/// The buffer after appending `x` and, if it then exceeds `max_len`,
/// dropping its oldest element.
pub open spec fn bounded_push<T>(buffer: Seq<T>, x: T, max_len: nat) -> Seq<T> {
    let pushed = buffer.push(x);
    if pushed.len() > max_len {
        pushed.drop_first()
    } else {
        pushed
    }
}

/// Appends `x`, dropping the oldest element when the buffer would exceed
/// `max_len`.
pub fn push_bounded<T>(buffer: &mut Vec<T>, x: T, max_len: usize)
    ensures
        final(buffer)@ == bounded_push(old(buffer)@, x, max_len as nat),
{
    buffer.push(x);
    if buffer.len() > max_len {
        let _oldest = buffer.remove(0);
        assert(buffer@ =~= bounded_push(old(buffer)@, x, max_len as nat));
    }
}

/// A bounded buffer never grows past its bound, and always ends with the
/// newest element when the bound is at least 1.
pub proof fn law_bounded_push_stays_bounded<T>(buffer: Seq<T>, x: T, max_len: nat)
    requires
        buffer.len() <= max_len,
    ensures
        bounded_push(buffer, x, max_len).len() <= max_len,
        bounded_push(buffer, x, max_len).len() == (if buffer.len() < max_len {
            buffer.len() + 1int
        } else {
            max_len as int
        }),
        max_len >= 1 ==> bounded_push(buffer, x, max_len).last() == x,
{
}

/// The price history after appending `x` and, once it holds more than
/// `lookback + 10` prices, dropping the ten oldest.
pub open spec fn trimmed_push<T>(history: Seq<T>, x: T, lookback: nat) -> Seq<T> {
    let pushed = history.push(x);
    if pushed.len() > lookback + 10 {
        pushed.skip(10)
    } else {
        pushed
    }
}

/// Appends `x` to a momentum price history, dropping the ten oldest prices
/// when it grows past `lookback + 10`.
pub fn push_trimmed<T>(history: &mut Vec<T>, x: T, lookback: usize)
    requires
        lookback <= usize::MAX - 10,
    ensures
        final(history)@ == trimmed_push(old(history)@, x, lookback as nat),
{
    history.push(x);
    if history.len() > lookback + 10 {
        let rest = history.split_off(10);
        *history = rest;
        assert(history@ =~= trimmed_push(old(history)@, x, lookback as nat));
    }
}

/// Whether the `count`-th bar of a symbol, with `buffered` prices retained,
/// leads to an estimate: enough prices for the window, and a recomputation
/// due on this bar.
pub open spec fn estimate_due(buffered: nat, count: nat, window: i32, interval: usize) -> bool {
    buffered >= bars_needed(window) && count as int % (if interval == 0 {
        1
    } else {
        interval as int
    }) == 0
}

/// The prices a mean-reversion strategy retains for one symbol, and how many
/// bars of it it has seen since it was created or reset.
pub struct BarWindow<T> {
    prices: Vec<T>,
    seen: usize,
}

impl<T> BarWindow<T> {
    /// The retained prices, oldest first.
    pub closed spec fn price_seq(&self) -> Seq<T> {
        self.prices@
    }

    /// The bars seen.
    pub closed spec fn seen_count(&self) -> nat {
        self.seen as nat
    }

    /// No prices, no bars seen.
    pub fn new() -> (w: Self)
        ensures
            w.price_seq() == Seq::<T>::empty(),
            w.seen_count() == 0,
    {
        BarWindow { prices: Vec::new(), seen: 0 }
    }

    /// The retained prices, oldest first.
    pub fn prices(&self) -> (p: &Vec<T>)
        ensures
            p@ == self.price_seq(),
    {
        &self.prices
    }

    /// The bars seen.
    pub fn seen(&self) -> (n: usize)
        ensures
            n == self.seen_count(),
    {
        self.seen
    }

    /// Takes the close of a new bar: retains it (dropping the oldest price
    /// past `max_buffer`), counts the bar, and says whether an estimate is due.
    pub fn record(&mut self, close: T, max_buffer: usize, window: i32, interval: usize) -> (due: bool)
        requires
            old(self).seen_count() < usize::MAX,
        ensures
            final(self).price_seq() == bounded_push(old(self).price_seq(), close, max_buffer as nat),
            final(self).seen_count() == old(self).seen_count() + 1,
            due == estimate_due(final(self).price_seq().len(), final(self).seen_count(), window, interval),
    {
        push_bounded(&mut self.prices, close, max_buffer);
        self.seen = self.seen + 1;
        let buffered = self.prices.len();
        buffered >= min_bars(window) && recompute_due(self.seen, interval)
    }
}

/// The prices retained after a run of closes, starting from none.
pub open spec fn retained<T>(closes: Seq<T>, max_buffer: nat) -> Seq<T>
    decreases closes.len(),
{
    if closes.len() == 0 {
        Seq::empty()
    } else {
        bounded_push(retained(closes.drop_last(), max_buffer), closes.last(), max_buffer)
    }
}

/// After `n` closes of a symbol the window retains the last
/// `min(n, max_buffer)` of them, oldest first; an estimate is due on the
/// `n`-th bar only when `n` is past the window (at least `bars_needed`) and a
/// multiple of the recompute interval, so the first `window` bars of a symbol
/// never give one.
pub proof fn law_bar_window<T>(closes: Seq<T>, max_buffer: nat, window: i32, interval: usize)
    ensures
        retained(closes, max_buffer) == closes.subrange(
            closes.len() - (if closes.len() < max_buffer { closes.len() as int } else { max_buffer as int }),
            closes.len() as int,
        ),
        estimate_due(retained(closes, max_buffer).len(), closes.len(), window, interval)
            ==> closes.len() >= bars_needed(window) && closes.len() > window as int && closes.len() >= 2
            && closes.len() as int % (if interval == 0 {
                1
            } else {
                interval as int
            }) == 0,
        estimate_due(retained(closes, max_buffer).len(), closes.len(), window, interval)
            ==> retained(closes, max_buffer).len() > window as int,
    decreases closes.len(),
{
    if closes.len() > 0 {
        law_bar_window(closes.drop_last(), max_buffer, window, interval);
        let prev = closes.drop_last();
        let n = closes.len() as int;
        let m = if prev.len() < max_buffer { prev.len() as int } else { max_buffer as int };
        let r = retained(prev, max_buffer);
        assert(r == prev.subrange(prev.len() - m, prev.len() as int));
        let pushed = r.push(closes.last());
        if pushed.len() > max_buffer {
            assert(pushed.drop_first() =~= closes.subrange(n - max_buffer, n));
        } else {
            assert(pushed =~= closes.subrange(n - (m + 1), n));
        }
    } else {
        assert(closes.subrange(0, 0) =~= Seq::<T>::empty());
    }
}

/// A trimmed history stays within `lookback + 10` prices, holds more than
/// `lookback` (enough for a momentum reading) once it has held `lookback`,
/// and ends with the newest price.
pub proof fn law_trimmed_push_window<T>(history: Seq<T>, x: T, lookback: nat)
    requires
        history.len() <= lookback + 10,
    ensures
        trimmed_push(history, x, lookback).len() <= lookback + 10,
        history.len() >= lookback ==> trimmed_push(history, x, lookback).len() > lookback,
        trimmed_push(history, x, lookback).last() == x,
{
}

/// The two prices a momentum reading compares: the newest close and the
/// close `lookback` bars before it (`prices[len - 1 - lookback]`); none until
/// more than `lookback` prices are known.
pub open spec fn momentum_pair<T>(prices: Seq<T>, lookback: nat) -> Option<(T, T)> {
    if prices.len() <= lookback {
        None
    } else {
        Some((prices.last(), prices[prices.len() - 1 - lookback]))
    }
}

/// The newest close and the close `lookback` bars before it, when known.
pub fn momentum_prices<T: Copy>(prices: &[T], lookback: usize) -> (r: Option<(T, T)>)
    ensures
        r == momentum_pair(prices@, lookback as nat),
{
    let n = prices.len();
    if n <= lookback {
        return None;
    }
    let current = prices[n - 1];
    let past = prices[n - 1 - lookback];
    Some((current, past))
}

/// `<symbol>: warming up, <have>/<need> bars`.
pub open spec fn warming_up_text(symbol: Seq<char>, have: nat, need: nat) -> Seq<char> {
    symbol + ": warming up, "@ + decimal(have) + "/"@ + decimal(need) + " bars"@
}

/// `<symbol>: <have> bars, no estimate yet`.
pub open spec fn no_estimate_text(symbol: Seq<char>, have: nat) -> Seq<char> {
    symbol + ": "@ + decimal(have) + " bars, no estimate yet"@
}

/// The diagnostics line of a symbol that has not buffered enough bars.
pub fn warming_up_line(symbol: &str, have: usize, need: usize) -> (s: String)
    ensures
        s@ == warming_up_text(symbol@, have as nat, need as nat),
{
    let mut s = String::from_str(symbol);
    s.append(": warming up, ");
    push_decimal(&mut s, have as u64);
    s.append("/");
    push_decimal(&mut s, need as u64);
    s.append(" bars");
    assert(s@ =~= warming_up_text(symbol@, have as nat, need as nat));
    s
}

/// The diagnostics line of a symbol with enough bars but no estimate yet.
pub fn no_estimate_line(symbol: &str, have: usize) -> (s: String)
    ensures
        s@ == no_estimate_text(symbol@, have as nat),
{
    let mut s = String::from_str(symbol);
    s.append(": ");
    push_decimal(&mut s, have as u64);
    s.append(" bars, no estimate yet");
    assert(s@ =~= no_estimate_text(symbol@, have as nat));
    s
}

} // verus!
