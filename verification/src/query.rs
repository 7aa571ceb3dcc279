//! Requests for the bars of a token.

use crate::active::book_of;
use crate::active::ActiveKlines;
use crate::active::Books;
use crate::interval::interval_start;
use crate::interval::interval_start_ts;
use crate::interval::interval_value;
use crate::interval::is_active;
use crate::interval::is_active_interval;
use crate::interval::one_and_five_minutes_are_active;
use crate::interval::parse_interval_to_seconds;
use crate::kline::bars;
use crate::kline::Kline;
use crate::kline::KlineView;
use crate::series::found_by_start;
use crate::series::generate_klines;
use crate::series::kline_series;
use crate::series::has_bar;
use crate::series::lemma_insert;
use crate::series::lemma_replace;
use crate::series::lists;
use crate::transaction::trades;
use crate::transaction::Transaction;
use crate::transaction::TransactionView;
use vstd::prelude::*;

verus! {

/// Why a request is refused.
#[derive(Debug)]
pub enum QueryError {
    /// The interval is not a number followed by a unit, or has too many seconds.
    InvalidInterval(String),
    /// The interval has no length.
    ZeroInterval,
}

impl QueryError {
    /// The text that the client is shown.
    pub open spec fn text(&self) -> Seq<char> {
        match self {
            QueryError::InvalidInterval(interval) => "无效的时间间隔格式: "@ + interval@
                + ". 支持的格式例如: 1s, 1m, 5m, 1h, 1d"@,
            QueryError::ZeroInterval => "时间间隔不能为零"@,
        }
    }

    /// The text to show the client.
    pub fn message(&self) -> (message: String)
        ensures
            message@ == self.text(),
            match self {
                QueryError::InvalidInterval(interval) => message@ == "无效的时间间隔格式: "@
                    + interval@ + ". 支持的格式例如: 1s, 1m, 5m, 1h, 1d"@,
                QueryError::ZeroInterval => message@ == "时间间隔不能为零"@,
            },
    {
        match self {
            QueryError::InvalidInterval(interval) => {
                let mut message = "无效的时间间隔格式: ".to_owned();
                message.append(interval.as_str());
                message.append(". 支持的格式例如: 1s, 1m, 5m, 1h, 1d");
                message
            },
            QueryError::ZeroInterval => "时间间隔不能为零".to_owned(),
        }
    }
}

/// A list of bars with the current bar in it: in place of the last one where the two start
/// together, at the end where it starts later, and left out where it starts earlier.
pub open spec fn with_current(bars: Seq<KlineView>, current: KlineView) -> Seq<KlineView> {
    if bars.len() == 0 || bars.last().timestamp < current.timestamp {
        bars.push(current)
    } else if bars.last().timestamp == current.timestamp {
        bars.drop_last().push(current)
    } else {
        bars
    }
}

/// Puts the current bar into a list of bars.
pub fn merge_current_kline(klines: &mut Vec<Kline>, current: &Kline)
    ensures
        bars(final(klines)@) == with_current(bars(old(klines)@), current@),
{
    let ghost before = bars(klines@);
    let n: usize = klines.len();
    if n == 0 {
        klines.push(current.clone());
        assert(bars(klines@) =~= before.push(current@));
    } else {
        let last: u64 = klines[n - 1].timestamp;
        assert(before.last().timestamp == last);
        if last == current.timestamp {
            klines.set(n - 1, current.clone());
            assert(bars(klines@) =~= before.drop_last().push(current@));
        } else if current.timestamp > last {
            klines.push(current.clone());
            assert(bars(klines@) =~= before.push(current@));
        }
    }
}

/// The bars that a request is answered with. For an active interval the bar of the bucket that
/// holds the time `now` is taken from the active bars, unless a later bar is there.
pub open spec fn answer(
    history: Seq<TransactionView>,
    active: Books,
    token_id: Seq<char>,
    interval: u64,
    now: u64,
) -> Map<u64, KlineView> {
    let series = kline_series(history, token_id, interval);
    let book = book_of(active, token_id);
    let start = interval_start(now, interval);
    if is_active(interval) && book.contains_key(start) && (forall|s: u64| #[trigger]
        series.contains_key(s) ==> s <= start) {
        series.insert(start, book[start])
    } else {
        series
    }
}

/// Putting the current bar into a list of a series adds it to the series, in place of the bar
/// of the same start, unless the series has a later bar.
pub proof fn current_bar_joins_series(
    bars: Seq<KlineView>,
    series: Map<u64, KlineView>,
    current: KlineView,
)
    requires
        lists(bars, series),
    ensures
        lists(
            with_current(bars, current),
            if forall|s: u64| #[trigger] series.contains_key(s) ==> s <= current.timestamp {
                series.insert(current.timestamp, current)
            } else {
                series
            },
        ),
{
    let n = bars.len() as int;
    if n > 0 {
        found_by_start(bars, n - 1);
        assert forall|s: u64| #[trigger] series.contains_key(s) implies s
            <= bars.last().timestamp by {
            assert(has_bar(bars, s));
            let i = choose|i: int| 0 <= i < bars.len() && (#[trigger] bars[i]).timestamp == s;
            assert(i < n - 1 ==> bars[i].timestamp < bars[n - 1].timestamp);
        }
    }
    if n == 0 || bars.last().timestamp < current.timestamp {
        assert(n > 0 ==> forall|i: int|
            0 <= i < n - 1 ==> (#[trigger] bars[i]).timestamp < bars[n - 1].timestamp);
        lemma_insert(bars, n, current);
        assert(bars.insert(n, current) =~= bars.push(current));
        assert forall|s: u64| #[trigger] series.contains_key(s) implies s
            <= current.timestamp by {
            assert(has_bar(bars, s));
        }
    } else if bars.last().timestamp == current.timestamp {
        lemma_replace(bars, n - 1, current);
        assert(bars.update(n - 1, current) =~= bars.drop_last().push(current));
    } else {
        assert(series.contains_key(bars[n - 1].timestamp));
    }
}

/// Answers a request for the bars of a token. `transactions` are all the trades, in the order in
/// which they were made, and `now_ts` is the time of the request.
pub fn get_klines(
    token_id: &str,
    interval: &str,
    transactions: &[Transaction],
    active_klines: &ActiveKlines,
    now_ts: u64,
) -> (result: Result<Vec<Kline>, QueryError>)
    requires
        active_klines.well_formed(),
    ensures
        match interval_value(interval@) {
            None => result matches Err(QueryError::InvalidInterval(text)) && text@ == interval@,
            Some(seconds) => if seconds == 0 {
                result matches Err(QueryError::ZeroInterval)
            } else {
                result matches Ok(klines) && lists(
                    bars(klines@),
                    answer(
                        trades(transactions@),
                        active_klines@,
                        token_id@,
                        seconds,
                        now_ts,
                    ),
                )
            },
        },
{
    let interval_seconds: u64 = match parse_interval_to_seconds(interval) {
        Some(seconds) => seconds,
        None => return Err(QueryError::InvalidInterval(interval.to_owned())),
    };
    if interval_seconds == 0 {
        return Err(QueryError::ZeroInterval);
    }
    let mut klines = generate_klines(transactions, interval_seconds, token_id);
    if is_active_interval(interval_seconds) {
        let start: u64 = interval_start_ts(now_ts, interval_seconds);
        if let Some(current) = active_klines.get(token_id, start) {
            proof {
                current_bar_joins_series(
                    bars(klines@),
                    kline_series(trades(transactions@), token_id@, interval_seconds),
                    current@,
                );
            }
            merge_current_kline(&mut klines, current);
        }
    }
    Ok(klines)
}

/// The current bar ends the list that it is put into, unless that ends in a later one, and then
/// nothing changes. It takes the place of the last bar only where that starts with it, and all
/// other bars stay where they are.
pub proof fn current_bar_ends_list(bars: Seq<KlineView>, current: KlineView)
    ensures
        ({
            let after = with_current(bars, current);
            let n = bars.len() as int;
            if n > 0 && bars[n - 1].timestamp > current.timestamp {
                after == bars
            } else if n > 0 && bars[n - 1].timestamp == current.timestamp {
                &&& after.len() == n
                &&& after[n - 1] == current
                &&& forall|i: int| 0 <= i < n - 1 ==> #[trigger] after[i] == bars[i]
            } else {
                &&& after.len() == n + 1
                &&& after[n] == current
                &&& forall|i: int| 0 <= i < n ==> #[trigger] after[i] == bars[i]
            }
        }),
{
}

/// Whatever the active bars are, an answer differs from the bars of the history at most in the
/// bar of the current bucket, and only for one and five minutes. There it is the active bar
/// exactly where there is one and the history has no later bar.
pub proof fn answer_differs_in_current_bar(
    history: Seq<TransactionView>,
    active: Books,
    token_id: Seq<char>,
    interval: u64,
    now: u64,
)
    ensures
        ({
            let series = kline_series(history, token_id, interval);
            let result = answer(history, active, token_id, interval, now);
            let start = interval_start(now, interval);
            let current = active.contains_key(token_id) && active[token_id].contains_key(start);
            let later = exists|s: u64| #[trigger] series.contains_key(s) && s > start;
            &&& interval != 60 && interval != 300 ==> result == series
            &&& !current || later ==> result == series
            &&& (interval == 60 || interval == 300) && current && !later ==> {
                &&& result.dom() == series.dom().insert(start)
                &&& result[start] == active[token_id][start]
                &&& forall|s: u64| #[trigger]
                    series.contains_key(s) && s != start ==> result[s] == series[s]
            }
        }),
{
    one_and_five_minutes_are_active(interval);
    let series = kline_series(history, token_id, interval);
    let result = answer(history, active, token_id, interval, now);
    let start = interval_start(now, interval);
    if is_active(interval) && book_of(active, token_id).contains_key(start) && forall|s: u64|
        #[trigger] series.contains_key(s) ==> s <= start {
        assert(result.dom() =~= series.dom().insert(start));
    }
}

/// A refusal for an invalid interval names the interval, between two fixed pieces of text.
pub proof fn refusal_names_interval(error: QueryError)
    ensures
        match error {
            QueryError::InvalidInterval(interval) => error.text() == "无效的时间间隔格式: "@
                + interval@ + ". 支持的格式例如: 1s, 1m, 5m, 1h, 1d"@,
            QueryError::ZeroInterval => error.text() == "时间间隔不能为零"@,
        },
{
}

} // verus!
