//! Series of bars, and the series of a token's trades.

use crate::double::Double;
use crate::interval::interval_start;
use crate::interval::interval_start_ts;
use crate::kline::bars;
use crate::kline::one_trade_more;
use crate::kline::Kline;
use crate::kline::KlineView;
use crate::transaction::trades;
use crate::transaction::Transaction;
use crate::transaction::TransactionView;
use vstd::prelude::*;

verus! {

/// No two bars start at the same time, and they stand in the order of their starts.
pub open spec fn ascending(bars: Seq<KlineView>) -> bool {
    forall|i: int, j: int|
        0 <= i < j < bars.len() ==> (#[trigger] bars[i]).timestamp < (#[trigger] bars[j]).timestamp
}

/// Some bar starts at `start`.
pub open spec fn has_bar(bars: Seq<KlineView>, start: u64) -> bool {
    exists|i: int| 0 <= i < bars.len() && (#[trigger] bars[i]).timestamp == start
}

/// The bars by their starts.
pub open spec fn by_start(bars: Seq<KlineView>) -> Map<u64, KlineView> {
    Map::new(
        |start: u64| has_bar(bars, start),
        |start: u64|
            bars[choose|i: int| 0 <= i < bars.len() && (#[trigger] bars[i]).timestamp == start],
    )
}

/// `bars` lists the bars of `series`, each once, in the order of their starts.
pub open spec fn lists(bars: Seq<KlineView>, series: Map<u64, KlineView>) -> bool {
    &&& ascending(bars)
    &&& by_start(bars) == series
}

/// The series after one more trade in the bucket that starts at `start`.
pub open spec fn series_with_trade(
    series: Map<u64, KlineView>,
    start: u64,
    price: Double,
    amount: Double,
) -> Map<u64, KlineView> {
    let bar = if series.contains_key(start) {
        series[start]
    } else {
        KlineView::opened(start, price)
    };
    series.insert(start, bar.with_trade(price, amount))
}

/// Each bar of an ascending list is found by its start.
pub proof fn found_by_start(bars: Seq<KlineView>, i: int)
    requires
        ascending(bars),
        0 <= i < bars.len(),
    ensures
        by_start(bars).contains_key(bars[i].timestamp),
        by_start(bars)[bars[i].timestamp] == bars[i],
{
    let start = bars[i].timestamp;
    assert(has_bar(bars, start));
    let j = choose|j: int| 0 <= j < bars.len() && (#[trigger] bars[j]).timestamp == start;
    assert(i == j) by {
        if i < j {
            assert(bars[i].timestamp < bars[j].timestamp);
        } else if j < i {
            assert(bars[j].timestamp < bars[i].timestamp);
        }
    }
}

/// Replacing a bar by one of the same start.
pub(crate) proof fn lemma_replace(bars: Seq<KlineView>, at: int, bar: KlineView)
    requires
        ascending(bars),
        0 <= at < bars.len(),
        bars[at].timestamp == bar.timestamp,
    ensures
        lists(bars.update(at, bar), by_start(bars).insert(bar.timestamp, bar)),
{
    let new = bars.update(at, bar);
    assert(ascending(new));
    assert forall|start: u64| has_bar(new, start) == (has_bar(bars, start) || start
        == bar.timestamp) by {
        if has_bar(bars, start) {
            let i = choose|i: int| 0 <= i < bars.len() && (#[trigger] bars[i]).timestamp == start;
            assert(new[i].timestamp == start);
        }
        assert(new[at].timestamp == bar.timestamp);
        if has_bar(new, start) {
            let i = choose|i: int| 0 <= i < new.len() && (#[trigger] new[i]).timestamp == start;
            assert(bars[i].timestamp == start);
        }
    }
    assert forall|start: u64| has_bar(new, start) implies #[trigger] by_start(new)[start]
        == by_start(bars).insert(bar.timestamp, bar)[start] by {
        let i = choose|i: int| 0 <= i < new.len() && (#[trigger] new[i]).timestamp == start;
        found_by_start(new, i);
        found_by_start(bars, i);
    }
    assert(by_start(new) =~= by_start(bars).insert(bar.timestamp, bar));
}

/// Putting a new bar where it belongs.
pub(crate) proof fn lemma_insert(bars: Seq<KlineView>, at: int, bar: KlineView)
    requires
        ascending(bars),
        0 <= at <= bars.len(),
        forall|i: int| 0 <= i < at ==> (#[trigger] bars[i]).timestamp < bar.timestamp,
        forall|i: int| at <= i < bars.len() ==> bar.timestamp < (#[trigger] bars[i]).timestamp,
    ensures
        !has_bar(bars, bar.timestamp),
        lists(bars.insert(at, bar), by_start(bars).insert(bar.timestamp, bar)),
{
    let new = bars.insert(at, bar);
    bars.insert_ensures(at, bar);
    assert forall|i: int| 0 <= i < new.len() implies #[trigger] new[i] == (if i < at {
        bars[i]
    } else if i == at {
        bar
    } else {
        bars[i - 1]
    }) by {
        if i > at {
            assert(new[(i - 1) + 1] == bars[i - 1]);
        }
    }
    assert(ascending(new));
    assert forall|start: u64| has_bar(new, start) == (has_bar(bars, start) || start
        == bar.timestamp) by {
        if has_bar(bars, start) {
            let i = choose|i: int| 0 <= i < bars.len() && (#[trigger] bars[i]).timestamp == start;
            if i < at {
                assert(new[i].timestamp == start);
            } else {
                assert(new[i + 1].timestamp == start);
            }
        }
        assert(new[at].timestamp == bar.timestamp);
        if has_bar(new, start) {
            let i = choose|i: int| 0 <= i < new.len() && (#[trigger] new[i]).timestamp == start;
            if i < at {
                assert(bars[i].timestamp == start);
            } else if i > at {
                assert(bars[i - 1].timestamp == start);
            }
        }
    }
    assert forall|start: u64| has_bar(new, start) implies #[trigger] by_start(new)[start]
        == by_start(bars).insert(bar.timestamp, bar)[start] by {
        let i = choose|i: int| 0 <= i < new.len() && (#[trigger] new[i]).timestamp == start;
        found_by_start(new, i);
        if i < at {
            found_by_start(bars, i);
        } else if i > at {
            found_by_start(bars, i - 1);
        }
    }
    assert(by_start(new) =~= by_start(bars).insert(bar.timestamp, bar));
}

/// A series is listed in one way only.
pub proof fn listing_is_unique(
    a: Seq<KlineView>,
    b: Seq<KlineView>,
    series: Map<u64, KlineView>,
)
    requires
        lists(a, series),
        lists(b, series),
    ensures
        a == b,
{
    assert forall|i: int| 0 <= i < a.len() implies has_bar(b, #[trigger] a[i].timestamp) by {
        found_by_start(a, i);
        assert(by_start(b).contains_key(a[i].timestamp));
    }
    assert forall|i: int| 0 <= i < b.len() implies has_bar(a, #[trigger] b[i].timestamp) by {
        found_by_start(b, i);
        assert(by_start(a).contains_key(b[i].timestamp));
    }
    lemma_same_starts(a, b, a.len() as int);
    lemma_same_starts(b, a, b.len() as int);
    assert forall|i: int| 0 <= i < a.len() implies a[i] == b[i] by {
        found_by_start(a, i);
        found_by_start(b, i);
    }
}

/// Two ascending lists with the same starts have them at the same places.
proof fn lemma_same_starts(a: Seq<KlineView>, b: Seq<KlineView>, n: int)
    requires
        ascending(a),
        ascending(b),
        0 <= n <= a.len(),
        forall|i: int| 0 <= i < a.len() ==> has_bar(b, #[trigger] a[i].timestamp),
        forall|i: int| 0 <= i < b.len() ==> has_bar(a, #[trigger] b[i].timestamp),
    ensures
        n <= b.len(),
        forall|i: int| 0 <= i < n ==> (#[trigger] a[i]).timestamp == (#[trigger] b[i]).timestamp,
    decreases n,
{
    if n > 0 {
        lemma_same_starts(a, b, n - 1);
        let last = n - 1;
        assert(has_bar(b, a[last].timestamp));
        let j = choose|j: int|
            0 <= j < b.len() && (#[trigger] b[j]).timestamp == a[last].timestamp;
        assert(j >= last) by {
            if j < last {
                assert(a[j].timestamp == b[j].timestamp);
                assert(a[j].timestamp < a[last].timestamp);
            }
        }
        assert(has_bar(a, b[last].timestamp));
        let k = choose|k: int|
            0 <= k < a.len() && (#[trigger] a[k]).timestamp == b[last].timestamp;
        assert(k >= last) by {
            if k < last {
                assert(a[k].timestamp == b[k].timestamp);
                assert(b[k].timestamp < b[last].timestamp);
            }
        }
        assert(b[last].timestamp <= b[j].timestamp);
        assert(a[last].timestamp <= a[k].timestamp);
    }
}

/// A series of bars of different starts.
pub struct KlineSeries {
    klines: Vec<Kline>,
}

impl View for KlineSeries {
    type V = Map<u64, KlineView>;

    closed spec fn view(&self) -> Map<u64, KlineView> {
        by_start(bars(self.klines@))
    }
}

impl KlineSeries {
    /// The bars stand in the order of their starts.
    pub closed spec fn well_formed(&self) -> bool {
        ascending(bars(self.klines@))
    }

    /// A series without bars.
    pub fn new() -> (series: KlineSeries)
        ensures
            series.well_formed(),
            series@ == Map::<u64, KlineView>::empty(),
    {
        let series = KlineSeries { klines: Vec::new() };
        assert(series@ =~= Map::<u64, KlineView>::empty());
        series
    }

    /// The number of bars that start before `start`.
    fn position(&self, start: u64) -> (at: usize)
        requires
            self.well_formed(),
        ensures
            at <= self.klines@.len(),
            forall|i: int| 0 <= i < at ==> (#[trigger] self.klines@[i]).timestamp < start,
            forall|i: int|
                at <= i < self.klines@.len() ==> start <= (#[trigger] self.klines@[i]).timestamp,
    {
        let mut low: usize = 0;
        let mut high: usize = self.klines.len();
        assert forall|i: int, j: int| 0 <= i < j < self.klines@.len() implies (
        #[trigger] self.klines@[i]).timestamp < (#[trigger] self.klines@[j]).timestamp by {
            assert(bars(self.klines@)[i].timestamp < bars(self.klines@)[j].timestamp);
        }
        while low < high
            invariant
                low <= high <= self.klines@.len(),
                forall|i: int, j: int|
                    0 <= i < j < self.klines@.len() ==> (#[trigger] self.klines@[i]).timestamp < (
                    #[trigger] self.klines@[j]).timestamp,
                forall|i: int| 0 <= i < low ==> (#[trigger] self.klines@[i]).timestamp < start,
                forall|i: int|
                    high <= i < self.klines@.len() ==> start <= (
                    #[trigger] self.klines@[i]).timestamp,
            decreases high - low,
        {
            let middle: usize = low + (high - low) / 2;
            if self.klines[middle].timestamp < start {
                low = middle + 1;
            } else {
                high = middle;
            }
        }
        low
    }

    /// The bar that starts at `start`.
    pub fn get(&self, start: u64) -> (kline: Option<&Kline>)
        requires
            self.well_formed(),
        ensures
            match kline {
                Some(kline) => {
                    &&& self@.contains_key(start)
                    &&& kline@ == self@[start]
                    &&& kline.timestamp == start
                },
                None => !self@.contains_key(start),
            },
    {
        let at: usize = self.position(start);
        let ghost all = bars(self.klines@);
        if at < self.klines.len() && self.klines[at].timestamp == start {
            proof {
                found_by_start(all, at as int);
            }
            Some(&self.klines[at])
        } else {
            proof {
                if has_bar(all, start) {
                    let i = choose|i: int|
                        0 <= i < all.len() && (#[trigger] all[i]).timestamp == start;
                    assert(self.klines@[i].timestamp == start);
                    assert(at < i ==> all[at as int].timestamp < all[i].timestamp);
                }
            }
            None
        }
    }

    /// Takes a trade into the bar that starts at `start`, which is opened at the price of
    /// the trade where there is none yet.
    pub fn record(&mut self, start: u64, price: Double, amount: Double)
        requires
            old(self).well_formed(),
        ensures
            final(self).well_formed(),
            final(self)@ == series_with_trade(old(self)@, start, price, amount),
    {
        let at: usize = self.position(start);
        let ghost before = bars(self.klines@);
        if at < self.klines.len() && self.klines[at].timestamp == start {
            self.klines[at].add_trade(price, amount);
            proof {
                let bar = before[at as int].with_trade(price, amount);
                found_by_start(before, at as int);
                lemma_replace(before, at as int, bar);
                assert(bars(self.klines@) =~= before.update(at as int, bar));
            }
        } else {
            let mut kline = Kline::open_at(start, price);
            kline.add_trade(price, amount);
            let ghost bar = kline@;
            proof {
                assert forall|i: int| 0 <= i < at implies (#[trigger] before[i]).timestamp
                    < bar.timestamp by {
                    assert(self.klines@[i].timestamp < start);
                }
                assert forall|i: int| at <= i < before.len() implies bar.timestamp < (
                #[trigger] before[i]).timestamp by {
                    assert(start <= self.klines@[i].timestamp);
                    if i > at {
                        assert(before[at as int].timestamp < before[i].timestamp);
                    }
                }
                lemma_insert(before, at as int, bar);
            }
            self.klines.insert(at, kline);
            assert(bars(self.klines@) =~= before.insert(at as int, bar));
        }
    }

    /// The bars, in the order of their starts.
    pub fn into_klines(self) -> (klines: Vec<Kline>)
        requires
            self.well_formed(),
        ensures
            lists(bars(klines@), self@),
    {
        self.klines
    }
}

/// The trades of a token in the bucket of length `interval` that starts at `start`.
pub open spec fn bucket(
    history: Seq<TransactionView>,
    token_id: Seq<char>,
    interval: u64,
    start: u64,
) -> Seq<TransactionView> {
    history.filter(
        |t: TransactionView|
            t.token_id == token_id && interval_start(t.timestamp, interval) == start,
    )
}

/// The bars of a token's trades: one for each bucket of length `interval` with a trade in it.
/// Intervals of length zero have none.
pub open spec fn kline_series(
    history: Seq<TransactionView>,
    token_id: Seq<char>,
    interval: u64,
) -> Map<u64, KlineView> {
    Map::new(
        |start: u64| interval > 0 && bucket(history, token_id, interval, start).len() > 0,
        |start: u64| KlineView::of(start, bucket(history, token_id, interval, start)),
    )
}

/// A new trade of the token changes the bar of its own bucket and no other.
/// A trade of another token changes nothing.
pub proof fn new_trade_changes_its_bar(
    history: Seq<TransactionView>,
    t: TransactionView,
    token_id: Seq<char>,
    interval: u64,
)
    requires
        interval > 0,
    ensures
        kline_series(history.push(t), token_id, interval) == (if t.token_id == token_id {
            series_with_trade(
                kline_series(history, token_id, interval),
                interval_start(t.timestamp, interval),
                t.price,
                t.amount,
            )
        } else {
            kline_series(history, token_id, interval)
        }),
{
    broadcast use Seq::lemma_filter_push;

    let old_series = kline_series(history, token_id, interval);
    let new_series = kline_series(history.push(t), token_id, interval);
    let at = interval_start(t.timestamp, interval);
    one_trade_more(at, bucket(history, token_id, interval, at), t);
    if t.token_id == token_id {
        assert(new_series =~= series_with_trade(old_series, at, t.price, t.amount));
    } else {
        assert(new_series =~= old_series);
    }
}

/// The bars of a token's trades, in the order of their starts. `transactions` are all the
/// trades, in the order in which they were made.
pub fn generate_klines(
    transactions: &[Transaction],
    interval_seconds: u64,
    token_id_filter: &str,
) -> (klines: Vec<Kline>)
    ensures
        lists(
            bars(klines@),
            kline_series(trades(transactions@), token_id_filter@, interval_seconds),
        ),
{
    let mut series = KlineSeries::new();
    let ghost history = trades(transactions@);
    if interval_seconds == 0 {
        assert(series@ =~= kline_series(history, token_id_filter@, interval_seconds));
        return series.into_klines();
    }
    let token_id = token_id_filter.to_owned();
    let mut i: usize = 0;
    assert(history.take(0) == Seq::<TransactionView>::empty());
    proof {
        lemma_no_trades_no_bars(token_id_filter@, interval_seconds);
    }
    while i < transactions.len()
        invariant
            i <= transactions@.len(),
            interval_seconds > 0,
            token_id@ == token_id_filter@,
            history == trades(transactions@),
            series.well_formed(),
            series@ == kline_series(history.take(i as int), token_id_filter@, interval_seconds),
        decreases transactions@.len() - i,
    {
        let tx = &transactions[i];
        proof {
            assert(history.take(i + 1) == history.take(i as int).push(tx@));
            new_trade_changes_its_bar(
                history.take(i as int),
                tx@,
                token_id_filter@,
                interval_seconds,
            );
        }
        if tx.token_id == token_id {
            let start: u64 = interval_start_ts(tx.timestamp, interval_seconds);
            series.record(start, tx.price, tx.amount);
        }
        i = i + 1;
    }
    assert(history.take(i as int) == history);
    series.into_klines()
}

/// Without trades there are no bars.
proof fn lemma_no_trades_no_bars(token_id: Seq<char>, interval: u64)
    ensures
        kline_series(Seq::empty(), token_id, interval) == Map::<u64, KlineView>::empty(),
{
    reveal(Seq::filter);
    assert(kline_series(Seq::empty(), token_id, interval) =~= Map::<u64, KlineView>::empty());
}

/// A listing of a series has its bars in the order of their starts, each one at its start in the
/// series, and leaves none out.
pub proof fn listing_has_every_bar_once(bars: Seq<KlineView>, series: Map<u64, KlineView>)
    requires
        lists(bars, series),
    ensures
        forall|i: int, j: int|
            0 <= i < j < bars.len() ==> (#[trigger] bars[i]).timestamp < (
            #[trigger] bars[j]).timestamp,
        forall|i: int|
            0 <= i < bars.len() ==> series.contains_key((#[trigger] bars[i]).timestamp)
                && series[bars[i].timestamp] == bars[i],
        forall|s: u64| #[trigger]
            series.contains_key(s) ==> exists|i: int|
                0 <= i < bars.len() && (#[trigger] bars[i]).timestamp == s,
{
    assert forall|i: int| 0 <= i < bars.len() implies series.contains_key(
        (#[trigger] bars[i]).timestamp,
    ) && series[bars[i].timestamp] == bars[i] by {
        found_by_start(bars, i);
    }
    assert forall|s: u64| #[trigger] series.contains_key(s) implies exists|i: int|
        0 <= i < bars.len() && (#[trigger] bars[i]).timestamp == s by {
        assert(has_bar(bars, s));
    }
}

/// A trade in a bucket leaves the bars of all other buckets as they are. A bar that was there
/// takes the trade in; one that was not is opened at its price and holds its amount alone.
pub proof fn trade_moves_one_bar(
    series: Map<u64, KlineView>,
    start: u64,
    price: Double,
    amount: Double,
)
    ensures
        ({
            let after = series_with_trade(series, start, price, amount);
            &&& after.dom() == series.dom().insert(start)
            &&& forall|s: u64| #[trigger]
                series.contains_key(s) && s != start ==> after[s] == series[s]
            &&& series.contains_key(start) ==> after[start] == series[start].with_trade(
                price,
                amount,
            )
            &&& !series.contains_key(start) ==> after[start] == (KlineView {
                timestamp: start,
                open: price,
                high: price,
                low: price,
                close: price,
                volume: seq![amount],
            })
        }),
{
    let after = series_with_trade(series, start, price, amount);
    assert(after.dom() =~= series.dom().insert(start));
    assert(Seq::<Double>::empty().push(amount) =~= seq![amount]);
}

/// There are no bars of length zero.
pub proof fn no_bars_of_length_zero(
    history: Seq<TransactionView>,
    token_id: Seq<char>,
    bars: Seq<KlineView>,
)
    requires
        lists(bars, kline_series(history, token_id, 0)),
    ensures
        bars.len() == 0,
{
    if bars.len() > 0 {
        found_by_start(bars, 0);
    }
}

} // verus!
