//! Bars of a candlestick chart.

use crate::double::Double;
use crate::transaction::TransactionView;
use vstd::prelude::*;

verus! {

/// The trades of one bucket of time, summed up.
#[derive(Debug)]
pub struct Kline {
    /// The start of the bucket, in seconds of Unix time.
    pub timestamp: u64,
    /// The price of the first trade.
    pub open: Double,
    /// The highest price.
    pub high: Double,
    /// The lowest price.
    pub low: Double,
    /// The price of the last trade.
    pub close: Double,
    /// The amounts traded, in the order of the trades. The traded volume is
    /// what adding them up in this order, from zero, gives.
    pub volume: Vec<Double>,
}

/// What a bar says.
pub struct KlineView {
    pub timestamp: u64,
    pub open: Double,
    pub high: Double,
    pub low: Double,
    pub close: Double,
    pub volume: Seq<Double>,
}

impl View for Kline {
    type V = KlineView;

    open spec fn view(&self) -> KlineView {
        KlineView {
            timestamp: self.timestamp,
            open: self.open,
            high: self.high,
            low: self.low,
            close: self.close,
            volume: self.volume@,
        }
    }
}

/// What a list of bars says.
pub open spec fn bars(klines: Seq<Kline>) -> Seq<KlineView> {
    klines.map_values(|k: Kline| k@)
}

/// The highest price of a non-empty list of trades.
pub open spec fn highest(trades: Seq<TransactionView>) -> Double
    decreases trades.len(),
{
    if trades.len() <= 1 {
        trades.first().price
    } else {
        highest(trades.drop_last()).greater_of(trades.last().price)
    }
}

/// The lowest price of a non-empty list of trades.
pub open spec fn lowest(trades: Seq<TransactionView>) -> Double
    decreases trades.len(),
{
    if trades.len() <= 1 {
        trades.first().price
    } else {
        lowest(trades.drop_last()).smaller_of(trades.last().price)
    }
}

/// The amounts of a list of trades.
pub open spec fn amounts(trades: Seq<TransactionView>) -> Seq<Double> {
    trades.map_values(|t: TransactionView| t.amount)
}

impl KlineView {
    /// The bar of a non-empty list of trades, for the bucket that starts at `start`.
    pub open spec fn of(start: u64, trades: Seq<TransactionView>) -> KlineView {
        KlineView {
            timestamp: start,
            open: trades.first().price,
            high: highest(trades),
            low: lowest(trades),
            close: trades.last().price,
            volume: amounts(trades),
        }
    }

    /// A bar in which nothing was traded yet, opened at a price.
    pub open spec fn opened(start: u64, price: Double) -> KlineView {
        KlineView {
            timestamp: start,
            open: price,
            high: price,
            low: price,
            close: price,
            volume: Seq::empty(),
        }
    }

    /// The bar after one more trade.
    pub open spec fn with_trade(self, price: Double, amount: Double) -> KlineView {
        KlineView {
            high: self.high.greater_of(price),
            low: self.low.smaller_of(price),
            close: price,
            volume: self.volume.push(amount),
            ..self
        }
    }
}

impl Clone for Kline {
    fn clone(&self) -> (copy: Kline)
        ensures
            copy@ == self@,
            copy.timestamp == self.timestamp,
            copy.open == self.open,
            copy.high == self.high,
            copy.low == self.low,
            copy.close == self.close,
            copy.volume@ == self.volume@,
    {
        let volume = self.volume.clone();
        assert(volume@ =~= self.volume@);
        Kline {
            timestamp: self.timestamp,
            open: self.open,
            high: self.high,
            low: self.low,
            close: self.close,
            volume,
        }
    }
}

impl Kline {
    /// Opens a bar at a price, with nothing traded yet.
    pub fn open_at(start: u64, price: Double) -> (kline: Kline)
        ensures
            kline@ == KlineView::opened(start, price),
            kline.timestamp == start,
            kline.open == price,
            kline.high == price,
            kline.low == price,
            kline.close == price,
            kline.volume@.len() == 0,
    {
        Kline {
            timestamp: start,
            open: price,
            high: price,
            low: price,
            close: price,
            volume: Vec::new(),
        }
    }

    /// Takes one more trade into the bar.
    pub fn add_trade(&mut self, price: Double, amount: Double)
        ensures
            final(self)@ == old(self)@.with_trade(price, amount),
            final(self).timestamp == old(self).timestamp,
            final(self).open == old(self).open,
            final(self).close == price,
            final(self).volume@ == old(self).volume@.push(amount),
    {
        self.high = self.high.max(price);
        self.low = self.low.min(price);
        self.close = price;
        self.volume.push(amount);
    }
}

/// Taking trades into a bar one by one, the first one into a bar opened at its price,
/// gives the bar of all of them.
pub proof fn one_trade_more(start: u64, trades: Seq<TransactionView>, t: TransactionView)
    ensures
        KlineView::of(start, trades.push(t)) == (if trades.len() == 0 {
            KlineView::opened(start, t.price)
        } else {
            KlineView::of(start, trades)
        }).with_trade(t.price, t.amount),
{
    let more = trades.push(t);
    assert(more.drop_last() == trades);
    assert(amounts(more) == amounts(trades).push(t.amount));
    if trades.len() > 0 {
        assert(more.first() == trades.first());
    } else {
        assert(amounts(trades) == Seq::<Double>::empty());
    }
}

/// No price of the trades is above the highest or below the lowest price of their bar, and both
/// occur among them. They are numbers as soon as one of the prices is.
pub proof fn prices_within_bar(start: u64, trades: Seq<TransactionView>)
    requires
        trades.len() > 0,
    ensures
        forall|i: int|
            0 <= i < trades.len() ==> {
                &&& !KlineView::of(start, trades).high.less((#[trigger] trades[i]).price)
                &&& !trades[i].price.less(KlineView::of(start, trades).low)
                &&& !trades[i].price.is_nan() ==> !KlineView::of(start, trades).high.is_nan()
                &&& !trades[i].price.is_nan() ==> !KlineView::of(start, trades).low.is_nan()
            },
        exists|i: int|
            0 <= i < trades.len() && (#[trigger] trades[i]).price == KlineView::of(
                start,
                trades,
            ).high,
        exists|i: int|
            0 <= i < trades.len() && (#[trigger] trades[i]).price == KlineView::of(
                start,
                trades,
            ).low,
    decreases trades.len(),
{
    let bar = KlineView::of(start, trades);
    let last = trades.len() - 1;
    if trades.len() == 1 {
        assert(trades[0].price == bar.high);
    } else {
        let rest = trades.drop_last();
        let before = KlineView::of(start, rest);
        prices_within_bar(start, rest);
        let h = choose|i: int| 0 <= i < rest.len() && (#[trigger] rest[i]).price == before.high;
        let l = choose|i: int| 0 <= i < rest.len() && (#[trigger] rest[i]).price == before.low;
        assert(trades[h].price == before.high && trades[l].price == before.low);
        assert(bar.high == trades[h].price || bar.high == trades[last].price);
        assert(bar.low == trades[l].price || bar.low == trades[last].price);
        assert forall|i: int| 0 <= i < trades.len() implies {
            &&& !bar.high.less((#[trigger] trades[i]).price)
            &&& !trades[i].price.less(bar.low)
            &&& !trades[i].price.is_nan() ==> !bar.high.is_nan()
            &&& !trades[i].price.is_nan() ==> !bar.low.is_nan()
        } by {
            if i < last {
                assert(rest[i] == trades[i]);
            }
        }
    }
}

/// What a list of bars says is what each of them holds, in their order.
pub proof fn bars_say_what_they_hold(klines: Seq<Kline>)
    ensures
        bars(klines).len() == klines.len(),
        forall|i: int|
            0 <= i < klines.len() ==> {
                &&& (#[trigger] bars(klines)[i]).timestamp == klines[i].timestamp
                &&& bars(klines)[i].open == klines[i].open
                &&& bars(klines)[i].high == klines[i].high
                &&& bars(klines)[i].low == klines[i].low
                &&& bars(klines)[i].close == klines[i].close
                &&& bars(klines)[i].volume == klines[i].volume@
            },
{
}

/// A bar opens at the price of its first trade, closes at that of its last, and holds the amount
/// of each, in their order.
pub proof fn bar_opens_closes_and_counts(start: u64, trades: Seq<TransactionView>)
    requires
        trades.len() > 0,
    ensures
        KlineView::of(start, trades).timestamp == start,
        KlineView::of(start, trades).open == trades[0].price,
        KlineView::of(start, trades).close == trades[trades.len() - 1].price,
        KlineView::of(start, trades).volume.len() == trades.len(),
        forall|i: int|
            0 <= i < trades.len() ==> #[trigger] KlineView::of(start, trades).volume[i]
                == trades[i].amount,
{
}

/// A bar is opened with one price in all places and no amount.
pub proof fn opened_bar_has_one_price(start: u64, price: Double)
    ensures
        KlineView::opened(start, price).timestamp == start,
        KlineView::opened(start, price).open == price,
        KlineView::opened(start, price).high == price,
        KlineView::opened(start, price).low == price,
        KlineView::opened(start, price).close == price,
        KlineView::opened(start, price).volume.len() == 0,
{
}

/// One more trade leaves a bar's start and opening price, closes it at the price of the trade,
/// adds the amount at the end, and moves the highest and the lowest price to the price of the
/// trade exactly where it is beyond them or they are no numbers.
pub proof fn trade_moves_bar(bar: KlineView, price: Double, amount: Double)
    ensures
        bar.with_trade(price, amount).timestamp == bar.timestamp,
        bar.with_trade(price, amount).open == bar.open,
        bar.with_trade(price, amount).close == price,
        bar.with_trade(price, amount).volume == bar.volume + seq![amount],
        bar.with_trade(price, amount).high == (if bar.high.less(price) || bar.high.is_nan()
            && !price.is_nan() {
            price
        } else {
            bar.high
        }),
        bar.with_trade(price, amount).low == (if price.less(bar.low) || bar.low.is_nan()
            && !price.is_nan() {
            price
        } else {
            bar.low
        }),
{
    assert(bar.volume.push(amount) =~= bar.volume + seq![amount]);
}

} // verus!
