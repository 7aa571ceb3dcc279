//! What holds of the service as a whole.

use crate::active::book_of;
use crate::active::recorded;
use crate::active::recorded_at;
use crate::active::recorded_for;
use crate::active::starts_at;
use crate::active::Books;
use crate::double::Double;
use crate::interval::bucket_bounds;
use crate::interval::interval_start;
use crate::interval::is_active;
use crate::interval::ACTIVE_KLINE_INTERVALS;
use crate::kline::amounts;
use crate::kline::bar_opens_closes_and_counts;
use crate::kline::one_trade_more;
use crate::kline::prices_within_bar;
use crate::kline::KlineView;
use crate::query::answer;
use crate::series::ascending;
use crate::series::bucket;
use crate::series::by_start;
use crate::series::found_by_start;
use crate::series::has_bar;
use crate::series::kline_series;
use crate::series::lemma_insert;
use crate::series::lemma_replace;
use crate::series::listing_is_unique;
use crate::series::lists;
use crate::series::new_trade_changes_its_bar;
use crate::series::trade_moves_one_bar;
use crate::state::books_after;
use crate::transaction::TransactionView;
use vstd::arithmetic::div_mod::lemma_div_is_ordered;
use vstd::arithmetic::div_mod::lemma_fundamental_div_mod;
use vstd::arithmetic::div_mod::lemma_mod_decreases;
use vstd::multiset::Multiset;
use vstd::prelude::*;
use vstd::seq_lib::group_to_multiset_ensures;

verus! {

/// The trades that are taken into the active bar of a token that starts at `start`: those whose
/// bucket starts there for one of the active intervals, each once.
pub open spec fn taken(history: Seq<TransactionView>, token_id: Seq<char>, start: u64) -> Seq<
    TransactionView,
> {
    history.filter(
        |t: TransactionView|
            t.token_id == token_id && starts_at(
                t.timestamp,
                start,
                ACTIVE_KLINE_INTERVALS@.len() as int,
            ),
    )
}

/// A list of trades, with one more where it is taken into the active bar that starts at `start`
/// by the first `n` active intervals.
spec fn with_taken(
    trades: Seq<TransactionView>,
    t: TransactionView,
    token_id: Seq<char>,
    start: u64,
    n: int,
) -> Seq<TransactionView> {
    if t.token_id == token_id && starts_at(t.timestamp, start, n) {
        trades.push(t)
    } else {
        trades
    }
}

/// The bars of the non-empty ones among some lists of trades, one list for each start.
pub open spec fn bars_of(lists: spec_fn(u64) -> Seq<TransactionView>) -> Map<u64, KlineView> {
    Map::new(|s: u64| lists(s).len() > 0, |s: u64| KlineView::of(s, lists(s)))
}

/// Taking in one trade for the first `n` active intervals.
proof fn lemma_recorded_for(
    books: Books,
    t: TransactionView,
    n: nat,
    token_id: Seq<char>,
    lists: spec_fn(u64) -> Seq<TransactionView>,
)
    requires
        n <= ACTIVE_KLINE_INTERVALS@.len(),
        book_of(books, token_id) == bars_of(lists),
    ensures
        book_of(recorded_for(books, t, n), token_id) == bars_of(
            |s: u64| with_taken(lists(s), t, token_id, s, n as int),
        ),
    decreases n,
{
    let after = |s: u64| with_taken(lists(s), t, token_id, s, n as int);
    if n == 0 {
        assert(bars_of(after) =~= bars_of(lists));
    } else {
        let m = (n - 1) as nat;
        let before = |s: u64| with_taken(lists(s), t, token_id, s, m as int);
        lemma_recorded_for(books, t, m, token_id, lists);
        let start = interval_start(t.timestamp, ACTIVE_KLINE_INTERVALS@[m as int]);
        assert forall|s: u64| #[trigger]
            starts_at(t.timestamp, s, n as int) == (starts_at(t.timestamp, s, m as int) || s
                == start) by {
            if starts_at(t.timestamp, s, n as int) && s != start {
                let k = choose|k: int|
                    0 <= k < n && interval_start(t.timestamp, #[trigger] ACTIVE_KLINE_INTERVALS@[k])
                        == s;
                assert(k != m);
            }
        }
        if starts_at(t.timestamp, start, m as int) {
            assert(bars_of(after) =~= bars_of(before));
        } else {
            one_trade_more(start, before(start), t);
            assert(book_of(recorded_for(books, t, n), token_id) =~= bars_of(after));
        }
    }
}

/// An active bar is the bar of the trades that were taken into it.
pub proof fn active_bars_are_of_trades_taken(history: Seq<TransactionView>, token_id: Seq<char>)
    ensures
        book_of(books_after(history), token_id) == bars_of(|s: u64| taken(history, token_id, s)),
    decreases history.len(),
{
    broadcast use Seq::lemma_filter_push;

    let lists = |s: u64| taken(history, token_id, s);
    if history.len() == 0 {
        reveal(Seq::filter);
        assert(book_of(books_after(history), token_id) =~= bars_of(lists));
    } else {
        let rest = history.drop_last();
        let t = history.last();
        let before = |s: u64| taken(rest, token_id, s);
        let n = ACTIVE_KLINE_INTERVALS@.len();
        assert(history =~= rest.push(t));
        active_bars_are_of_trades_taken(rest, token_id);
        lemma_recorded_for(books_after(rest), t, n, token_id, before);
        assert(bars_of(|s: u64| with_taken(before(s), t, token_id, s, n as int)) =~= bars_of(
            lists,
        ));
    }
}

/// A trade is taken into the bar of its minute and into the bar of its five minutes. Only a bar
/// that starts at a multiple of five minutes can be both, and then it is the bar of the five.
pub proof fn trade_taken_into_its_bars(timestamp: u64, start: u64)
    ensures
        starts_at(timestamp, start, ACTIVE_KLINE_INTERVALS@.len() as int) == (interval_start(
            timestamp,
            60,
        ) == start || interval_start(timestamp, 300) == start),
        starts_at(timestamp, start, ACTIVE_KLINE_INTERVALS@.len() as int) == (interval_start(
            timestamp,
            if start % 300 == 0 {
                300
            } else {
                60
            },
        ) == start),
{
    assert(ACTIVE_KLINE_INTERVALS@[0] == 60 && ACTIVE_KLINE_INTERVALS@[1] == 300);
    assert(starts_at(timestamp, start, 2) == (interval_start(timestamp, ACTIVE_KLINE_INTERVALS@[0])
        == start || interval_start(timestamp, ACTIVE_KLINE_INTERVALS@[1]) == start));
}

/// Two conditions that agree on all items pick the same ones.
proof fn lemma_same_filter(
    history: Seq<TransactionView>,
    p: spec_fn(TransactionView) -> bool,
    q: spec_fn(TransactionView) -> bool,
)
    requires
        forall|i: int| 0 <= i < history.len() ==> p(#[trigger] history[i]) == q(history[i]),
    ensures
        history.filter(p) == history.filter(q),
    decreases history.len(),
{
    reveal(Seq::filter);
    if history.len() > 0 {
        let rest = history.drop_last();
        assert forall|i: int| 0 <= i < rest.len() implies p(#[trigger] rest[i]) == q(rest[i]) by {
            assert(rest[i] == history[i]);
        }
        lemma_same_filter(rest, p, q);
        assert(p(history[history.len() - 1]) == q(history[history.len() - 1]));
    }
}

/// The trades in an active bar are those of the bucket of five minutes that starts with it, or
/// where none does, of the minute that does.
proof fn lemma_taken_is_bucket(history: Seq<TransactionView>, token_id: Seq<char>, start: u64)
    ensures
        taken(history, token_id, start) == bucket(
            history,
            token_id,
            if start % 300 == 0 {
                300
            } else {
                60
            },
            start,
        ),
{
    let n = ACTIVE_KLINE_INTERVALS@.len() as int;
    let interval = if start % 300 == 0 {
        300u64
    } else {
        60u64
    };
    let p = |t: TransactionView| t.token_id == token_id && starts_at(t.timestamp, start, n);
    let q = |t: TransactionView|
        t.token_id == token_id && interval_start(t.timestamp, interval) == start;
    assert forall|i: int| 0 <= i < history.len() implies p(#[trigger] history[i]) == q(
        history[i],
    ) by {
        trade_taken_into_its_bars(history[i].timestamp, start);
    }
    lemma_same_filter(history, p, q);
}

/// Where a token has no bar of a minute after `start`, the minute and the five minutes that both
/// start there hold the same trades.
proof fn lemma_same_bucket(history: Seq<TransactionView>, token_id: Seq<char>, start: u64)
    requires
        start % 300 == 0,
        forall|s: u64| #[trigger]
            kline_series(history, token_id, 60).contains_key(s) ==> s <= start,
    ensures
        bucket(history, token_id, 60, start) == bucket(history, token_id, 300, start),
{
    let p = |t: TransactionView|
        t.token_id == token_id && interval_start(t.timestamp, 60) == start;
    let q = |t: TransactionView|
        t.token_id == token_id && interval_start(t.timestamp, 300) == start;
    assert forall|i: int| 0 <= i < history.len() implies p(#[trigger] history[i]) == q(
        history[i],
    ) by {
        let t = history[i];
        let s = interval_start(t.timestamp, 60);
        trade_taken_into_its_bars(t.timestamp, start);
        if t.token_id == token_id {
            history.lemma_filter_contains(
                |u: TransactionView|
                    u.token_id == token_id && interval_start(u.timestamp, 60) == s,
                i,
            );
            assert(bucket(history, token_id, 60, s).contains(t));
            assert(kline_series(history, token_id, 60).contains_key(s));
        }
    }
    lemma_same_filter(history, p, q);
}

/// A request is answered with the bars of the history, at whatever time it is made.
pub proof fn answer_is_of_history(
    history: Seq<TransactionView>,
    token_id: Seq<char>,
    interval: u64,
    now: u64,
)
    requires
        interval > 0,
    ensures
        answer(history, books_after(history), token_id, interval, now) == kline_series(
            history,
            token_id,
            interval,
        ),
{
    let series = kline_series(history, token_id, interval);
    let start = interval_start(now, interval);
    active_bars_are_of_trades_taken(history, token_id);
    lemma_taken_is_bucket(history, token_id, start);
    if is_active(interval) {
        assert(interval == 60 || interval == 300);
        assert(interval_start(now, 300) % 300 == 0);
        if start % 300 == 0 && interval == 60 && forall|s: u64| #[trigger]
            series.contains_key(s) ==> s <= start {
            lemma_same_bucket(history, token_id, start);
        }
    }
    assert(answer(history, books_after(history), token_id, interval, now) =~= series);
}

/// The newest trade closes the current bar of its token, which is then the last of the bars that
/// a request is answered with, and whose prices include the price of the trade.
pub proof fn newest_trade_closes_last_bar(
    history: Seq<TransactionView>,
    t: TransactionView,
    interval: u64,
    now: u64,
    bars: Seq<KlineView>,
)
    requires
        interval > 0,
        interval_start(t.timestamp, interval) == interval_start(now, interval),
        forall|i: int|
            0 <= i < history.len() && (#[trigger] history[i]).token_id == t.token_id
                ==> history[i].timestamp <= now,
        lists(
            bars,
            answer(history.push(t), books_after(history.push(t)), t.token_id, interval, now),
        ),
    ensures
        bars.len() > 0,
        bars.last().timestamp == interval_start(now, interval),
        bars.last().close == t.price,
        !bars.last().high.less(t.price),
        !t.price.less(bars.last().low),
{
    broadcast use Seq::lemma_filter_push;
    broadcast use Seq::lemma_filter_contains_rev;

    let start = interval_start(now, interval);
    let all = history.push(t);
    let series = kline_series(all, t.token_id, interval);
    let result = answer(all, books_after(all), t.token_id, interval, now);
    let trades = bucket(all, t.token_id, interval, start);
    answer_is_of_history(all, t.token_id, interval, now);
    assert(trades.last() == t);
    prices_within_bar(start, trades);
    assert(series.contains_key(start));
    assert(result.contains_key(start));
    assert(trades[trades.len() - 1].price == t.price);
    let at = choose|i: int| 0 <= i < bars.len() && (#[trigger] bars[i]).timestamp == start;
    assert(has_bar(bars, start));
    found_by_start(bars, at);
    let last = bars.len() - 1;
    found_by_start(bars, last);
    let s = bars.last().timestamp;
    assert(series.contains_key(s));
    let b = bucket(all, t.token_id, interval, s);
    assert(b.len() > 0);
    assert(s <= start) by {
        let first = b[0];
        all.lemma_filter_pred(
            |u: TransactionView|
                u.token_id == t.token_id && interval_start(u.timestamp, interval) == s,
            0,
        );
        assert(b.contains(first));
        assert(all.contains(first));
        let i = choose|i: int| 0 <= i < all.len() && all[i] == first;
        if i < history.len() {
            assert(history[i] == first);
            lemma_start_monotone(first.timestamp, now, interval);
        }
    }
    assert(at == last) by {
        if at < last {
            assert(bars[at].timestamp < bars[last].timestamp);
        }
    }
}

/// Later times lie in later buckets.
proof fn lemma_start_monotone(a: u64, b: u64, interval: u64)
    requires
        a <= b,
        interval > 0,
    ensures
        interval_start(a, interval) <= interval_start(b, interval),
{
    let n = interval as int;
    lemma_fundamental_div_mod(a as int, n);
    lemma_fundamental_div_mod(b as int, n);
    lemma_div_is_ordered(a as int, b as int, n);
    lemma_mod_decreases(a as nat, interval as nat);
    lemma_mod_decreases(b as nat, interval as nat);
    assert(n * (a as int / n) <= n * (b as int / n)) by (nonlinear_arith)
        requires
            a as int / n <= b as int / n,
            n > 0,
    ;
}

/// A token that was never traded has no bars.
pub proof fn unknown_token_has_no_bars(
    history: Seq<TransactionView>,
    token_id: Seq<char>,
    interval: u64,
    now: u64,
)
    requires
        interval > 0,
        forall|i: int| 0 <= i < history.len() ==> (#[trigger] history[i]).token_id != token_id,
    ensures
        answer(history, books_after(history), token_id, interval, now)
            == Map::<u64, KlineView>::empty(),
{
    broadcast use Seq::lemma_filter_contains_rev;

    let result = answer(history, books_after(history), token_id, interval, now);
    answer_is_of_history(history, token_id, interval, now);
    assert forall|s: u64| !result.contains_key(s) by {
        let b = bucket(history, token_id, interval, s);
        if b.len() > 0 {
            history.lemma_filter_pred(
                |t: TransactionView|
                    t.token_id == token_id && interval_start(t.timestamp, interval) == s,
                0,
            );
            assert(b.contains(b[0]));
        }
    }
    assert(result =~= Map::<u64, KlineView>::empty());
}

/// All the amounts in a list of bars.
pub open spec fn traded(bars: Seq<KlineView>) -> Multiset<Double>
    decreases bars.len(),
{
    if bars.len() == 0 {
        Multiset::empty()
    } else {
        traded(bars.drop_last()).add(bars.last().volume.to_multiset())
    }
}

/// One more amount in one of the bars.
proof fn lemma_traded_replace(bars: Seq<KlineView>, at: int, bar: KlineView, amount: Double)
    requires
        0 <= at < bars.len(),
        bar.volume == bars[at].volume.push(amount),
    ensures
        traded(bars.update(at, bar)) == traded(bars).insert(amount),
    decreases bars.len(),
{
    broadcast use group_to_multiset_ensures;

    let new = bars.update(at, bar);
    if at == bars.len() - 1 {
        assert(new.drop_last() =~= bars.drop_last());
    } else {
        lemma_traded_replace(bars.drop_last(), at, bar, amount);
        assert(new.drop_last() =~= bars.drop_last().update(at, bar));
    }
    assert(traded(new) =~= traded(bars).insert(amount));
}

/// A bar more, with one amount in it.
proof fn lemma_traded_insert(bars: Seq<KlineView>, at: int, bar: KlineView, amount: Double)
    requires
        0 <= at <= bars.len(),
        bar.volume == seq![amount],
    ensures
        traded(bars.insert(at, bar)) == traded(bars).insert(amount),
    decreases bars.len(),
{
    broadcast use group_to_multiset_ensures;

    let new = bars.insert(at, bar);
    if at == bars.len() {
        assert(new.drop_last() =~= bars);
        assert(seq![amount] =~= Seq::<Double>::empty().push(amount));
        assert(Seq::<Double>::empty().to_multiset() =~= Multiset::<Double>::empty());
    } else {
        lemma_traded_insert(bars.drop_last(), at, bar, amount);
        assert(new.drop_last() =~= bars.drop_last().insert(at, bar));
        assert(new.last() == bars.last());
    }
    assert(traded(new) =~= traded(bars).insert(amount));
}

/// Where a start stands, or belongs, in an ascending list of bars.
proof fn lemma_place(bars: Seq<KlineView>, start: u64) -> (at: int)
    requires
        ascending(bars),
    ensures
        0 <= at <= bars.len(),
        forall|i: int| 0 <= i < at ==> (#[trigger] bars[i]).timestamp < start,
        forall|i: int| at <= i < bars.len() ==> start <= (#[trigger] bars[i]).timestamp,
    decreases bars.len(),
{
    if bars.len() == 0 || bars.last().timestamp < start {
        assert forall|i: int| 0 <= i < bars.len() implies (#[trigger] bars[i]).timestamp
            < start by {
            assert(i < bars.len() - 1 ==> bars[i].timestamp < bars[bars.len() - 1].timestamp);
        }
        bars.len() as int
    } else {
        let rest = bars.drop_last();
        let at = lemma_place(rest, start);
        assert forall|i: int| 0 <= i < at implies (#[trigger] bars[i]).timestamp < start by {
            assert(rest[i] == bars[i]);
        }
        assert forall|i: int| at <= i < bars.len() implies start <= (
        #[trigger] bars[i]).timestamp by {
            if i < rest.len() {
                assert(rest[i] == bars[i]);
            }
        }
        at
    }
}

/// The bars of a token's trades can be listed, with all the amounts in them.
proof fn lemma_listing(history: Seq<TransactionView>, token_id: Seq<char>, interval: u64) -> (bars:
    Seq<KlineView>)
    requires
        interval > 0,
    ensures
        lists(bars, kline_series(history, token_id, interval)),
        traded(bars) == amounts(
            history.filter(|t: TransactionView| t.token_id == token_id),
        ).to_multiset(),
    decreases history.len(),
{
    broadcast use group_to_multiset_ensures;
    broadcast use Seq::lemma_filter_push;

    let own = |t: TransactionView| t.token_id == token_id;
    if history.len() == 0 {
        reveal(Seq::filter);
        let bars = Seq::<KlineView>::empty();
        assert(by_start(bars) =~= kline_series(history, token_id, interval));
        assert(amounts(history.filter(own)) =~= Seq::<Double>::empty());
        assert(traded(bars) =~= Seq::<Double>::empty().to_multiset());
        bars
    } else {
        let rest = history.drop_last();
        let t = history.last();
        assert(history =~= rest.push(t));
        let before = lemma_listing(rest, token_id, interval);
        new_trade_changes_its_bar(rest, t, token_id, interval);
        if t.token_id == token_id {
            let start = interval_start(t.timestamp, interval);
            let at = lemma_place(before, start);
            assert(amounts(history.filter(own)) =~= amounts(rest.filter(own)).push(t.amount));
            if at < before.len() && before[at].timestamp == start {
                let bar = before[at].with_trade(t.price, t.amount);
                found_by_start(before, at);
                lemma_replace(before, at, bar);
                lemma_traded_replace(before, at, bar, t.amount);
                before.update(at, bar)
            } else {
                let bar = KlineView::opened(start, t.price).with_trade(t.price, t.amount);
                assert(bar.volume =~= seq![t.amount]);
                assert forall|i: int| at <= i < before.len() implies bar.timestamp < (
                #[trigger] before[i]).timestamp by {
                    assert(i > at ==> before[at].timestamp < before[i].timestamp);
                }
                lemma_insert(before, at, bar);
                lemma_traded_insert(before, at, bar, t.amount);
                before.insert(at, bar)
            }
        } else {
            before
        }
    }
}

/// The amounts in the bars of a token are the amounts of its trades: none is lost, and none is
/// counted twice.
pub proof fn every_trade_counted_once(
    history: Seq<TransactionView>,
    token_id: Seq<char>,
    interval: u64,
    bars: Seq<KlineView>,
)
    requires
        interval > 0,
        lists(bars, kline_series(history, token_id, interval)),
    ensures
        traded(bars) == amounts(
            history.filter(|t: TransactionView| t.token_id == token_id),
        ).to_multiset(),
{
    let listing = lemma_listing(history, token_id, interval);
    listing_is_unique(bars, listing, kline_series(history, token_id, interval));
}

/// The amounts in the bars that a request is answered with are the amounts of the token's
/// trades: none is lost, and none is counted twice.
pub proof fn answer_counts_every_trade_once(
    history: Seq<TransactionView>,
    token_id: Seq<char>,
    interval: u64,
    now: u64,
    bars: Seq<KlineView>,
)
    requires
        interval > 0,
        lists(bars, answer(history, books_after(history), token_id, interval, now)),
    ensures
        traded(bars) == amounts(
            history.filter(|t: TransactionView| t.token_id == token_id),
        ).to_multiset(),
{
    answer_is_of_history(history, token_id, interval, now);
    every_trade_counted_once(history, token_id, interval, bars);
}

/// Taking in a trade changes no other token's active bars, and of its own token only the bar of
/// its minute and the bar of its five minutes. Each of these takes it in once, also where they
/// are one, and is opened by it where it was not there.
pub proof fn trade_moves_its_active_bars(books: Books, t: TransactionView)
    ensures
        ({
            let after = recorded(books, t);
            let before = book_of(books, t.token_id);
            let minute = (t.timestamp - t.timestamp % 60) as u64;
            let five = (t.timestamp - t.timestamp % 300) as u64;
            &&& after.dom() == books.dom().insert(t.token_id)
            &&& forall|other: Seq<char>| #[trigger]
                books.contains_key(other) && other != t.token_id ==> after[other] == books[other]
            &&& after[t.token_id].dom() == before.dom().insert(minute).insert(five)
            &&& forall|s: u64| #[trigger]
                before.contains_key(s) && s != minute && s != five ==> after[t.token_id][s]
                    == before[s]
            &&& forall|s: u64|
                s == minute || s == five ==> #[trigger] after[t.token_id][s] == (
                if before.contains_key(s) {
                    before[s].with_trade(t.price, t.amount)
                } else {
                    KlineView {
                        timestamp: s,
                        open: t.price,
                        high: t.price,
                        low: t.price,
                        close: t.price,
                        volume: seq![t.amount],
                    }
                })
        }),
{
    let before = book_of(books, t.token_id);
    let minute = interval_start(t.timestamp, 60);
    let five = interval_start(t.timestamp, 300);
    let first = recorded_at(books, t, 60);
    let after = recorded(books, t);
    reveal_with_fuel(recorded_for, 3);
    assert(ACTIVE_KLINE_INTERVALS@[0] == 60 && ACTIVE_KLINE_INTERVALS@[1] == 300);
    assert(!starts_at(t.timestamp, minute, 0));
    assert(recorded_for(books, t, 1) == first);
    assert(starts_at(t.timestamp, five, 1) == (interval_start(
        t.timestamp,
        ACTIVE_KLINE_INTERVALS@[0],
    ) == five));
    trade_moves_one_bar(before, minute, t.price, t.amount);
    trade_moves_one_bar(book_of(first, t.token_id), five, t.price, t.amount);
    assert(after == if minute == five {
        first
    } else {
        recorded_at(first, t, 300)
    });
    assert(after.dom() =~= books.dom().insert(t.token_id));
    assert(after[t.token_id].dom() =~= before.dom().insert(minute).insert(five));
    assert forall|s: u64| #[trigger]
        before.contains_key(s) && s != minute && s != five implies after[t.token_id][s]
        == before[s] by {
        assert(first[t.token_id].contains_key(s));
    }
    if minute != five {
        assert(first[t.token_id].contains_key(minute));
    }
}

/// The bars of a token that was never recorded are none, and those of any other are its own.
pub proof fn book_is_of_its_token(books: Books, token_id: Seq<char>)
    ensures
        books.contains_key(token_id) ==> book_of(books, token_id) == books[token_id],
        !books.contains_key(token_id) ==> book_of(books, token_id) == Map::<
            u64,
            KlineView,
        >::empty(),
{
}

/// The bucket that starts at a bar's start holds the token's trades of the time that it covers.
proof fn lemma_bucket_is_time_span(
    history: Seq<TransactionView>,
    token_id: Seq<char>,
    interval: u64,
    start: u64,
)
    requires
        interval > 0,
        start % interval == 0,
    ensures
        bucket(history, token_id, interval, start) == history.filter(
            |t: TransactionView|
                t.token_id == token_id && start <= t.timestamp < start + interval,
        ),
{
    let p = |t: TransactionView|
        t.token_id == token_id && interval_start(t.timestamp, interval) == start;
    let q = |t: TransactionView|
        t.token_id == token_id && start <= t.timestamp < start + interval;
    assert forall|i: int| 0 <= i < history.len() implies p(#[trigger] history[i]) == q(
        history[i],
    ) by {
        bucket_bounds(history[i].timestamp, interval, start);
    }
    lemma_same_filter(history, p, q);
}

/// Each bar of a token starts at a multiple of the interval. It opens at the price of the first
/// of the token's trades from its start up to the next multiple, closes at that of the last,
/// holds the amounts of all of them in their order, and has as its highest and lowest price one
/// of theirs that none is above or below.
pub proof fn bar_says_what_was_traded(
    history: Seq<TransactionView>,
    token_id: Seq<char>,
    interval: u64,
    bars: Seq<KlineView>,
    at: int,
)
    requires
        interval > 0,
        lists(bars, kline_series(history, token_id, interval)),
        0 <= at < bars.len(),
    ensures
        ({
            let bar = bars[at];
            let span = history.filter(
                |t: TransactionView|
                    t.token_id == token_id && bar.timestamp <= t.timestamp < bar.timestamp
                        + interval,
            );
            &&& bar.timestamp % interval == 0
            &&& span.len() > 0
            &&& bar.open == span[0].price
            &&& bar.close == span[span.len() - 1].price
            &&& bar.volume.len() == span.len()
            &&& forall|i: int| 0 <= i < span.len() ==> #[trigger] bar.volume[i] == span[i].amount
            &&& forall|i: int|
                0 <= i < span.len() ==> {
                    &&& !bar.high.less((#[trigger] span[i]).price)
                    &&& !span[i].price.less(bar.low)
                    &&& !span[i].price.is_nan() ==> !bar.high.is_nan() && !bar.low.is_nan()
                }
            &&& exists|i: int| 0 <= i < span.len() && (#[trigger] span[i]).price == bar.high
            &&& exists|i: int| 0 <= i < span.len() && (#[trigger] span[i]).price == bar.low
        }),
{
    let bar = bars[at];
    let start = bar.timestamp;
    let trades = bucket(history, token_id, interval, start);
    found_by_start(bars, at);
    assert(start % interval == 0) by {
        history.lemma_filter_pred(
            |t: TransactionView|
                t.token_id == token_id && interval_start(t.timestamp, interval) == start,
            0,
        );
        bucket_bounds(trades[0].timestamp, interval, start);
    }
    lemma_bucket_is_time_span(history, token_id, interval, start);
    bar_opens_closes_and_counts(start, trades);
    prices_within_bar(start, trades);
}

/// Each trade of a token is in the time that one of its bars covers.
pub proof fn every_trade_has_a_bar(
    history: Seq<TransactionView>,
    token_id: Seq<char>,
    interval: u64,
    bars: Seq<KlineView>,
    i: int,
)
    requires
        interval > 0,
        lists(bars, kline_series(history, token_id, interval)),
        0 <= i < history.len(),
        history[i].token_id == token_id,
    ensures
        exists|at: int|
            0 <= at < bars.len() && (#[trigger] bars[at]).timestamp <= history[i].timestamp
                < bars[at].timestamp + interval,
{
    let t = history[i];
    let start = interval_start(t.timestamp, interval);
    bucket_bounds(t.timestamp, interval, start);
    history.lemma_filter_contains(
        |u: TransactionView|
            u.token_id == token_id && interval_start(u.timestamp, interval) == start,
        i,
    );
    assert(bucket(history, token_id, interval, start).contains(t));
    assert(kline_series(history, token_id, interval).contains_key(start));
    assert(has_bar(bars, start));
}

} // verus!
