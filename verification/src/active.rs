//! The bars of the current buckets, kept up to date trade by trade.

use crate::interval::interval_start;
use crate::interval::interval_start_ts;
use crate::interval::ACTIVE_KLINE_INTERVALS;
use crate::kline::Kline;
use crate::kline::KlineView;
use crate::series::series_with_trade;
use crate::series::KlineSeries;
use crate::transaction::Transaction;
use crate::transaction::TransactionView;
use vstd::prelude::*;

verus! {

/// The bars of each token, by their starts.
pub type Books = Map<Seq<char>, Map<u64, KlineView>>;

/// The bars of one token.
struct Book {
    token_id: String,
    series: KlineSeries,
}

/// The bars of all tokens, for the intervals in `ACTIVE_KLINE_INTERVALS`. A bar is found by its
/// token and its start. Where buckets of two intervals start together they share a bar, and a
/// trade that lies in both is taken into it once.
pub struct ActiveKlines {
    books: Vec<Book>,
}

/// Some book is the token's.
spec fn has_book(books: Seq<Book>, token_id: Seq<char>) -> bool {
    exists|i: int| 0 <= i < books.len() && (#[trigger] books[i]).token_id@ == token_id
}

/// The books by their tokens.
spec fn by_token(books: Seq<Book>) -> Books {
    Map::new(
        |token_id: Seq<char>| has_book(books, token_id),
        |token_id: Seq<char>|
            books[choose|i: int|
                0 <= i < books.len() && (#[trigger] books[i]).token_id@ == token_id].series@,
    )
}

/// Each token has one book.
spec fn distinct(books: Seq<Book>) -> bool {
    forall|i: int, j: int|
        0 <= i < j < books.len() ==> (#[trigger] books[i]).token_id@ != (
        #[trigger] books[j]).token_id@
}

/// The bars of a token. A token that was never traded has none.
pub open spec fn book_of(books: Books, token_id: Seq<char>) -> Map<u64, KlineView> {
    if books.contains_key(token_id) {
        books[token_id]
    } else {
        Map::empty()
    }
}

/// The bars after a trade was taken into its bucket of length `interval`.
pub open spec fn recorded_at(books: Books, t: TransactionView, interval: u64) -> Books {
    books.insert(
        t.token_id,
        series_with_trade(
            book_of(books, t.token_id),
            interval_start(t.timestamp, interval),
            t.price,
            t.amount,
        ),
    )
}

/// The bucket that holds the time `timestamp` starts at `start`, for one of the first `n`
/// active intervals.
pub open spec fn starts_at(timestamp: u64, start: u64, n: int) -> bool {
    exists|k: int|
        0 <= k < n && interval_start(timestamp, #[trigger] ACTIVE_KLINE_INTERVALS@[k]) == start
}

/// The bars after a trade was taken into its buckets of the first `n` active intervals, once
/// for each start.
pub open spec fn recorded_for(books: Books, t: TransactionView, n: nat) -> Books
    decreases n,
{
    if n == 0 {
        books
    } else {
        let before = recorded_for(books, t, (n - 1) as nat);
        let interval = ACTIVE_KLINE_INTERVALS@[n - 1];
        if starts_at(t.timestamp, interval_start(t.timestamp, interval), n - 1) {
            before
        } else {
            recorded_at(before, t, interval)
        }
    }
}

/// The bars after a trade was taken into its buckets of all active intervals, once for each
/// start.
pub open spec fn recorded(books: Books, t: TransactionView) -> Books {
    recorded_for(books, t, ACTIVE_KLINE_INTERVALS@.len())
}

/// Each book is found by its token.
proof fn lemma_found_by_token(books: Seq<Book>, i: int)
    requires
        distinct(books),
        0 <= i < books.len(),
    ensures
        by_token(books).contains_key(books[i].token_id@),
        by_token(books)[books[i].token_id@] == books[i].series@,
{
    let token_id = books[i].token_id@;
    assert(has_book(books, token_id));
    let j = choose|j: int| 0 <= j < books.len() && (#[trigger] books[j]).token_id@ == token_id;
    assert(i == j) by {
        if i < j {
            assert(books[i].token_id@ != books[j].token_id@);
        } else if j < i {
            assert(books[j].token_id@ != books[i].token_id@);
        }
    }
}

/// Changing one book, which may be a new one at the end.
proof fn lemma_book_changed(before: Seq<Book>, after: Seq<Book>, at: int)
    requires
        distinct(before),
        distinct(after),
        0 <= at < after.len(),
        before.len() <= after.len(),
        after.len() == before.len() || after.len() == before.len() + 1 && at == before.len(),
        forall|i: int| 0 <= i < before.len() && i != at ==> #[trigger] after[i] == before[i],
        at < before.len() ==> after[at].token_id@ == before[at].token_id@,
    ensures
        by_token(after) == by_token(before).insert(after[at].token_id@, after[at].series@),
{
    let token = after[at].token_id@;
    let expected = by_token(before).insert(token, after[at].series@);
    assert forall|t: Seq<char>| #[trigger] has_book(after, t) == (has_book(before, t) || t
        == token) by {
        if has_book(before, t) {
            let i = choose|i: int| 0 <= i < before.len() && (#[trigger] before[i]).token_id@ == t;
            assert(after[i].token_id@ == t);
        }
        if has_book(after, t) && t != token {
            let i = choose|i: int| 0 <= i < after.len() && (#[trigger] after[i]).token_id@ == t;
            assert(i != at);
            assert(before[i].token_id@ == t);
        }
        assert(has_book(after, token));
    }
    assert forall|t: Seq<char>| has_book(after, t) implies #[trigger] by_token(after)[t]
        == expected[t] by {
        let i = choose|i: int| 0 <= i < after.len() && (#[trigger] after[i]).token_id@ == t;
        lemma_found_by_token(after, i);
        if t != token {
            lemma_found_by_token(before, i);
        } else {
            lemma_found_by_token(after, at);
        }
    }
    assert(by_token(after) =~= expected);
}

/// Tells whether the bucket that holds `timestamp` starts at `start`, for one of the first `n`
/// active intervals.
fn bucket_starts_at(timestamp: u64, start: u64, n: usize) -> (result: bool)
    requires
        n <= ACTIVE_KLINE_INTERVALS@.len(),
    ensures
        result == starts_at(timestamp, start, n as int),
{
    let mut k: usize = 0;
    while k < n
        invariant
            k <= n <= ACTIVE_KLINE_INTERVALS@.len(),
            !starts_at(timestamp, start, k as int),
        decreases n - k,
    {
        if interval_start_ts(timestamp, ACTIVE_KLINE_INTERVALS[k]) == start {
            assert(interval_start(timestamp, ACTIVE_KLINE_INTERVALS@[k as int]) == start);
            return true;
        }
        k = k + 1;
    }
    false
}

impl View for ActiveKlines {
    type V = Books;

    closed spec fn view(&self) -> Books {
        by_token(self.books@)
    }
}

impl ActiveKlines {
    /// Each token has one book, and its bars are in order.
    pub closed spec fn well_formed(&self) -> bool {
        &&& distinct(self.books@)
        &&& forall|i: int|
            0 <= i < self.books@.len() ==> (#[trigger] self.books@[i]).series.well_formed()
    }

    /// No bars.
    pub fn new() -> (active: ActiveKlines)
        ensures
            active.well_formed(),
            active@ == Map::<Seq<char>, Map<u64, KlineView>>::empty(),
    {
        let active = ActiveKlines { books: Vec::new() };
        assert(active@ =~= Map::<Seq<char>, Map<u64, KlineView>>::empty());
        active
    }

    /// The place of a token's book.
    fn position(&self, token_id: &String) -> (at: Option<usize>)
        ensures
            match at {
                Some(at) => at < self.books@.len() && self.books@[at as int].token_id@ == token_id@,
                None => !has_book(self.books@, token_id@),
            },
    {
        let mut i: usize = 0;
        while i < self.books.len()
            invariant
                i <= self.books@.len(),
                forall|j: int| 0 <= j < i ==> (#[trigger] self.books@[j]).token_id@ != token_id@,
            decreases self.books@.len() - i,
        {
            if self.books[i].token_id == *token_id {
                return Some(i);
            }
            i = i + 1;
        }
        None
    }

    /// The bar of a token that starts at `start`.
    pub fn get(&self, token_id: &str, start: u64) -> (kline: Option<&Kline>)
        requires
            self.well_formed(),
        ensures
            match kline {
                Some(kline) => {
                    &&& book_of(self@, token_id@).contains_key(start)
                    &&& kline@ == book_of(self@, token_id@)[start]
                    &&& kline.timestamp == start
                },
                None => !book_of(self@, token_id@).contains_key(start),
            },
    {
        match self.position(&token_id.to_owned()) {
            Some(at) => {
                proof {
                    lemma_found_by_token(self.books@, at as int);
                }
                self.books[at].series.get(start)
            },
            None => None,
        }
    }

    /// Takes a trade into its bucket of length `interval`.
    fn record_at(&mut self, tx: &Transaction, interval: u64)
        requires
            old(self).well_formed(),
            interval > 0,
        ensures
            final(self).well_formed(),
            final(self)@ == recorded_at(old(self)@, tx@, interval),
    {
        let start: u64 = interval_start_ts(tx.timestamp, interval);
        let ghost before = self.books@;
        let at: usize = match self.position(&tx.token_id) {
            Some(at) => at,
            None => {
                let series = KlineSeries::new();
                self.books.push(Book { token_id: tx.token_id.clone(), series });
                self.books.len() - 1
            },
        };
        let ghost middle = self.books@;
        proof {
            if at < before.len() {
                lemma_found_by_token(before, at as int);
            }
            assert(distinct(middle));
            assert(middle[at as int].series@ == book_of(old(self)@, tx@.token_id));
        }
        self.books[at].series.record(start, tx.price, tx.amount);
        proof {
            assert(distinct(self.books@));
            lemma_book_changed(before, self.books@, at as int);
        }
    }

    /// Takes a trade into its bucket of each active interval, once for each start.
    pub fn record(&mut self, tx: &Transaction)
        requires
            old(self).well_formed(),
        ensures
            final(self).well_formed(),
            final(self)@ == recorded(old(self)@, tx@),
    {
        let ghost before = self@;
        let mut i: usize = 0;
        while i < ACTIVE_KLINE_INTERVALS.len()
            invariant
                i <= ACTIVE_KLINE_INTERVALS@.len(),
                self.well_formed(),
                self@ == recorded_for(before, tx@, i as nat),
            decreases ACTIVE_KLINE_INTERVALS@.len() - i,
        {
            let interval: u64 = ACTIVE_KLINE_INTERVALS[i];
            if !bucket_starts_at(tx.timestamp, interval_start_ts(tx.timestamp, interval), i) {
                self.record_at(tx, interval);
            }
            i = i + 1;
        }
    }
}

} // verus!
