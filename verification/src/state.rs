//! What the service knows: the trades made so far.

use crate::active::recorded;
use crate::active::ActiveKlines;
use crate::active::Books;
use crate::interval::interval_value;
use crate::kline::bars;
use crate::kline::Kline;
use crate::laws::answer_is_of_history;
use crate::query::answer;
use crate::query::get_klines;
use crate::query::QueryError;
use crate::series::kline_series;
use crate::series::lists;
use crate::transaction::trades;
use crate::transaction::Transaction;
use crate::transaction::TransactionView;
use vstd::prelude::*;

verus! {

/// The active bars after the trades of a history, taken in one after the other.
pub open spec fn books_after(history: Seq<TransactionView>) -> Books
    decreases history.len(),
{
    if history.len() == 0 {
        Map::empty()
    } else {
        recorded(books_after(history.drop_last()), history.last())
    }
}

/// All the trades made so far, and the active bars that they give.
pub struct AppState {
    transactions: Vec<Transaction>,
    active_klines: ActiveKlines,
}

impl View for AppState {
    type V = Seq<TransactionView>;

    closed spec fn view(&self) -> Seq<TransactionView> {
        trades(self.transactions@)
    }
}

impl AppState {
    /// The active bars are those of the trades.
    pub closed spec fn well_formed(&self) -> bool {
        &&& self.active_klines.well_formed()
        &&& self.active_klines@ == books_after(self@)
    }

    /// No trades were made yet.
    pub fn new() -> (state: AppState)
        ensures
            state.well_formed(),
            state@ == Seq::<TransactionView>::empty(),
    {
        let state = AppState { transactions: Vec::new(), active_klines: ActiveKlines::new() };
        assert(state@ =~= Seq::<TransactionView>::empty());
        state
    }

    /// Takes in a new trade.
    pub fn record(&mut self, tx: Transaction)
        requires
            old(self).well_formed(),
        ensures
            final(self).well_formed(),
            final(self)@ == old(self)@.push(tx@),
    {
        let ghost before = self@;
        self.active_klines.record(&tx);
        self.transactions.push(tx);
        proof {
            assert(self@ =~= before.push(tx@));
            assert(self@.drop_last() =~= before);
        }
    }

    /// Answers a request for the bars of a token that is made at the time `now_ts`.
    pub fn get_klines(&self, token_id: &str, interval: &str, now_ts: u64) -> (result: Result<
        Vec<Kline>,
        QueryError,
    >)
        requires
            self.well_formed(),
        ensures
            match interval_value(interval@) {
                None => result matches Err(QueryError::InvalidInterval(text)) && text@
                    == interval@,
                Some(seconds) => if seconds == 0 {
                    result matches Err(QueryError::ZeroInterval)
                } else {
                    result matches Ok(klines) && lists(
                        bars(klines@),
                        answer(self@, books_after(self@), token_id@, seconds, now_ts),
                    ) && lists(bars(klines@), kline_series(self@, token_id@, seconds))
                },
            },
    {
        proof {
            if let Some(seconds) = interval_value(interval@) {
                if seconds > 0 {
                    answer_is_of_history(self@, token_id@, seconds, now_ts);
                }
            }
        }
        get_klines(
            token_id,
            interval,
            self.transactions.as_slice(),
            &self.active_klines,
            now_ts,
        )
    }
}

} // verus!
