//! Trades.

use crate::double::Double;
use vstd::prelude::*;

verus! {

/// A trade of a token.
#[derive(Debug)]
pub struct Transaction {
    /// The token that was traded.
    pub token_id: String,
    /// When it was traded, in seconds of Unix time.
    pub timestamp: u64,
    /// The price that was paid.
    pub price: Double,
    /// The amount that was traded.
    pub amount: Double,
}

/// What a trade says.
pub struct TransactionView {
    pub token_id: Seq<char>,
    pub timestamp: u64,
    pub price: Double,
    pub amount: Double,
}

impl View for Transaction {
    type V = TransactionView;

    open spec fn view(&self) -> TransactionView {
        TransactionView {
            token_id: self.token_id@,
            timestamp: self.timestamp,
            price: self.price,
            amount: self.amount,
        }
    }
}

impl Clone for Transaction {
    fn clone(&self) -> (copy: Transaction)
        ensures
            copy@ == self@,
            copy.token_id@ == self.token_id@,
            copy.timestamp == self.timestamp,
            copy.price == self.price,
            copy.amount == self.amount,
    {
        Transaction {
            token_id: self.token_id.clone(),
            timestamp: self.timestamp,
            price: self.price,
            amount: self.amount,
        }
    }
}

/// What a list of trades says.
pub open spec fn trades(transactions: Seq<Transaction>) -> Seq<TransactionView> {
    transactions.map_values(|t: Transaction| t@)
}

/// What a list of trades says is what each of them holds, in their order.
pub proof fn trades_say_what_they_hold(transactions: Seq<Transaction>)
    ensures
        trades(transactions).len() == transactions.len(),
        forall|i: int|
            0 <= i < transactions.len() ==> {
                &&& (#[trigger] trades(transactions)[i]).token_id == transactions[i].token_id@
                &&& trades(transactions)[i].timestamp == transactions[i].timestamp
                &&& trades(transactions)[i].price == transactions[i].price
                &&& trades(transactions)[i].amount == transactions[i].amount
            },
{
}

} // verus!
