//! The simulated market: which token is traded next, and at what price.

use crate::double::Double;
use crate::transaction::Transaction;
use crate::transaction::TransactionView;
use vstd::arithmetic::div_mod::lemma_add_mod_noop_right;
use vstd::arithmetic::div_mod::lemma_mod_bound;
use vstd::arithmetic::div_mod::lemma_mod_self_0;
use vstd::arithmetic::div_mod::lemma_small_mod;
use vstd::prelude::*;

verus! {

/// The bit pattern of the number one, which no price falls below.
pub const LOWEST_PRICE_BITS: u64 = 0x3ff0_0000_0000_0000;

/// The number one.
pub open spec fn lowest_price() -> Double {
    Double { bits: LOWEST_PRICE_BITS }
}

/// A price, or the lowest price where it is below that.
pub open spec fn held_up(price: Double) -> Double {
    if price.less(lowest_price()) {
        lowest_price()
    } else {
        price
    }
}

/// Keeps a price from falling below the lowest price.
pub fn hold_up(price: Double) -> (result: Double)
    ensures
        result == held_up(price),
        !result.less(lowest_price()),
        price.less(Double { bits: 0x3ff0_0000_0000_0000 }) ==> result.bits
            == 0x3ff0_0000_0000_0000,
        !price.less(Double { bits: 0x3ff0_0000_0000_0000 }) ==> result == price,
{
    let lowest = Double { bits: LOWEST_PRICE_BITS };
    if price.less_than(lowest) {
        lowest
    } else {
        price
    }
}

/// The tokens of the market, in the order in which they are traded.
pub open spec fn tokens() -> Seq<Seq<char>> {
    seq!["MEMEALPHA"@, "TOKENBETA"@, "COINGAMMA"@]
}

/// The tokens of the market.
pub fn token_ids() -> (ids: Vec<String>)
    ensures
        ids@.map_values(|id: String| id@) == tokens(),
        ids@.len() == 3,
        ids@[0]@ == "MEMEALPHA"@,
        ids@[1]@ == "TOKENBETA"@,
        ids@[2]@ == "COINGAMMA"@,
{
    let mut ids: Vec<String> = Vec::new();
    ids.push("MEMEALPHA".to_owned());
    ids.push("TOKENBETA".to_owned());
    ids.push("COINGAMMA".to_owned());
    assert(ids@.map_values(|id: String| id@) =~= tokens());
    ids
}

/// The market: the last price of each token, and whose turn it is.
pub struct Market {
    pub prices: Seq<Double>,
    pub turn: int,
}

impl Market {
    /// Every token has a price, and it is the turn of one of them.
    pub open spec fn valid(self) -> bool {
        &&& self.prices.len() == tokens().len()
        &&& 0 <= self.turn < tokens().len()
    }

    /// The trade of the token whose turn it is, if its price moves to `moved`.
    pub open spec fn trade(self, timestamp: u64, moved: Double, amount: Double) -> TransactionView {
        TransactionView {
            token_id: tokens()[self.turn],
            timestamp,
            price: held_up(moved),
            amount,
        }
    }

    /// The market after that trade.
    pub open spec fn traded(self, moved: Double) -> Market {
        Market {
            prices: self.prices.update(self.turn, held_up(moved)),
            turn: (self.turn + 1) % tokens().len() as int,
        }
    }

    /// The market after a list of trades, with the prices that they move to.
    pub open spec fn after(self, moved: Seq<Double>) -> Market
        decreases moved.len(),
    {
        if moved.len() == 0 {
            self
        } else {
            self.after(moved.drop_last()).traded(moved.last())
        }
    }
}

/// A simulated market.
pub struct Simulator {
    token_ids: Vec<String>,
    prices: Vec<Double>,
    token_index: usize,
}

impl View for Simulator {
    type V = Market;

    closed spec fn view(&self) -> Market {
        Market { prices: self.prices@, turn: self.token_index as int }
    }
}

impl Simulator {
    /// The tokens are those of the market, each with a price.
    pub closed spec fn well_formed(&self) -> bool {
        &&& self.token_ids@.map_values(|id: String| id@) == tokens()
        &&& self@.valid()
    }

    /// A market in which the tokens have the prices given, and the first is traded first.
    pub fn new(prices: Vec<Double>) -> (simulator: Simulator)
        requires
            prices@.len() == tokens().len(),
        ensures
            simulator.well_formed(),
            simulator@ == (Market { prices: prices@, turn: 0 }),
    {
        Simulator { token_ids: token_ids(), prices, token_index: 0 }
    }

    /// The last price of the token whose turn it is.
    pub fn current_price(&self) -> (price: Double)
        requires
            self.well_formed(),
        ensures
            price == self@.prices[self@.turn],
    {
        self.prices[self.token_index]
    }

    /// Trades the token whose turn it is. `moved` is the price to which its last price moves.
    pub fn trade(&mut self, timestamp: u64, moved: Double, amount: Double) -> (tx: Transaction)
        requires
            old(self).well_formed(),
        ensures
            final(self).well_formed(),
            final(self)@ == old(self)@.traded(moved),
            tx@ == old(self)@.trade(timestamp, moved, amount),
            tx.timestamp == timestamp,
            tx.amount == amount,
            tx.price == final(self)@.prices[old(self)@.turn],
            moved.less(Double { bits: 0x3ff0_0000_0000_0000 }) ==> tx.price.bits
                == 0x3ff0_0000_0000_0000,
            !moved.less(Double { bits: 0x3ff0_0000_0000_0000 }) ==> tx.price == moved,
    {
        let at: usize = self.token_index;
        assert(self.token_ids@.len() == self.token_ids@.map_values(|id: String| id@).len());
        assert(self.token_ids@.map_values(|id: String| id@)[at as int]
            == self.token_ids@[at as int]@);
        let price = hold_up(moved);
        self.prices.set(at, price);
        self.token_index = (at + 1) % self.token_ids.len();
        Transaction { token_id: self.token_ids[at].clone(), timestamp, price, amount }
    }
}

/// The tokens take turns: after any trades, it is the turn of the token as many places further
/// on as there were trades.
pub proof fn tokens_take_turns(market: Market, moved: Seq<Double>)
    requires
        market.valid(),
    ensures
        market.after(moved).valid(),
        market.after(moved).turn == (market.turn + moved.len()) % tokens().len() as int,
    decreases moved.len(),
{
    let n = tokens().len() as int;
    assert(n == 3);
    if moved.len() == 0 {
        lemma_small_mod(market.turn as nat, n as nat);
    } else {
        tokens_take_turns(market, moved.drop_last());
        let before = market.after(moved.drop_last());
        lemma_mod_bound(before.turn + 1, n);
        lemma_add_mod_noop_right(1, market.turn + moved.len() - 1, n);
    }
}

/// No price ever falls below the lowest price, if none is below it at first.
pub proof fn prices_stay_up(market: Market, moved: Seq<Double>)
    requires
        market.valid(),
        forall|i: int|
            0 <= i < market.prices.len() ==> !(#[trigger] market.prices[i]).less(lowest_price()),
    ensures
        forall|i: int|
            0 <= i < market.after(moved).prices.len() ==> !(
            #[trigger] market.after(moved).prices[i]).less(lowest_price()),
    decreases moved.len(),
{
    if moved.len() > 0 {
        let before = market.after(moved.drop_last());
        let after = market.after(moved);
        prices_stay_up(market, moved.drop_last());
        tokens_take_turns(market, moved.drop_last());
        assert forall|i: int| 0 <= i < after.prices.len() implies !(
        #[trigger] after.prices[i]).less(lowest_price()) by {
            if i != before.turn {
                assert(after.prices[i] == before.prices[i]);
            }
        }
    }
}

/// A price below one is held up at one, and every other price is left as it is.
pub proof fn only_prices_below_one_change(price: Double)
    ensures
        price.less(Double { bits: 0x3ff0_0000_0000_0000 }) ==> held_up(price) == (Double {
            bits: 0x3ff0_0000_0000_0000,
        }),
        !price.less(Double { bits: 0x3ff0_0000_0000_0000 }) ==> held_up(price) == price,
{
}

/// The tokens of the market are these three, in this order.
pub proof fn three_tokens()
    ensures
        tokens().len() == 3,
        tokens()[0] == "MEMEALPHA"@,
        tokens()[1] == "TOKENBETA"@,
        tokens()[2] == "COINGAMMA"@,
{
}

/// A trade is of the token whose turn it is, at the time and of the amount given. Its price is
/// the moved price, or one where that is below one, and is the price that the market then keeps
/// for the token. The other tokens keep their prices, and it is the turn of the next one, which
/// after the last is the first.
pub proof fn trade_is_at_the_price_kept(
    market: Market,
    timestamp: u64,
    moved: Double,
    amount: Double,
)
    requires
        market.valid(),
    ensures
        ({
            let tx = market.trade(timestamp, moved, amount);
            let after = market.traded(moved);
            &&& tx.token_id == (if market.turn == 0 {
                "MEMEALPHA"@
            } else if market.turn == 1 {
                "TOKENBETA"@
            } else {
                "COINGAMMA"@
            })
            &&& tx.timestamp == timestamp
            &&& tx.amount == amount
            &&& moved.less(Double { bits: 0x3ff0_0000_0000_0000 }) ==> tx.price == (Double {
                bits: 0x3ff0_0000_0000_0000,
            })
            &&& !moved.less(Double { bits: 0x3ff0_0000_0000_0000 }) ==> tx.price == moved
            &&& after.prices.len() == 3
            &&& after.prices[market.turn] == tx.price
            &&& forall|i: int|
                0 <= i < 3 && i != market.turn ==> #[trigger] after.prices[i] == market.prices[i]
            &&& after.turn == (if market.turn == 2 {
                0
            } else {
                market.turn + 1
            })
        }),
{
    let n = tokens().len() as int;
    assert(n == 3);
    if market.turn == 2 {
        lemma_mod_self_0(n);
    } else {
        lemma_small_mod((market.turn + 1) as nat, n as nat);
    }
}

/// The price of a token is that of its last trade: three trades on, when it is its turn again,
/// the walk goes on from the price that it was traded at.
pub proof fn walk_goes_on_from_last_trade(
    market: Market,
    timestamp: u64,
    moved: Double,
    amount: Double,
    second: Double,
    third: Double,
)
    requires
        market.valid(),
    ensures
        ({
            let later = market.traded(moved).traded(second).traded(third);
            &&& later.turn == market.turn
            &&& later.prices[later.turn] == market.trade(timestamp, moved, amount).price
        }),
{
    let one = market.traded(moved);
    let two = one.traded(second);
    trade_is_at_the_price_kept(market, timestamp, moved, amount);
    trade_is_at_the_price_kept(one, timestamp, second, amount);
    trade_is_at_the_price_kept(two, timestamp, third, amount);
}

} // verus!
