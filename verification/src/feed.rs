//! The live feed: how the trades reach a connected client.

use crate::transaction::TransactionView;
use vstd::prelude::*;

verus! {

/// What happens while trades are forwarded to a client.
#[derive(Clone, Copy, Debug, PartialEq, Eq, Structural)]
pub enum ForwardEvent {
    /// The client has just connected.
    Connected,
    /// A trade was received.
    TradeReceived,
    /// The client fell behind, and the oldest trades that it had not received were dropped.
    Lagged,
    /// No further trade can be received.
    TradesEnded,
    /// The trade was encoded.
    Encoded,
    /// The trade could not be encoded.
    NotEncoded,
    /// The trade was sent.
    Sent,
    /// The trade could not be sent.
    NotSent,
}

/// What to do next for a client.
#[derive(Clone, Copy, Debug, PartialEq, Eq, Structural)]
pub enum ForwardAction {
    /// Wait for a trade.
    Receive,
    /// Encode the trade that was received.
    Encode,
    /// Send the trade that was encoded.
    Send,
    /// Forward nothing any more.
    Stop,
}

/// Each trade that is received is encoded, and sent where that succeeds. Forwarding stops
/// when a trade cannot be sent or no further trade can be received, and at no other time: a
/// client that falls behind goes on with the trades that are left.
pub open spec fn forward_action(event: ForwardEvent) -> ForwardAction {
    match event {
        ForwardEvent::TradeReceived => ForwardAction::Encode,
        ForwardEvent::Encoded => ForwardAction::Send,
        ForwardEvent::TradesEnded | ForwardEvent::NotSent => ForwardAction::Stop,
        ForwardEvent::Connected
        | ForwardEvent::Lagged
        | ForwardEvent::NotEncoded
        | ForwardEvent::Sent => ForwardAction::Receive,
    }
}

/// Decides what to do next for a client.
pub fn next_forward(event: ForwardEvent) -> (action: ForwardAction)
    ensures
        action == forward_action(event),
{
    match event {
        ForwardEvent::Connected => ForwardAction::Receive,
        ForwardEvent::TradeReceived => ForwardAction::Encode,
        ForwardEvent::Lagged => ForwardAction::Receive,
        ForwardEvent::TradesEnded => ForwardAction::Stop,
        ForwardEvent::Encoded => ForwardAction::Send,
        ForwardEvent::NotEncoded => ForwardAction::Receive,
        ForwardEvent::Sent => ForwardAction::Receive,
        ForwardEvent::NotSent => ForwardAction::Stop,
    }
}

/// How a trade fares on its way to a client.
pub struct Passage {
    pub trade: TransactionView,
    pub encodable: bool,
    pub sendable: bool,
}

/// What receiving gives.
pub enum Arrival {
    /// A trade.
    Trade(Passage),
    /// Word that trades were missed.
    Lag,
}

/// What happens when an action is taken. `pending` is what is still to be received, and
/// `current` how the trade in hand fares.
pub open spec fn outcome(
    action: ForwardAction,
    pending: Seq<Arrival>,
    current: Passage,
) -> ForwardEvent {
    match action {
        ForwardAction::Receive => if pending.len() == 0 {
            ForwardEvent::TradesEnded
        } else if pending.first() is Lag {
            ForwardEvent::Lagged
        } else {
            ForwardEvent::TradeReceived
        },
        ForwardAction::Encode => if current.encodable {
            ForwardEvent::Encoded
        } else {
            ForwardEvent::NotEncoded
        },
        ForwardAction::Send => if current.sendable {
            ForwardEvent::Sent
        } else {
            ForwardEvent::NotSent
        },
        ForwardAction::Stop => ForwardEvent::TradesEnded,
    }
}

/// How many events can follow before something is received again.
pub open spec fn events_left(event: ForwardEvent) -> nat {
    match event {
        ForwardEvent::TradeReceived => 3,
        ForwardEvent::Encoded => 2,
        ForwardEvent::Connected
        | ForwardEvent::Lagged
        | ForwardEvent::NotEncoded
        | ForwardEvent::Sent => 1,
        ForwardEvent::TradesEnded | ForwardEvent::NotSent => 0,
    }
}

/// The trades that reach a client after an event, when each action is taken that is decided
/// upon, until forwarding stops.
pub open spec fn delivered(
    event: ForwardEvent,
    pending: Seq<Arrival>,
    current: Passage,
) -> Seq<TransactionView>
    decreases pending.len(), events_left(event),
{
    let action = forward_action(event);
    let next = outcome(action, pending, current);
    if action == ForwardAction::Stop {
        Seq::empty()
    } else if next == ForwardEvent::TradeReceived {
        delivered(next, pending.drop_first(), pending.first()->Trade_0)
    } else if next == ForwardEvent::Lagged {
        delivered(next, pending.drop_first(), current)
    } else if next == ForwardEvent::Sent {
        seq![current.trade] + delivered(next, pending, current)
    } else {
        delivered(next, pending, current)
    }
}

/// The trades among some arrivals that can be encoded, in order.
pub open spec fn encodable_trades(arrivals: Seq<Arrival>) -> Seq<TransactionView>
    decreases arrivals.len(),
{
    if arrivals.len() == 0 {
        Seq::empty()
    } else {
        let rest = encodable_trades(arrivals.drop_first());
        match arrivals.first() {
            Arrival::Trade(p) if p.encodable => seq![p.trade] + rest,
            _ => rest,
        }
    }
}

/// A trade that is to be sent and cannot be.
pub open spec fn send_fails(arrival: Arrival) -> bool {
    arrival matches Arrival::Trade(p) && p.encodable && !p.sendable
}

/// A client gets every trade that is received and can be encoded, in order, up to the first one
/// that cannot be sent, and nothing from there on. Trades that were missed do not stop the rest.
pub proof fn trades_delivered_until_send_fails(
    event: ForwardEvent,
    pending: Seq<Arrival>,
    current: Passage,
    end: int,
)
    requires
        event == ForwardEvent::Connected || event == ForwardEvent::Lagged || event
            == ForwardEvent::NotEncoded || event == ForwardEvent::Sent,
        0 <= end <= pending.len(),
        forall|i: int| 0 <= i < end ==> !send_fails(#[trigger] pending[i]),
        end < pending.len() ==> send_fails(pending[end]),
    ensures
        delivered(event, pending, current) == encodable_trades(pending.take(end)),
    decreases pending.len(),
{
    if pending.len() == 0 {
        assert(delivered(ForwardEvent::TradesEnded, pending, current)
            =~= Seq::<TransactionView>::empty());
    } else {
        let first = pending.first();
        let rest = pending.drop_first();
        if end > 0 {
            assert(!send_fails(pending[0]));
            assert(pending.take(end).drop_first() =~= rest.take(end - 1));
            assert forall|i: int| 0 <= i < end - 1 implies !send_fails(#[trigger] rest[i]) by {
                assert(rest[i] == pending[i + 1]);
            }
        }
        match first {
            Arrival::Lag => {
                trades_delivered_until_send_fails(ForwardEvent::Lagged, rest, current, end - 1);
            },
            Arrival::Trade(p) => {
                assert(delivered(event, pending, current) == delivered(
                    ForwardEvent::TradeReceived,
                    rest,
                    p,
                ));
                if !p.encodable {
                    trades_delivered_until_send_fails(
                        ForwardEvent::NotEncoded,
                        rest,
                        p,
                        end - 1,
                    );
                } else if p.sendable {
                    trades_delivered_until_send_fails(ForwardEvent::Sent, rest, p, end - 1);
                    assert(delivered(ForwardEvent::Encoded, rest, p) == seq![p.trade]
                        + delivered(ForwardEvent::Sent, rest, p));
                } else {
                    assert(delivered(ForwardEvent::NotSent, rest, p)
                        =~= Seq::<TransactionView>::empty());
                    assert(delivered(ForwardEvent::Encoded, rest, p) == delivered(
                        ForwardEvent::NotSent,
                        rest,
                        p,
                    ));
                }
            },
        }
    }
}

/// A client to which everything can be sent gets every trade that is received and can be
/// encoded, in order.
pub proof fn every_trade_is_delivered(
    event: ForwardEvent,
    pending: Seq<Arrival>,
    current: Passage,
)
    requires
        event == ForwardEvent::Connected || event == ForwardEvent::Lagged || event
            == ForwardEvent::NotEncoded || event == ForwardEvent::Sent,
        forall|i: int| 0 <= i < pending.len() ==> !send_fails(#[trigger] pending[i]),
    ensures
        delivered(event, pending, current) == encodable_trades(pending),
{
    trades_delivered_until_send_fails(event, pending, current, pending.len() as int);
    assert(pending.take(pending.len() as int) =~= pending);
}

/// What a client sends.
#[derive(Clone, Copy, Debug, PartialEq, Eq, Structural)]
pub enum ClientEvent {
    /// It closes the connection.
    Close,
    /// It sends something else.
    Message,
    /// Nothing more can be received from it.
    Ended,
}

/// Tells whether to go on listening to a client. What it sends is otherwise ignored.
pub fn keep_listening(event: ClientEvent) -> (result: bool)
    ensures
        result == (event == ClientEvent::Message),
{
    match event {
        ClientEvent::Close => false,
        ClientEvent::Message => true,
        ClientEvent::Ended => false,
    }
}

/// A trade that is received is encoded next, and one that is encoded is sent. Forwarding ends
/// when the trades do or when one cannot be sent. After everything else the next is waited for.
pub proof fn each_event_has_one_action(event: ForwardEvent)
    ensures
        event == ForwardEvent::TradeReceived <==> forward_action(event) == ForwardAction::Encode,
        event == ForwardEvent::Encoded <==> forward_action(event) == ForwardAction::Send,
        event == ForwardEvent::TradesEnded || event == ForwardEvent::NotSent <==> forward_action(
            event,
        ) == ForwardAction::Stop,
        event == ForwardEvent::Connected || event == ForwardEvent::Lagged || event
            == ForwardEvent::NotEncoded || event == ForwardEvent::Sent <==> forward_action(event)
            == ForwardAction::Receive,
{
}

} // verus!
