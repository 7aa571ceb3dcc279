use meme_data_service::active::ActiveKlines;
use meme_data_service::double::Double;
use meme_data_service::feed::{
    keep_listening, next_forward, ClientEvent, ForwardAction, ForwardEvent,
};
use meme_data_service::kline::Kline;
use meme_data_service::query::{get_klines, merge_current_kline, QueryError};
use meme_data_service::series::generate_klines;
use meme_data_service::simulator::{hold_up, token_ids, Simulator};
use meme_data_service::state::AppState;
use meme_data_service::transaction::Transaction;

fn double(number: f64) -> Double {
    Double { bits: number.to_bits() }
}

fn number(double: Double) -> f64 {
    f64::from_bits(double.bits)
}

fn trade(token_id: &str, timestamp: u64, price: f64, amount: f64) -> Transaction {
    Transaction {
        token_id: token_id.to_string(),
        timestamp,
        price: double(price),
        amount: double(amount),
    }
}

fn amounts(kline: &Kline) -> Vec<f64> {
    kline.volume.iter().map(|amount| number(*amount)).collect()
}

fn bar(timestamp: u64, price: f64) -> Kline {
    Kline::open_at(timestamp, double(price))
}

fn starts(klines: &[Kline]) -> Vec<u64> {
    klines.iter().map(|k| k.timestamp).collect()
}

#[test]
fn invalid_interval_is_refused() {
    let state = AppState::new();
    match state.get_klines("MEMEALPHA", "invalid", 0) {
        Err(error) => {
            assert!(matches!(&error, QueryError::InvalidInterval(text) if text == "invalid"));
            assert_eq!(
                error.message(),
                "无效的时间间隔格式: invalid. 支持的格式例如: 1s, 1m, 5m, 1h, 1d"
            );
        }
        Ok(_) => panic!("the interval is not valid"),
    }
}

#[test]
fn interval_of_too_many_seconds_is_refused() {
    let state = AppState::new();
    let interval = "18446744073709551615m";
    match state.get_klines("MEMEALPHA", interval, 0) {
        Err(QueryError::InvalidInterval(text)) => assert_eq!(text, interval),
        _ => panic!("the interval has too many seconds"),
    }
}

#[test]
fn zero_interval_is_refused() {
    let state = AppState::new();
    match state.get_klines("MEMEALPHA", "0s", 0) {
        Err(error) => {
            assert!(matches!(error, QueryError::ZeroInterval));
            assert_eq!(error.message(), "时间间隔不能为零");
        }
        Ok(_) => panic!("the interval has no length"),
    }
}

#[test]
fn unknown_token_gives_no_bars() {
    let mut state = AppState::new();
    state.record(trade("MEMEALPHA", 400, 10.0, 1.0));
    assert!(state.get_klines("NONEXISTENTTOKEN", "1m", 400).unwrap().is_empty());
}

#[test]
fn last_bar_follows_the_trades() {
    let mut state = AppState::new();
    state.record(trade("MEMEALPHA", 350, 9.0, 1.0));
    state.record(trade("MEMEALPHA", 361, 10.0, 2.0));
    let klines = state.get_klines("MEMEALPHA", "1m", 362).unwrap();
    assert_eq!(starts(&klines), vec![300, 360]);
    assert_eq!(number(klines[1].close), 10.0);

    state.record(trade("TOKENBETA", 362, 77.0, 1.0));
    state.record(trade("MEMEALPHA", 363, 8.0, 4.0));
    let klines = state.get_klines("MEMEALPHA", "1m", 364).unwrap();
    assert_eq!(starts(&klines), vec![300, 360]);
    assert_eq!(number(klines[1].open), 10.0);
    assert_eq!(number(klines[1].high), 10.0);
    assert_eq!(number(klines[1].low), 8.0);
    assert_eq!(number(klines[1].close), 8.0);
    assert_eq!(amounts(&klines[1]), vec![2.0, 4.0]);
}

#[test]
fn trade_in_the_first_of_five_minutes_is_counted_once() {
    let mut state = AppState::new();
    state.record(trade("MEMEALPHA", 300, 10.0, 2.0));
    for interval in ["1m", "5m"] {
        let klines = state.get_klines("MEMEALPHA", interval, 310).unwrap();
        assert_eq!(starts(&klines), vec![300]);
        assert_eq!(number(klines[0].open), 10.0);
        assert_eq!(number(klines[0].high), 10.0);
        assert_eq!(number(klines[0].low), 10.0);
        assert_eq!(number(klines[0].close), 10.0);
        assert_eq!(amounts(&klines[0]), vec![2.0]);
    }
}

#[test]
fn bars_that_start_together_are_shared() {
    let mut state = AppState::new();
    state.record(trade("A", 310, 10.0, 1.0));
    state.record(trade("A", 370, 12.0, 2.0));
    let klines = state.get_klines("A", "5m", 371).unwrap();
    assert_eq!(starts(&klines), vec![300]);
    assert_eq!(number(klines[0].open), 10.0);
    assert_eq!(number(klines[0].high), 12.0);
    assert_eq!(number(klines[0].low), 10.0);
    assert_eq!(number(klines[0].close), 12.0);
    assert_eq!(amounts(&klines[0]), vec![1.0, 2.0]);

    let minutes = state.get_klines("A", "1m", 371).unwrap();
    assert_eq!(starts(&minutes), vec![300, 360]);
    assert_eq!(amounts(&minutes[0]), vec![1.0]);
    assert_eq!(amounts(&minutes[1]), vec![2.0]);

    let later = state.get_klines("A", "5m", 700).unwrap();
    assert_eq!(amounts(&later[0]), vec![1.0, 2.0]);
}

#[test]
fn answer_has_the_bars_of_the_history() {
    let mut state = AppState::new();
    let mut history: Vec<Transaction> = Vec::new();
    for i in 0..200u64 {
        let tx = trade("A", 1000 + i * 7, (i * 31 % 17) as f64, i as f64);
        history.push(tx.clone());
        state.record(tx);
        for (interval, seconds) in [("1m", 60), ("5m", 300), ("1h", 3600)] {
            let answer = state.get_klines("A", interval, 1000 + i * 7).unwrap();
            let bars = generate_klines(&history, seconds, "A");
            assert_eq!(starts(&answer), starts(&bars));
            for (a, b) in answer.iter().zip(bars.iter()) {
                assert_eq!((a.open, a.high, a.low, a.close), (b.open, b.high, b.low, b.close));
                assert_eq!(a.volume, b.volume);
            }
        }
    }
}

#[test]
fn other_intervals_come_from_the_history() {
    let mut state = AppState::new();
    state.record(trade("A", 310, 10.0, 1.0));
    let klines = state.get_klines("A", "1h", 310).unwrap();
    assert_eq!(starts(&klines), vec![0]);
    assert_eq!(amounts(&klines[0]), vec![1.0]);
}

#[test]
fn current_bar_is_used_where_the_history_is_empty() {
    let mut active = ActiveKlines::new();
    active.record(&trade("A", 70, 10.0, 1.0));
    let klines = get_klines("A", "1m", &[], &active, 80).unwrap();
    assert_eq!(starts(&klines), vec![60]);
    assert_eq!(amounts(&klines[0]), vec![1.0]);
    assert!(get_klines("A", "1m", &[], &active, 120).unwrap().is_empty());
    assert!(get_klines("B", "1m", &[], &active, 80).unwrap().is_empty());
}

#[test]
fn active_bars_are_found_by_token_and_start() {
    let mut active = ActiveKlines::new();
    active.record(&trade("A", 70, 10.0, 1.0));
    active.record(&trade("B", 71, 20.0, 1.0));
    active.record(&trade("A", 72, 11.0, 1.0));
    assert_eq!(number(active.get("A", 60).unwrap().close), 11.0);
    assert_eq!(number(active.get("A", 0).unwrap().close), 11.0);
    assert_eq!(number(active.get("B", 60).unwrap().close), 20.0);
    assert!(active.get("A", 120).is_none());
    assert!(active.get("C", 60).is_none());
}

#[test]
fn current_bar_replaces_the_last_one_of_its_start() {
    let mut klines = vec![bar(0, 1.0), bar(60, 2.0)];
    merge_current_kline(&mut klines, &bar(60, 3.0));
    assert_eq!(starts(&klines), vec![0, 60]);
    assert_eq!(number(klines[1].open), 3.0);
}

#[test]
fn later_current_bar_is_appended() {
    let mut klines = vec![bar(0, 1.0)];
    merge_current_kline(&mut klines, &bar(60, 3.0));
    assert_eq!(starts(&klines), vec![0, 60]);
    let mut none: Vec<Kline> = Vec::new();
    merge_current_kline(&mut none, &bar(60, 3.0));
    assert_eq!(starts(&none), vec![60]);
}

#[test]
fn earlier_current_bar_is_left_out() {
    let mut klines = vec![bar(60, 1.0)];
    merge_current_kline(&mut klines, &bar(0, 3.0));
    assert_eq!(starts(&klines), vec![60]);
    assert_eq!(number(klines[0].open), 1.0);
}

#[test]
fn tokens_are_traded_in_turn() {
    let mut simulator = Simulator::new(vec![double(50.0), double(60.0), double(70.0)]);
    let mut traded: Vec<String> = Vec::new();
    for i in 0..7 {
        traded.push(simulator.trade(i, double(100.0), double(1.0)).token_id);
    }
    assert_eq!(
        traded,
        vec![
            "MEMEALPHA",
            "TOKENBETA",
            "COINGAMMA",
            "MEMEALPHA",
            "TOKENBETA",
            "COINGAMMA",
            "MEMEALPHA"
        ]
    );
    assert_eq!(token_ids(), vec!["MEMEALPHA", "TOKENBETA", "COINGAMMA"]);
}

#[test]
fn price_of_the_turn_is_kept_and_held_up() {
    let mut simulator = Simulator::new(vec![double(50.0), double(60.0), double(70.0)]);
    assert_eq!(number(simulator.current_price()), 50.0);
    let tx = simulator.trade(9, double(0.5), double(2.5));
    assert_eq!(number(tx.price), 1.0);
    assert_eq!(number(tx.amount), 2.5);
    assert_eq!(tx.timestamp, 9);
    assert_eq!(number(simulator.current_price()), 60.0);
    simulator.trade(10, double(61.0), double(1.0));
    simulator.trade(11, double(71.0), double(1.0));
    assert_eq!(number(simulator.current_price()), 1.0);
}

#[test]
fn prices_are_held_up_at_one() {
    assert_eq!(number(hold_up(double(0.999))), 1.0);
    assert_eq!(number(hold_up(double(1.0))), 1.0);
    assert_eq!(number(hold_up(double(1.5))), 1.5);
    assert_eq!(number(hold_up(double(-4.0))), 1.0);
}

#[test]
fn trades_are_forwarded_until_a_client_is_gone() {
    assert_eq!(next_forward(ForwardEvent::Connected), ForwardAction::Receive);
    assert_eq!(next_forward(ForwardEvent::TradeReceived), ForwardAction::Encode);
    assert_eq!(next_forward(ForwardEvent::Encoded), ForwardAction::Send);
    assert_eq!(next_forward(ForwardEvent::NotEncoded), ForwardAction::Receive);
    assert_eq!(next_forward(ForwardEvent::Sent), ForwardAction::Receive);
    assert_eq!(next_forward(ForwardEvent::NotSent), ForwardAction::Stop);
    assert_eq!(next_forward(ForwardEvent::TradesEnded), ForwardAction::Stop);
}

#[test]
fn client_that_falls_behind_goes_on() {
    assert_eq!(next_forward(ForwardEvent::Lagged), ForwardAction::Receive);
}

#[test]
fn clients_are_listened_to_until_they_close() {
    assert!(keep_listening(ClientEvent::Message));
    assert!(!keep_listening(ClientEvent::Close));
    assert!(!keep_listening(ClientEvent::Ended));
}
