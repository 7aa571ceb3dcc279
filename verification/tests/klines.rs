use meme_data_service::double::Double;
use meme_data_service::kline::Kline;
use meme_data_service::series::generate_klines;
use meme_data_service::transaction::Transaction;

fn double(number: f64) -> Double {
    Double { bits: number.to_bits() }
}

fn number(double: Double) -> f64 {
    f64::from_bits(double.bits)
}

fn trade(token_id: &str, timestamp: u64, price: f64, amount: f64) -> Transaction {
    Transaction {
        token_id: token_id.to_string(),
        timestamp,
        price: double(price),
        amount: double(amount),
    }
}

/// The volume of a bar: its amounts added up in their order, from zero.
fn volume(kline: &Kline) -> f64 {
    kline.volume.iter().fold(0.0, |sum, amount| sum + number(*amount))
}

#[test]
fn test_generate_klines_single_token_single_interval() {
    let transactions = vec![
        trade("MEMEALPHA", 0, 10.0, 1.0),
        trade("MEMEALPHA", 10, 12.0, 2.0),
        trade("MEMEALPHA", 20, 11.0, 1.5),
        trade("MEMEALPHA", 65, 15.0, 3.0), // in the bucket that starts at 60
        trade("TOKENBETA", 5, 100.0, 0.5), // another token
    ];

    let klines = generate_klines(&transactions, 60, "MEMEALPHA");

    assert_eq!(klines.len(), 2, "MEMEALPHA has two bars of 60 seconds");

    let kline1 = &klines[0];
    assert_eq!(kline1.timestamp, 0);
    assert_eq!(number(kline1.open), 10.0);
    assert_eq!(number(kline1.high), 12.0);
    assert_eq!(number(kline1.low), 10.0);
    assert_eq!(number(kline1.close), 11.0);
    assert_eq!(volume(kline1), 1.0 + 2.0 + 1.5);

    let kline2 = &klines[1];
    assert_eq!(kline2.timestamp, 60);
    assert_eq!(number(kline2.open), 15.0);
    assert_eq!(number(kline2.high), 15.0);
    assert_eq!(number(kline2.low), 15.0);
    assert_eq!(number(kline2.close), 15.0);
    assert_eq!(volume(kline2), 3.0);
}

#[test]
fn test_generate_klines_multiple_intervals_and_tokens() {
    let transactions = vec![
        trade("MEMEALPHA", 1, 10.0, 1.0), // first bucket of 10 seconds
        trade("MEMEALPHA", 5, 12.0, 2.0),
        trade("MEMEALPHA", 11, 15.0, 3.0), // second bucket of 10 seconds
        trade("MEMEALPHA", 18, 13.0, 1.0),
        trade("TOKENBETA", 2, 100.0, 0.1),
        trade("TOKENBETA", 8, 102.0, 0.2),
        trade("TOKENBETA", 12, 99.0, 0.3),
    ];

    let klines_alpha_10s = generate_klines(&transactions, 10, "MEMEALPHA");
    assert_eq!(klines_alpha_10s.len(), 2, "MEMEALPHA has two bars of 10 seconds");
    assert_eq!(klines_alpha_10s[0].timestamp, 0);
    assert_eq!(number(klines_alpha_10s[0].open), 10.0);
    assert_eq!(number(klines_alpha_10s[0].high), 12.0);
    assert_eq!(number(klines_alpha_10s[0].low), 10.0);
    assert_eq!(number(klines_alpha_10s[0].close), 12.0);
    assert_eq!(volume(&klines_alpha_10s[0]), 3.0);

    assert_eq!(klines_alpha_10s[1].timestamp, 10);
    assert_eq!(number(klines_alpha_10s[1].open), 15.0);
    assert_eq!(number(klines_alpha_10s[1].high), 15.0);
    assert_eq!(number(klines_alpha_10s[1].low), 13.0);
    assert_eq!(number(klines_alpha_10s[1].close), 13.0);
    assert_eq!(volume(&klines_alpha_10s[1]), 4.0);

    let klines_beta_10s = generate_klines(&transactions, 10, "TOKENBETA");
    assert_eq!(klines_beta_10s.len(), 2, "TOKENBETA has two bars of 10 seconds");
    assert_eq!(klines_beta_10s[0].timestamp, 0);
    assert_eq!(volume(&klines_beta_10s[0]), 0.1 + 0.2);
    assert_eq!(klines_beta_10s[1].timestamp, 10);
    assert_eq!(volume(&klines_beta_10s[1]), 0.3);
}

#[test]
fn test_generate_klines_no_matching_token() {
    let transactions = vec![trade("MEMEALPHA", 0, 10.0, 1.0)];
    let klines = generate_klines(&transactions, 60, "TOKENBETA");
    assert!(klines.is_empty(), "a token without trades has no bars");
}

#[test]
fn test_generate_klines_empty_transactions() {
    let transactions: Vec<Transaction> = vec![];
    let klines = generate_klines(&transactions, 60, "MEMEALPHA");
    assert!(klines.is_empty(), "without trades there are no bars");
}

#[test]
fn test_generate_klines_zero_interval() {
    let transactions = vec![trade("MEMEALPHA", 0, 10.0, 1.0)];
    let klines = generate_klines(&transactions, 0, "MEMEALPHA");
    assert!(klines.is_empty(), "an interval of length zero has no bars");
}

#[test]
fn trades_out_of_order_give_bars_in_order() {
    let transactions = vec![
        trade("A", 130, 3.0, 1.0),
        trade("A", 5, 1.0, 2.0),
        trade("A", 70, 2.0, 4.0),
        trade("A", 119, 5.0, 8.0),
        trade("A", 121, 4.0, 16.0),
    ];
    let klines = generate_klines(&transactions, 60, "A");
    let starts: Vec<u64> = klines.iter().map(|k| k.timestamp).collect();
    assert_eq!(starts, vec![0, 60, 120]);
    assert_eq!(number(klines[2].open), 3.0);
    assert_eq!(number(klines[2].close), 4.0);
    assert_eq!(number(klines[2].high), 4.0);
    assert_eq!(number(klines[2].low), 3.0);
    assert_eq!(volume(&klines[2]), 17.0);
    assert_eq!(number(klines[1].high), 5.0);
}

#[test]
fn every_amount_is_in_one_bar() {
    let transactions: Vec<Transaction> =
        (0..50).map(|i| trade("A", i * 37 % 400, 1.0, (1u64 << i) as f64)).collect();
    let klines = generate_klines(&transactions, 60, "A");
    let total: f64 = klines.iter().map(volume).sum();
    assert_eq!(total, ((1u64 << 50) - 1) as f64);
}

#[test]
fn latest_possible_trade_has_a_bar() {
    let klines = generate_klines(&[trade("A", u64::MAX, 1.0, 1.0)], u64::MAX, "A");
    assert_eq!(klines.len(), 1);
    assert_eq!(klines[0].timestamp, u64::MAX);
}

#[test]
fn numbers_take_precedence_over_what_is_none() {
    let transactions = vec![
        trade("A", 0, f64::NAN, 1.0),
        trade("A", 1, 2.0, 1.0),
        trade("A", 2, f64::NAN, 1.0),
        trade("A", 3, -3.0, 1.0),
    ];
    let klines = generate_klines(&transactions, 60, "A");
    assert!(number(klines[0].open).is_nan());
    assert_eq!(number(klines[0].high), 2.0);
    assert_eq!(number(klines[0].low), -3.0);
    assert_eq!(number(klines[0].close), -3.0);
}

#[test]
fn prices_lie_within_their_bar() {
    let prices = [7.0, 3.5, 9.25, 4.0, 9.0, 3.75];
    let transactions: Vec<Transaction> =
        prices.iter().enumerate().map(|(i, p)| trade("A", i as u64, *p, 1.0)).collect();
    let klines = generate_klines(&transactions, 60, "A");
    assert_eq!(klines.len(), 1);
    assert_eq!(number(klines[0].open), 7.0);
    assert_eq!(number(klines[0].high), 9.25);
    assert_eq!(number(klines[0].low), 3.5);
    assert_eq!(number(klines[0].close), 3.75);
}

#[test]
fn new_trade_changes_only_its_own_bar() {
    let mut transactions = vec![
        trade("A", 10, 1.0, 1.0),
        trade("A", 70, 2.0, 2.0),
        trade("A", 130, 3.0, 4.0),
    ];
    let before = generate_klines(&transactions, 60, "A");
    transactions.push(trade("A", 80, 9.0, 8.0));
    transactions.push(trade("B", 10, 9.0, 8.0));
    let after = generate_klines(&transactions, 60, "A");
    assert_eq!(after.len(), 3);
    for i in [0, 2] {
        assert_eq!(after[i].close, before[i].close);
        assert_eq!(after[i].high, before[i].high);
        assert_eq!(after[i].volume, before[i].volume);
    }
    assert_eq!(number(after[1].open), 2.0);
    assert_eq!(number(after[1].high), 9.0);
    assert_eq!(number(after[1].close), 9.0);
    assert_eq!(volume(&after[1]), 10.0);
}
