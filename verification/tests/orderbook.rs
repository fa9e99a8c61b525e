use orderbook_aggregator::common::ExchangeIdentifier;
use orderbook_aggregator::orderbook::{make_summary, price_key, sorted_levels, insert_level, Level, MAX_LEVELS, SIGN_BIT};

fn l(price: f64, amount: f64) -> Level {
    Level { exchange: ExchangeIdentifier::Binance, price: price.to_bits(), amount: amount.to_bits() }
}

fn pa(v: &[Level]) -> Vec<(f64, f64)> {
    v.iter().map(|x| (f64::from_bits(x.price), f64::from_bits(x.amount))).collect()
}

#[test]
fn bids_go_highest_first_and_asks_lowest_first() {
    let v = vec![l(3.0, 1.0), l(5.0, 1.0), l(1.0, 1.0), l(5.0, 2.0)];
    assert_eq!(pa(&sorted_levels(&v, true)), vec![(5.0, 1.0), (5.0, 2.0), (3.0, 1.0), (1.0, 1.0)]);
    assert_eq!(pa(&sorted_levels(&v, false)), vec![(1.0, 1.0), (3.0, 1.0), (5.0, 1.0), (5.0, 2.0)]);
}

#[test]
fn insertion_goes_after_equal_prices() {
    let mut v = vec![l(9.0, 1.0), l(7.0, 1.0), l(7.0, 2.0), l(4.0, 1.0)];
    insert_level(&mut v, l(7.0, 3.0), true);
    assert_eq!(pa(&v), vec![(9.0, 1.0), (7.0, 1.0), (7.0, 2.0), (7.0, 3.0), (4.0, 1.0)]);
}

#[test]
fn summary_of_empty_and_one_sided_books() {
    let s = make_summary(&vec![], &vec![]);
    assert_eq!((s.bids.len(), s.asks.len()), (0, 0));
    let s = make_summary(&vec![l(10.0, 1.0)], &vec![]);
    assert_eq!(s.bids, vec![l(10.0, 1.0)]);
    assert!(s.asks.is_empty());
}

#[test]
fn summary_cuts_each_side_to_ten() {
    let bids: Vec<Level> = (0..25).map(|p| l(p as f64, 1.0)).collect();
    let asks: Vec<Level> = (0..25).rev().map(|p| l(100.0 + p as f64, 1.0)).collect();
    let s = make_summary(&bids, &asks);
    assert_eq!(s.bids.len(), MAX_LEVELS);
    assert_eq!(s.asks.len(), MAX_LEVELS);
    assert_eq!(f64::from_bits(s.bids[0].price), 24.0);
    assert_eq!(f64::from_bits(s.bids[9].price), 15.0);
    assert_eq!(f64::from_bits(s.asks[0].price), 100.0);
    assert_eq!(f64::from_bits(s.asks[9].price), 109.0);
}

#[test]
fn price_keys_rank_as_numbers_compare() {
    let xs = [f64::NEG_INFINITY, -1e300, -2.0, -1e-300, -0.0, 0.0, 5e-324, 1e-9, 0.5, 2.0, 1e300, f64::INFINITY];
    for i in 0..xs.len() {
        for j in 0..xs.len() {
            let (a, b) = (xs[i], xs[j]);
            assert_eq!(price_key(a.to_bits()) < price_key(b.to_bits()), a < b, "{a} {b}");
            assert_eq!(price_key(a.to_bits()) == price_key(b.to_bits()), a == b, "{a} {b}");
        }
    }
    assert_eq!(price_key(SIGN_BIT), price_key(0));
    assert_eq!(price_key(0), SIGN_BIT);
    assert_eq!(price_key(1.0f64.to_bits()), 1.0f64.to_bits() + SIGN_BIT);
    assert_eq!(price_key((-1.0f64).to_bits()), u64::MAX - (-1.0f64).to_bits());
}
