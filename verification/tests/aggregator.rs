use orderbook_aggregator::aggregator::AggregatorInner;
use orderbook_aggregator::common::{CurrencyPair, ExchangeIdentifier};
use orderbook_aggregator::common::ExchangeIdentifier::{Binance, Bitstamp};
use orderbook_aggregator::exchanges::resp_to_summary;
use orderbook_aggregator::exchanges::ExchangeClientError;
use orderbook_aggregator::orderbook::{Level, Summary};
use tokio::sync::mpsc::{unbounded_channel, UnboundedReceiver, UnboundedSender};

/// A number as the exchange clients read it.
fn num(s: &str) -> Option<u64> {
    s.parse::<f64>().ok().map(f64::to_bits)
}

fn pairs(levels: &[(&str, &str)]) -> Vec<(Option<u64>, Option<u64>)> {
    levels.iter().map(|(p, a)| (num(p), num(a))).collect()
}

/// One exchange's book, read from decimal strings as the exchange sends them.
fn book(exchange: ExchangeIdentifier, bids: &[(&str, &str)], asks: &[(&str, &str)]) -> Summary {
    match resp_to_summary(exchange, &pairs(bids), &pairs(asks)) {
        Ok(s) => s,
        Err(_) => panic!("bad book"),
    }
}

fn level(exchange: ExchangeIdentifier, price: f64, amount: f64) -> Level {
    Level { exchange, price: price.to_bits(), amount: amount.to_bits() }
}

fn price(l: &Level) -> f64 {
    f64::from_bits(l.price)
}

/// Connects the exchanges and opens their streams of `pair`, as the server
/// does before recording a subscriber.
fn connect(agg: &mut AggregatorInner, idents: &Vec<ExchangeIdentifier>, pair: CurrencyPair) {
    for e in agg.clients_to_connect(idents) {
        agg.add_client(e);
    }
    for e in agg.streams_to_open(idents, pair) {
        agg.add_pair(e, pair);
    }
}

fn update(agg: &mut AggregatorInner, e: ExchangeIdentifier, pair: CurrencyPair, s: Summary) -> Option<Vec<usize>> {
    agg.update_orderbook(e, pair, s.bids, s.asks)
}

fn channel() -> (UnboundedSender<Summary>, UnboundedReceiver<Summary>) {
    unbounded_channel()
}

fn empty() -> Summary {
    Summary { bids: vec![], asks: vec![] }
}

/// Subscribes as the server does: a new channel, and the first summary sent
/// at once.
fn subscribe(agg: &mut AggregatorInner, idents: Vec<ExchangeIdentifier>, pair: CurrencyPair) -> (usize, UnboundedReceiver<Summary>) {
    let (tx, rx) = channel();
    let (idx, first) = agg.finish_subscribe(idents, pair, tx);
    agg.subscriber_sender(idx).unwrap().send(first).unwrap();
    (idx, rx)
}

/// Handles an update as the server does: sends every summary owed, then
/// removes the subscribers whose channel is closed, which it returns.
fn deliver(
    agg: &mut AggregatorInner,
    e: ExchangeIdentifier,
    pair: CurrencyPair,
    res: Result<Summary, ExchangeClientError>,
) -> Result<Vec<usize>, ExchangeClientError> {
    let owed = agg.handle_update(e, pair, res)?;
    let mut gone = vec![];
    for (idx, summary) in owed {
        if agg.subscriber_sender(idx).unwrap().send(summary).is_err() {
            gone.push(idx);
        }
    }
    agg.remove_gone(&gone);
    Ok(gone)
}

#[test]
fn test_orderbook_aggregation() {
    let mut agg = AggregatorInner::new();
    let idents = vec![Binance, Bitstamp];
    connect(&mut agg, &idents, CurrencyPair::BtcUsd);
    let (idx, mut rx) = subscribe(&mut agg, idents, CurrencyPair::BtcUsd);
    assert_eq!(idx, 0);

    // There is an initial update (with an empty orderbook in this case).
    assert_eq!(rx.try_recv().unwrap(), empty());
    // There is no other update.
    assert!(rx.try_recv().is_err());

    // An update from Binance reaches the subscriber.
    let gone = deliver(
        &mut agg,
        Binance,
        CurrencyPair::BtcUsd,
        Ok(book(Binance, &[("100.0", "10.0"), ("99.0", "10.0")], &[("105.0", "10.0"), ("106.0", "10.0")])),
    );
    assert!(matches!(gone, Ok(v) if v.is_empty()));
    assert_eq!(
        rx.try_recv().unwrap(),
        Summary {
            bids: vec![level(Binance, 100.0, 10.0), level(Binance, 99.0, 10.0)],
            asks: vec![level(Binance, 105.0, 10.0), level(Binance, 106.0, 10.0)],
        }
    );

    // An update from Bitstamp interleaves with Binance's cached book.
    let gone = deliver(
        &mut agg,
        Bitstamp,
        CurrencyPair::BtcUsd,
        Ok(book(Bitstamp, &[("99.5", "10.0"), ("98.5", "10.0")], &[("105.5", "10.0"), ("106.5", "10.0")])),
    );
    assert!(matches!(gone, Ok(v) if v.is_empty()));
    assert_eq!(
        rx.try_recv().unwrap(),
        Summary {
            bids: vec![
                level(Binance, 100.0, 10.0),
                level(Bitstamp, 99.5, 10.0),
                level(Binance, 99.0, 10.0),
                level(Bitstamp, 98.5, 10.0),
            ],
            asks: vec![
                level(Binance, 105.0, 10.0),
                level(Bitstamp, 105.5, 10.0),
                level(Binance, 106.0, 10.0),
                level(Bitstamp, 106.5, 10.0),
            ],
        }
    );
}

#[test]
fn plans_name_each_missing_exchange_once() {
    let mut agg = AggregatorInner::new();
    assert!(agg.is_idle());
    assert_eq!(agg.clients_to_connect(&vec![Bitstamp, Binance, Bitstamp]), vec![Bitstamp, Binance]);
    agg.add_client(Binance);
    assert!(agg.is_connected(Binance));
    assert!(!agg.is_connected(Bitstamp));
    assert_eq!(agg.clients_to_connect(&vec![Bitstamp, Binance, Bitstamp]), vec![Bitstamp]);
    assert_eq!(agg.streams_to_open(&vec![Binance, Binance], CurrencyPair::EthBtc), vec![Binance]);
    agg.add_pair(Binance, CurrencyPair::EthBtc);
    assert!(agg.has_pair(Binance, CurrencyPair::EthBtc));
    assert!(!agg.has_pair(Binance, CurrencyPair::BtcGbp));
    assert!(!agg.is_idle());
    assert_eq!(agg.streams_to_open(&vec![Binance], CurrencyPair::EthBtc), Vec::<ExchangeIdentifier>::new());
}

#[test]
fn last_subscriber_leaving_closes_the_stream() {
    let mut agg = AggregatorInner::new();
    connect(&mut agg, &vec![Binance, Bitstamp], CurrencyPair::EthBtc);
    let (ta, _ra) = channel();
    let (tb, _rb) = channel();
    let a = agg.add_subscriber(vec![Binance, Bitstamp], CurrencyPair::EthBtc, ta);
    let b = agg.add_subscriber(vec![Binance], CurrencyPair::EthBtc, tb);
    assert_eq!((a, b), (0, 1));
    assert_eq!(agg.next_subscriber_index(), 2);
    assert!(agg.subscriber_sender(b).is_some());
    assert!(agg.subscriber_sender(2).is_none());

    let mut notified = update(&mut agg, Binance, CurrencyPair::EthBtc, empty()).unwrap();
    notified.sort();
    assert_eq!(notified, vec![a, b]);

    agg.unsubscribe(a);
    assert!(agg.subscriber_summary(a).is_none());
    assert!(agg.subscriber_sender(a).is_none());
    // Bitstamp had only `a`: its stream is closed; Binance still serves `b`.
    assert!(!agg.has_pair(Bitstamp, CurrencyPair::EthBtc));
    assert!(agg.has_pair(Binance, CurrencyPair::EthBtc));
    assert_eq!(update(&mut agg, Bitstamp, CurrencyPair::EthBtc, empty()), None);
    assert_eq!(update(&mut agg, Binance, CurrencyPair::EthBtc, empty()), Some(vec![b]));

    // Removing twice is removing once.
    agg.unsubscribe(a);
    assert!(agg.has_pair(Binance, CurrencyPair::EthBtc));
    agg.unsubscribe(b);
    assert!(agg.is_idle());
    assert!(agg.is_connected(Binance));
}

#[test]
fn summary_keeps_the_ten_best_levels_and_a_crossed_book() {
    let mut agg = AggregatorInner::new();
    connect(&mut agg, &vec![Binance, Bitstamp], CurrencyPair::BtcGbp);
    let (tx, _rx) = channel();
    let idx = agg.add_subscriber(vec![Binance, Bitstamp], CurrencyPair::BtcGbp, tx);
    let bids: Vec<Level> = (1..=8).map(|p| level(Binance, p as f64, 1.0)).collect();
    let asks: Vec<Level> = (3..=10).map(|p| level(Binance, p as f64, 1.0)).collect();
    agg.update_orderbook(Binance, CurrencyPair::BtcGbp, bids, asks);
    let bids: Vec<Level> = (5..=12).map(|p| level(Bitstamp, p as f64, 2.0)).collect();
    agg.update_orderbook(Bitstamp, CurrencyPair::BtcGbp, bids, vec![level(Bitstamp, 2.0, 2.0)]);
    let s = agg.subscriber_summary(idx).unwrap();
    let prices: Vec<f64> = s.bids.iter().map(price).collect();
    assert_eq!(prices, vec![12.0, 11.0, 10.0, 9.0, 8.0, 8.0, 7.0, 7.0, 6.0, 6.0]);
    // Equal prices keep the order of the exchanges.
    assert_eq!(s.bids[4].exchange, Binance);
    assert_eq!(s.bids[5].exchange, Bitstamp);
    let asks: Vec<f64> = s.asks.iter().map(price).collect();
    assert_eq!(asks, vec![2.0, 3.0, 4.0, 5.0, 6.0, 7.0, 8.0, 9.0, 10.0]);
    // The best ask is below the best bid.
    assert!(price(&s.asks[0]) < price(&s.bids[0]));
}

#[test]
fn prices_order_as_numbers() {
    let mut agg = AggregatorInner::new();
    connect(&mut agg, &vec![Binance], CurrencyPair::BtcUsd);
    let (tx, _rx) = channel();
    let idx = agg.add_subscriber(vec![Binance], CurrencyPair::BtcUsd, tx);
    let ps = [0.5, -2.0, 1e-9, f64::INFINITY, -0.0, 3e20, 0.0, -1e-300, f64::NEG_INFINITY, 0.25];
    let levels: Vec<Level> = ps.iter().map(|p| level(Binance, *p, 1.0)).collect();
    agg.update_orderbook(Binance, CurrencyPair::BtcUsd, levels.clone(), levels);
    let s = agg.subscriber_summary(idx).unwrap();
    let bids: Vec<u64> = s.bids.iter().map(|l| l.price).collect();
    let want: Vec<u64> = [f64::INFINITY, 3e20, 0.5, 0.25, 1e-9, -0.0, 0.0, -1e-300, -2.0, f64::NEG_INFINITY]
        .iter().map(|p| p.to_bits()).collect();
    assert_eq!(bids, want);
    let asks: Vec<u64> = s.asks.iter().map(|l| l.price).collect();
    let want: Vec<u64> = [f64::NEG_INFINITY, -2.0, -1e-300, -0.0, 0.0, 1e-9, 0.25, 0.5, 3e20, f64::INFINITY]
        .iter().map(|p| p.to_bits()).collect();
    assert_eq!(asks, want);
}

#[test]
fn a_new_subscriber_is_owed_the_books_already_stored() {
    let mut agg = AggregatorInner::new();
    connect(&mut agg, &vec![Binance], CurrencyPair::EthBtc);
    agg.update_orderbook(Binance, CurrencyPair::EthBtc, vec![level(Binance, 0.07, 1.5)], vec![]);
    let (tx, _rx) = channel();
    let (idx, first) = agg.finish_subscribe(vec![Binance], CurrencyPair::EthBtc, tx);
    assert_eq!(idx, 0);
    assert_eq!(first, Summary { bids: vec![level(Binance, 0.07, 1.5)], asks: vec![] });
}

#[test]
fn subscribers_that_have_gone_are_removed_on_update() {
    let mut agg = AggregatorInner::new();
    connect(&mut agg, &vec![Binance], CurrencyPair::BtcUsd);
    let (a, ra) = subscribe(&mut agg, vec![Binance], CurrencyPair::BtcUsd);
    let (b, mut rb) = subscribe(&mut agg, vec![Binance], CurrencyPair::BtcUsd);
    assert_eq!(rb.try_recv().unwrap(), empty());
    drop(ra);
    // Each subscriber of the stream is owed the new summary once.
    let book = Summary { bids: vec![level(Binance, 1.0, 2.0)], asks: vec![] };
    let mut owed = agg.handle_update(Binance, CurrencyPair::BtcUsd, Ok(book.clone())).unwrap();
    owed.sort_by_key(|(i, _)| *i);
    assert_eq!(owed, vec![(a, book.clone()), (b, book.clone())]);
    assert_eq!(deliver(&mut agg, Binance, CurrencyPair::BtcUsd, Ok(empty())).unwrap(), vec![a]);
    assert!(agg.subscriber_sender(a).is_none());
    assert_eq!(rb.try_recv().unwrap(), empty());
    // An error is handed back, changes nothing and is owed to nobody.
    assert!(matches!(
        agg.handle_update(Binance, CurrencyPair::BtcUsd, Err(ExchangeClientError::InvalidDecimal)),
        Err(ExchangeClientError::InvalidDecimal)
    ));
    // A book for a stream that is not open changes nothing.
    assert!(matches!(agg.handle_update(Bitstamp, CurrencyPair::BtcUsd, Ok(empty())), Ok(v) if v.is_empty()));
    assert!(rb.try_recv().is_err());
    drop(rb);
    assert_eq!(deliver(&mut agg, Binance, CurrencyPair::BtcUsd, Ok(empty())).unwrap(), vec![b]);
    assert!(agg.is_idle());
}
