use orderbook_aggregator::common::{CurrencyPair, ExchangeIdentifier};
use orderbook_aggregator::exchanges::{
    binance_url_string, bitstamp_url, currency_pair_to_str, make_url, parse_channel, resp_to_summary,
    read_level, Event, ExchangeClientError, WsResponse, WsResponseData,
};
use orderbook_aggregator::orderbook::Level;

#[test]
fn stream_addresses() {
    assert_eq!(
        binance_url_string(CurrencyPair::BtcGbp),
        "wss://stream.binance.com:9443/ws/btcgbp@depth10@100ms"
    );
    let url = make_url(CurrencyPair::EthBtc).unwrap();
    assert_eq!(url.as_str(), "wss://stream.binance.com:9443/ws/ethbtc@depth10@100ms");
    assert_eq!(bitstamp_url().unwrap().as_str(), "wss://ws.bitstamp.net/");
    assert_eq!(currency_pair_to_str(CurrencyPair::BtcUsd), "btcusd");
}

#[test]
fn bitstamp_subscriptions() {
    let e = Event::new_subscribe(CurrencyPair::BtcUsd);
    assert_eq!(e.event, "bts:subscribe");
    assert_eq!(e.data.channel, "order_book_btcusd");
    let e = Event::new_unsubscribe(CurrencyPair::EthBtc);
    assert_eq!(e.event, "bts:unsubscribe");
    assert_eq!(e.data.channel, "order_book_ethbtc");
}

#[test]
fn bitstamp_channels() {
    assert_eq!(parse_channel("order_book_btcgbp"), Some(CurrencyPair::BtcGbp));
    assert_eq!(parse_channel("order_book_ethbtc"), Some(CurrencyPair::EthBtc));
    // Only the bytes after the eleventh count.
    assert_eq!(parse_channel("xxxxxxxxxxxbtcusd"), Some(CurrencyPair::BtcUsd));
    assert_eq!(parse_channel("order_book_btceur"), None);
    assert_eq!(parse_channel("order_book_btcusdx"), None);
    assert_eq!(parse_channel("short"), None);
    let resp = WsResponse {
        channel: "order_book_btcusd".to_string(),
        data: WsResponseData { bids: vec![], asks: vec![] },
    };
    assert_eq!(resp.get_currency_pair(), CurrencyPair::BtcUsd);
    for p in [CurrencyPair::BtcGbp, CurrencyPair::BtcUsd, CurrencyPair::EthBtc] {
        assert_eq!(parse_channel(&Event::new_subscribe(p).data.channel), Some(p));
    }
}

/// A number as the exchange clients read it.
fn num(s: &str) -> Option<u64> {
    s.parse::<f64>().ok().map(f64::to_bits)
}

#[test]
fn levels_from_numbers_read() {
    match read_level(ExchangeIdentifier::Bitstamp, num("0.06512000"), num("12.5")) {
        Ok(l) => assert_eq!(
            l,
            Level { exchange: ExchangeIdentifier::Bitstamp, price: 0.06512f64.to_bits(), amount: 12.5f64.to_bits() }
        ),
        Err(_) => panic!(),
    }
    // Whatever reads as a number is a level: many decimals, signs, exponents.
    for (p, a) in [("0.000000001", "1"), ("-3", "1e-12"), ("1e300", "inf")] {
        match read_level(ExchangeIdentifier::Binance, num(p), num(a)) {
            Ok(l) => assert_eq!((l.price, l.amount), (num(p).unwrap(), num(a).unwrap())),
            Err(_) => panic!(),
        }
    }
    assert!(matches!(
        read_level(ExchangeIdentifier::Binance, num("abc"), num("1")),
        Err(ExchangeClientError::InvalidDecimal)
    ));
    assert!(matches!(
        read_level(ExchangeIdentifier::Binance, num("1"), num("")),
        Err(ExchangeClientError::InvalidDecimal)
    ));
}

#[test]
fn summaries_from_exchange_books() {
    let bids = vec![(num("2.0"), num("1")), (num("1.5"), num("3"))];
    let asks = vec![(num("2.5"), num("1"))];
    match resp_to_summary(ExchangeIdentifier::Binance, &bids, &asks) {
        Ok(s) => {
            assert_eq!(s.bids.len(), 2);
            assert_eq!(s.bids[1].price, 1.5f64.to_bits());
            assert_eq!(s.asks[0].amount, 1.0f64.to_bits());
            assert_eq!(s.asks[0].exchange, ExchangeIdentifier::Binance);
        },
        Err(_) => panic!(),
    }
    let bad = vec![(num("2.0"), num("x"))];
    assert!(matches!(
        resp_to_summary(ExchangeIdentifier::Binance, &bids, &bad),
        Err(ExchangeClientError::InvalidDecimal)
    ));
}

#[test]
fn error_messages() {
    assert_eq!(ExchangeClientError::InvalidDecimal.message(), "Invalid decimal");
    assert_eq!(
        ExchangeClientError::Connect("refused".to_string()).message(),
        "Error connecting: refused"
    );
    assert_eq!(
        ExchangeClientError::_InvalidCurrencyPair(CurrencyPair::EthBtc).message(),
        "Invalid currency pair: ETH/BTC"
    );
}
