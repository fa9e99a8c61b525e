use orderbook_aggregator::common::{stream_key, CurrencyPair, ExchangeIdentifier, NameParseError};

#[test]
fn names_of_pairs_and_exchanges() {
    assert_eq!(CurrencyPair::BtcGbp.to_string(), "BTC/GBP");
    assert_eq!(CurrencyPair::BtcUsd.as_str(), "BTC/USD");
    assert_eq!(CurrencyPair::EthBtc.to_string(), "ETH/BTC");
    assert_eq!(ExchangeIdentifier::Binance.to_string(), "binance");
    assert_eq!(ExchangeIdentifier::Bitstamp.as_str(), "bitstamp");
}

#[test]
fn parsing_gives_back_what_was_named() {
    for p in [CurrencyPair::BtcGbp, CurrencyPair::BtcUsd, CurrencyPair::EthBtc] {
        assert_eq!(CurrencyPair::from_str(p.as_str()), Ok(p));
    }
    for e in [ExchangeIdentifier::Binance, ExchangeIdentifier::Bitstamp] {
        assert_eq!(ExchangeIdentifier::from_str(e.as_str()), Ok(e));
    }
    assert_eq!(CurrencyPair::from_str("btc/gbp"), Err(NameParseError::VariantNotFound));
    assert_eq!(ExchangeIdentifier::from_str("Binance"), Err(NameParseError::VariantNotFound));
    assert_eq!(NameParseError::VariantNotFound.message(), "Matching variant not found");
}

#[test]
fn stream_keys_are_distinct() {
    let mut keys = vec![];
    for e in [ExchangeIdentifier::Binance, ExchangeIdentifier::Bitstamp] {
        for p in [CurrencyPair::BtcGbp, CurrencyPair::BtcUsd, CurrencyPair::EthBtc] {
            keys.push(stream_key(e, p));
        }
    }
    keys.sort();
    keys.dedup();
    assert_eq!(keys, vec![0, 1, 2, 3, 4, 5]);
}
