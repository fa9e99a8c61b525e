use orderbook_aggregator::command::Command;
use orderbook_aggregator::common::{CurrencyPair, ExchangeIdentifier};

fn err(s: &str) -> String {
    match Command::from_str(s) {
        Err(e) => e,
        Ok(_) => panic!("expected an error for {s:?}"),
    }
}

#[test]
fn words_without_arguments() {
    assert!(matches!(Command::from_str("help"), Ok(Command::Help)));
    assert!(matches!(Command::from_str("quit"), Ok(Command::Quit)));
    assert_eq!(err(""), "Enter a command");
    // Only the exact words are accepted without arguments.
    assert_eq!(err("help "), "Invalid command");
    assert_eq!(err(" quit"), "Invalid command");
    assert_eq!(err("frobnicate"), "Invalid command");
}

#[test]
fn connect_takes_one_address() {
    match Command::from_str("connect http://[::1]:50051") {
        Ok(Command::Connect(addr)) => assert_eq!(addr, "http://[::1]:50051"),
        _ => panic!(),
    }
    assert_eq!(err("connect"), "Usage: connect <server_addr>");
    assert_eq!(err("connect a b"), "Usage: connect <server_addr>");
}

#[test]
fn open_takes_a_pair_and_exchanges() {
    match Command::from_str("open ETH/BTC binance bitstamp") {
        Ok(Command::Open(p, es)) => {
            assert_eq!(p, CurrencyPair::EthBtc);
            assert_eq!(es, vec![ExchangeIdentifier::Binance, ExchangeIdentifier::Bitstamp]);
        },
        _ => panic!(),
    }
    match Command::from_str("  open   BTC/GBP\tbinance ") {
        Ok(Command::Open(p, es)) => {
            assert_eq!(p, CurrencyPair::BtcGbp);
            assert_eq!(es, vec![ExchangeIdentifier::Binance]);
        },
        _ => panic!(),
    }
    assert_eq!(err("open"), "Usage: open <currency_pair> <exchange>+");
    assert_eq!(err("open ETH/BTC"), "Usage: open <currency_pair> <exchange>+");
    assert_eq!(err("open eth/btc binance"), "Invalid currency pair");
    assert_eq!(err("open XXX"), "Invalid currency pair");
    assert_eq!(
        err("open ETH/BTC binance kraken"),
        "Invalid exchange ident: Matching variant not found"
    );
}

#[test]
fn show_and_close_take_an_index() {
    assert!(matches!(Command::from_str("show 2"), Ok(Command::ShowTab(2))));
    assert!(matches!(Command::from_str("close +0"), Ok(Command::CloseTab(0))));
    assert_eq!(err("show"), "Usage: show <tab_index>");
    assert_eq!(err("show x"), "Usage: show <tab_index>");
    assert_eq!(err("show 1 2"), "Usage: show <tab_index>");
    assert_eq!(err("close -1"), "Usage: close <tab_index>");
    assert_eq!(err("close"), "Usage: close <tab_index>");
}
