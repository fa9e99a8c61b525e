use std::sync::atomic::AtomicBool;
use orderbook_aggregator::common::{CurrencyPair, ExchangeIdentifier};
use orderbook_aggregator::grpc_client::{select_request, MainError, StreamRequest};
use orderbook_aggregator::grpc_server::{default_stream, parse_custom_args};
use orderbook_aggregator::ui_state::{
    error_log_message, get_should_stop, orderbook_title, set_should_stop, LogMessages, Tabs, MAX_LOG_MESSAGES,
};

#[test]
fn the_log_keeps_the_last_ten_messages() {
    let mut log = LogMessages::new();
    for i in 0..13 {
        log.add_log_message(format!("m{i}"));
    }
    assert_eq!(log.messages().len(), MAX_LOG_MESSAGES);
    let kept: Vec<(usize, String)> = log.messages().iter().cloned().collect();
    assert_eq!(kept[0], (3, "m3".to_string()));
    assert_eq!(kept[9], (12, "m12".to_string()));
    assert_eq!(log.next_index(), 13);
}

#[test]
fn tabs_follow_the_commands() {
    let mut tabs: Tabs<&str> = Tabs::new();
    assert_eq!(tabs.show(0), Err("You need to run the \"open\" command first!".to_string()));
    assert_eq!(tabs.close(0), Err("There are no tabs to close!".to_string()));
    assert_eq!(tabs.open("a"), "Opened new channel!");
    assert_eq!(tabs.open("b"), "Opened new channel!");
    assert_eq!(tabs.selected_tab_index, Some(1));
    assert_eq!(tabs.show(0), Ok("Showing tab 0!".to_string()));
    assert_eq!(tabs.selected_tab_index, Some(0));
    assert_eq!(tabs.show(5), Err("Invalid index (max: 1)".to_string()));
    assert_eq!(tabs.close(7), Err("Invalid index (max: 1)".to_string()));
    assert_eq!(tabs.close(1), Ok("Tab 1 closed!".to_string()));
    assert_eq!(tabs.orderbooks, vec!["a"]);
    assert_eq!(tabs.selected_tab_index, Some(0));
    assert_eq!(tabs.close(0), Ok("Tab 0 closed!".to_string()));
    assert_eq!(tabs.selected_tab_index, None);
    tabs.open("c");
    assert_eq!(tabs.connected("http://x"), "Connected to http://x!");
    assert!(tabs.orderbooks.is_empty());
    assert_eq!(tabs.selected_tab_index, None);
    tabs.open("d");
    tabs.open("e");
    assert_eq!(tabs.remove_dropped(0), "d");
    assert_eq!(tabs.selected_tab_index, Some(1));
    assert_eq!(error_log_message("Could not connect"), "ERROR: Could not connect");
}

#[test]
fn tab_titles() {
    assert_eq!(
        orderbook_title(CurrencyPair::EthBtc, &vec![ExchangeIdentifier::Binance, ExchangeIdentifier::Bitstamp]),
        "ETH/BTC on binance+bitstamp"
    );
    assert_eq!(orderbook_title(CurrencyPair::BtcGbp, &vec![ExchangeIdentifier::Bitstamp]), "BTC/GBP on bitstamp");
}

#[test]
fn the_stop_flag() {
    let flag = AtomicBool::new(false);
    assert!(!get_should_stop(&flag));
    set_should_stop(&flag);
    assert!(get_should_stop(&flag));
}

#[test]
fn arguments_of_the_command_line_client() {
    assert!(matches!(select_request(None, None), Ok(StreamRequest::Default)));
    match select_request(Some("BTC/GBP".to_string()), Some(vec!["binance".to_string()])) {
        Ok(StreamRequest::Custom { name, exchange_idents }) => {
            assert_eq!(name, "BTC/GBP");
            assert_eq!(exchange_idents, vec!["binance".to_string()]);
        },
        _ => panic!(),
    }
    assert!(matches!(select_request(Some("BTC/GBP".to_string()), None), Err(MainError::InconsistentArgs)));
    assert!(matches!(select_request(None, Some(vec![])), Err(MainError::InconsistentArgs)));
    assert_eq!(
        MainError::InconsistentArgs.report_message(),
        "If specifying either currency_pair or market(s), both must be specified"
    );
    assert_eq!(
        MainError::ServerConnectError("http://h".to_string()).report_message(),
        "Could not connect to server at http://h"
    );
    assert_eq!(
        MainError::StreamError("boom".to_string()).report_message(),
        "Problem connecting to gRPC stream: boom"
    );
}

#[test]
fn requests_of_the_server() {
    let (es, p) = default_stream();
    assert_eq!(es, vec![ExchangeIdentifier::Binance, ExchangeIdentifier::Bitstamp]);
    assert_eq!(p, CurrencyPair::EthBtc);
    match parse_custom_args("BTC/USD", &vec!["bitstamp".to_string(), "binance".to_string()]) {
        Ok((p, es)) => {
            assert_eq!(p, CurrencyPair::BtcUsd);
            assert_eq!(es, vec![ExchangeIdentifier::Bitstamp, ExchangeIdentifier::Binance]);
        },
        Err(_) => panic!(),
    }
    match parse_custom_args("BTC/XYZ", &vec!["nope".to_string()]) {
        Err(e) => assert_eq!(e.message, "Invalid currency pair"),
        Ok(_) => panic!(),
    }
    match parse_custom_args("BTC/USD", &vec!["binance".to_string(), "nope".to_string()]) {
        Err(e) => assert_eq!(e.message, "At least one invalid exchange identifier"),
        Ok(_) => panic!(),
    }
}
