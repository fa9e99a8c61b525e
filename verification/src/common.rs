//! The currency pairs and exchanges that the aggregator knows, with their
//! textual names.

use vstd::prelude::*;
use crate::text::str_eq;

verus! {

/// A currency pair that can be streamed.
#[derive(Debug, Clone, Copy, PartialEq, Eq, Structural, Hash)]
pub enum CurrencyPair {
    BtcGbp,
    BtcUsd,
    EthBtc,
}

/// An exchange that order books come from.
#[derive(Debug, Clone, Copy, PartialEq, Eq, Structural, Hash)]
pub enum ExchangeIdentifier {
    Binance,
    Bitstamp,
}

/// The error of parsing a name that belongs to no variant.
#[derive(Debug, Clone, Copy, PartialEq, Eq, Structural)]
pub enum NameParseError {
    VariantNotFound,
}

pub const VARIANT_NOT_FOUND: &'static str = "Matching variant not found";

impl NameParseError {
    /// The text of the error.
    pub fn message(&self) -> (s: &'static str)
        ensures
            s@ == VARIANT_NOT_FOUND@,
    {
        VARIANT_NOT_FOUND
    }
}

/// The name of a currency pair, as it is displayed and parsed.
pub open spec fn pair_name(p: CurrencyPair) -> Seq<char> {
    match p {
        CurrencyPair::BtcGbp => "BTC/GBP"@,
        CurrencyPair::BtcUsd => "BTC/USD"@,
        CurrencyPair::EthBtc => "ETH/BTC"@,
    }
}

/// The name of an exchange, as it is displayed and parsed.
pub open spec fn exchange_name(e: ExchangeIdentifier) -> Seq<char> {
    match e {
        ExchangeIdentifier::Binance => "binance"@,
        ExchangeIdentifier::Bitstamp => "bitstamp"@,
    }
}

/// The currency pair whose name is `s`, if any.
pub open spec fn parse_pair(s: Seq<char>) -> Option<CurrencyPair> {
    if s == "BTC/GBP"@ {
        Some(CurrencyPair::BtcGbp)
    } else if s == "BTC/USD"@ {
        Some(CurrencyPair::BtcUsd)
    } else if s == "ETH/BTC"@ {
        Some(CurrencyPair::EthBtc)
    } else {
        None
    }
}

/// The exchange whose name is `s`, if any.
pub open spec fn parse_exchange(s: Seq<char>) -> Option<ExchangeIdentifier> {
    if s == "binance"@ {
        Some(ExchangeIdentifier::Binance)
    } else if s == "bitstamp"@ {
        Some(ExchangeIdentifier::Bitstamp)
    } else {
        None
    }
}

/// A small integer that identifies a currency pair.
pub open spec fn pair_index(p: CurrencyPair) -> u64 {
    match p {
        CurrencyPair::BtcGbp => 0,
        CurrencyPair::BtcUsd => 1,
        CurrencyPair::EthBtc => 2,
    }
}

/// A small integer that identifies an exchange.
pub open spec fn exchange_index(e: ExchangeIdentifier) -> u64 {
    match e {
        ExchangeIdentifier::Binance => 0,
        ExchangeIdentifier::Bitstamp => 1,
    }
}

/// A small integer that identifies an (exchange, currency pair) stream.
pub open spec fn stream_index(e: ExchangeIdentifier, p: CurrencyPair) -> u64 {
    (exchange_index(e) * 3 + pair_index(p)) as u64
}

impl CurrencyPair {
    /// The name of the pair.
    pub fn as_str(&self) -> (s: &'static str)
        ensures
            s@ == pair_name(*self),
    {
        match self {
            CurrencyPair::BtcGbp => "BTC/GBP",
            CurrencyPair::BtcUsd => "BTC/USD",
            CurrencyPair::EthBtc => "ETH/BTC",
        }
    }

    /// The name of the pair as an owned string.
    pub fn to_string(&self) -> (s: String)
        ensures
            s@ == pair_name(*self),
    {
        String::from_str(self.as_str())
    }

    /// Parses a pair from its name; the match is exact and case-sensitive.
    pub fn from_str(s: &str) -> (r: Result<CurrencyPair, NameParseError>)
        ensures
            r matches Ok(p) ==> parse_pair(s@) == Some(p),
            r is Err <==> parse_pair(s@) is None,
    {
        if str_eq(s, "BTC/GBP") {
            Ok(CurrencyPair::BtcGbp)
        } else if str_eq(s, "BTC/USD") {
            Ok(CurrencyPair::BtcUsd)
        } else if str_eq(s, "ETH/BTC") {
            Ok(CurrencyPair::EthBtc)
        } else {
            Err(NameParseError::VariantNotFound)
        }
    }

    /// The integer that identifies the pair.
    pub fn index(&self) -> (i: u64)
        ensures
            i == pair_index(*self),
    {
        match self {
            CurrencyPair::BtcGbp => 0,
            CurrencyPair::BtcUsd => 1,
            CurrencyPair::EthBtc => 2,
        }
    }
}

impl ExchangeIdentifier {
    /// The name of the exchange.
    pub fn as_str(&self) -> (s: &'static str)
        ensures
            s@ == exchange_name(*self),
    {
        match self {
            ExchangeIdentifier::Binance => "binance",
            ExchangeIdentifier::Bitstamp => "bitstamp",
        }
    }

    /// The name of the exchange as an owned string.
    pub fn to_string(&self) -> (s: String)
        ensures
            s@ == exchange_name(*self),
    {
        String::from_str(self.as_str())
    }

    /// Parses an exchange from its name; the match is exact and case-sensitive.
    pub fn from_str(s: &str) -> (r: Result<ExchangeIdentifier, NameParseError>)
        ensures
            r matches Ok(e) ==> parse_exchange(s@) == Some(e),
            r is Err <==> parse_exchange(s@) is None,
    {
        if str_eq(s, "binance") {
            Ok(ExchangeIdentifier::Binance)
        } else if str_eq(s, "bitstamp") {
            Ok(ExchangeIdentifier::Bitstamp)
        } else {
            Err(NameParseError::VariantNotFound)
        }
    }

    /// The integer that identifies the exchange.
    pub fn index(&self) -> (i: u64)
        ensures
            i == exchange_index(*self),
    {
        match self {
            ExchangeIdentifier::Binance => 0,
            ExchangeIdentifier::Bitstamp => 1,
        }
    }
}

/// The integer that identifies the stream of `pair` on `exchange`.
pub fn stream_key(exchange: ExchangeIdentifier, pair: CurrencyPair) -> (k: u64)
    ensures
        k == stream_index(exchange, pair),
{
    exchange.index() * 3 + pair.index()
}

/// Parsing gives back the pair that was named.
pub proof fn lemma_pair_name_parses(p: CurrencyPair)
    ensures
        parse_pair(pair_name(p)) == Some(p),
{
    reveal_strlit("BTC/GBP");
    reveal_strlit("BTC/USD");
    reveal_strlit("ETH/BTC");
    assert("BTC/USD"@[4] != "BTC/GBP"@[4]);
    assert("ETH/BTC"@[0] != "BTC/GBP"@[0]);
    assert("ETH/BTC"@[0] != "BTC/USD"@[0]);
}

/// Parsing gives back the exchange that was named.
pub proof fn lemma_exchange_name_parses(e: ExchangeIdentifier)
    ensures
        parse_exchange(exchange_name(e)) == Some(e),
{
    reveal_strlit("binance");
    reveal_strlit("bitstamp");
    assert("bitstamp"@.len() != "binance"@.len());
}

/// A name that parses is the name of what it parses to.
pub proof fn lemma_parsed_pair_is_named(s: Seq<char>)
    ensures
        parse_pair(s) matches Some(p) ==> pair_name(p) == s,
{
}

/// A name that parses is the name of what it parses to.
pub proof fn lemma_parsed_exchange_is_named(s: Seq<char>)
    ensures
        parse_exchange(s) matches Some(e) ==> exchange_name(e) == s,
{
}

/// Distinct streams have distinct integers.
pub proof fn lemma_stream_index_injective(
    e1: ExchangeIdentifier,
    p1: CurrencyPair,
    e2: ExchangeIdentifier,
    p2: CurrencyPair,
)
    ensures
        stream_index(e1, p1) == stream_index(e2, p2) ==> e1 == e2 && p1 == p2,
{
}

} // verus!
