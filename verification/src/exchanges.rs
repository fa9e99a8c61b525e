//! What the exchange clients compute: the addresses of the streams, the
//! subscription messages of Bitstamp, the currency pair of a Bitstamp
//! channel, and the conversion of an exchange's price levels into a summary.
//! The levels come as (price, amount) pairs of numbers already read from
//! the exchange's text: each is the bit pattern of a binary64 number, or
//! `None` where the text was not a number.

use vstd::prelude::*;
use vstd::utf8::{encode_utf8, is_ascii_chars, is_ascii_chars_encode_utf8};
use crate::common::{CurrencyPair, ExchangeIdentifier, pair_name};
use crate::orderbook::{Level, Summary};

verus! {

/// `url::Url`.
#[verifier::external_type_specification]
#[verifier::external_body]
pub struct ExUrl(url::Url);

/// `url::ParseError`.
#[verifier::external_type_specification]
#[verifier::external_body]
pub struct ExUrlParseError(url::ParseError);

/// What `url::Url::parse` gives for `input`: the URL it spells, or why it
/// spells none. The parse depends on the input alone.
pub uninterp spec fn url_parse_result(input: Seq<char>) -> Result<url::Url, url::ParseError>;

/// `url::Url::parse`: the URL that `input` spells, or why it spells none;
/// the result is named by `url_parse_result`.
#[verifier::external_body]
fn parse_url(input: &str) -> (r: Result<url::Url, url::ParseError>)
    ensures
        r == url_parse_result(input@),
{
    url::Url::parse(input)
}

/// An error of an exchange client.
#[derive(Debug)]
pub enum ExchangeClientError {
    /// The connection failed; the text of the underlying error.
    Connect(String),
    _InvalidCurrencyPair(CurrencyPair),
    /// A price or an amount is no decimal number.
    InvalidDecimal,
}

impl ExchangeClientError {
    /// The text of the error, as it is displayed.
    pub fn message(&self) -> (s: String)
        ensures
            s@ == match self {
                ExchangeClientError::Connect(e) => "Error connecting: "@ + e@,
                ExchangeClientError::_InvalidCurrencyPair(p) => "Invalid currency pair: "@ + pair_name(*p),
                ExchangeClientError::InvalidDecimal => "Invalid decimal"@,
            },
    {
        match self {
            ExchangeClientError::Connect(e) => {
                let mut s = String::from_str("Error connecting: ");
                s.append(e.as_str());
                s
            },
            ExchangeClientError::_InvalidCurrencyPair(p) => {
                let mut s = String::from_str("Invalid currency pair: ");
                s.append(p.as_str());
                s
            },
            ExchangeClientError::InvalidDecimal => String::from_str("Invalid decimal"),
        }
    }
}

/// The lower-case name of a pair in the exchanges' channel and stream names.
pub open spec fn pair_code(p: CurrencyPair) -> Seq<char> {
    match p {
        CurrencyPair::BtcGbp => "btcgbp"@,
        CurrencyPair::BtcUsd => "btcusd"@,
        CurrencyPair::EthBtc => "ethbtc"@,
    }
}

pub fn currency_pair_to_str(currency_pair: CurrencyPair) -> (s: &'static str)
    ensures
        s@ == pair_code(currency_pair),
{
    match currency_pair {
        CurrencyPair::BtcGbp => "btcgbp",
        CurrencyPair::BtcUsd => "btcusd",
        CurrencyPair::EthBtc => "ethbtc",
    }
}

/// The address of Binance's ten-level depth stream of a pair, every 100 ms.
pub open spec fn binance_url_text(p: CurrencyPair) -> Seq<char> {
    "wss://stream.binance.com:9443/ws/"@ + pair_code(p) + "@depth10@100ms"@
}

/// A letter in lower case; every other character as it is.
pub open spec fn ascii_lower(c: char) -> char {
    if 'A' <= c && c <= 'Z' {
        ((c as int) + 32) as char
    } else {
        c
    }
}

/// Binance's stream of a pair is named by the pair's displayed name (as
/// `pair_name` gives it, such as `BTC/USD`) in lower case without its
/// slash, between the fixed address of the depth streams and the depth
/// and rate asked for.
pub proof fn lemma_binance_url_names_pair(p: CurrencyPair)
    ensures
        pair_name(p).len() == 7,
        pair_name(p)[3] == '/',
        binance_url_text(p) == "wss://stream.binance.com:9443/ws/"@
            + (pair_name(p).take(3) + pair_name(p).skip(4)).map_values(|c: char| ascii_lower(c))
            + "@depth10@100ms"@,
{
    reveal_strlit("BTC/GBP");
    reveal_strlit("BTC/USD");
    reveal_strlit("ETH/BTC");
    reveal_strlit("btcgbp");
    reveal_strlit("btcusd");
    reveal_strlit("ethbtc");
    let n = pair_name(p);
    let code = (n.take(3) + n.skip(4)).map_values(|c: char| ascii_lower(c));
    assert(code =~= pair_code(p));
}

pub fn binance_url_string(currency_pair: CurrencyPair) -> (s: String)
    ensures
        s@ == binance_url_text(currency_pair),
{
    let mut s = String::from_str("wss://stream.binance.com:9443/ws/");
    s.append(currency_pair_to_str(currency_pair));
    s.append("@depth10@100ms");
    s
}

/// The URL of Binance's stream of `currency_pair`.
pub fn make_url(currency_pair: CurrencyPair) -> (r: Result<url::Url, url::ParseError>)
    ensures
        r == url_parse_result(binance_url_text(currency_pair)),
{
    let s = binance_url_string(currency_pair);
    parse_url(s.as_str())
}

pub const BITSTAMP_URL: &'static str = "wss://ws.bitstamp.net";

/// The URL of Bitstamp's websocket.
pub fn bitstamp_url() -> (r: Result<url::Url, url::ParseError>)
    ensures
        r == url_parse_result(BITSTAMP_URL@),
{
    parse_url(BITSTAMP_URL)
}

/// The data of a Bitstamp subscription message.
pub struct EventData {
    pub channel: String,
}

/// A subscription message to Bitstamp.
pub struct Event {
    pub event: String,
    pub data: EventData,
}

/// The name of Bitstamp's order book channel of a pair.
pub open spec fn bitstamp_channel(p: CurrencyPair) -> Seq<char> {
    "order_book_"@ + pair_code(p)
}

fn channel_of(currency_pair: CurrencyPair) -> (s: String)
    ensures
        s@ == bitstamp_channel(currency_pair),
{
    let mut s = String::from_str("order_book_");
    s.append(currency_pair_to_str(currency_pair));
    s
}

impl Event {
    /// The message that subscribes to the order book of a pair.
    pub fn new_subscribe(currency_pair: CurrencyPair) -> (r: Event)
        ensures
            r.event@ == "bts:subscribe"@,
            r.data.channel@ == bitstamp_channel(currency_pair),
    {
        Event { event: String::from_str("bts:subscribe"), data: EventData { channel: channel_of(currency_pair) } }
    }

    /// The message that ends the subscription to the order book of a pair.
    pub fn new_unsubscribe(currency_pair: CurrencyPair) -> (r: Event)
        ensures
            r.event@ == "bts:unsubscribe"@,
            r.data.channel@ == bitstamp_channel(currency_pair),
    {
        Event { event: String::from_str("bts:unsubscribe"), data: EventData { channel: channel_of(currency_pair) } }
    }
}

/// The bytes of the lower-case name of a pair.
pub open spec fn pair_code_bytes(p: CurrencyPair) -> Seq<u8> {
    match p {
        CurrencyPair::BtcGbp => seq![98u8, 116u8, 99u8, 103u8, 98u8, 112u8],
        CurrencyPair::BtcUsd => seq![98u8, 116u8, 99u8, 117u8, 115u8, 100u8],
        CurrencyPair::EthBtc => seq![101u8, 116u8, 104u8, 98u8, 116u8, 99u8],
    }
}

/// The pair named by a Bitstamp channel: the bytes after the eleventh
/// (those of `order_book_`) name it.
pub open spec fn channel_pair(channel: Seq<u8>) -> Option<CurrencyPair> {
    if channel.len() < 11 {
        None
    } else if channel.skip(11) == pair_code_bytes(CurrencyPair::BtcGbp) {
        Some(CurrencyPair::BtcGbp)
    } else if channel.skip(11) == pair_code_bytes(CurrencyPair::BtcUsd) {
        Some(CurrencyPair::BtcUsd)
    } else if channel.skip(11) == pair_code_bytes(CurrencyPair::EthBtc) {
        Some(CurrencyPair::EthBtc)
    } else {
        None
    }
}

/// Whether `b` from `start` on is exactly `name`.
fn bytes_from_equal(b: &[u8], start: usize, name: &[u8; 6]) -> (r: bool)
    requires
        start <= b@.len(),
    ensures
        r == (b@.skip(start as int) == name@),
{
    if b.len() - start != 6 {
        assert(b@.skip(start as int).len() != name@.len());
        return false;
    }
    let mut i: usize = 0;
    while i < 6
        invariant
            b@.len() == start + 6,
            b.len() == start + 6,
            i <= 6,
            forall|j: int| 0 <= j < i ==> b@[start + j] == name@[j],
        decreases 6 - i,
    {
        if b[start + i] != name[i] {
            assert(b@.skip(start as int)[i as int] != name@[i as int]);
            return false;
        }
        i = i + 1;
    }
    assert(b@.skip(start as int) =~= name@);
    true
}

/// The pair of a Bitstamp channel name, if it names one.
pub fn parse_channel(channel: &str) -> (r: Option<CurrencyPair>)
    ensures
        r == channel_pair(encode_utf8(channel@)),
{
    let b = channel.as_bytes();
    if b.len() < 11 {
        return None;
    }
    let btcgbp: [u8; 6] = [98, 116, 99, 103, 98, 112];
    let btcusd: [u8; 6] = [98, 116, 99, 117, 115, 100];
    let ethbtc: [u8; 6] = [101, 116, 104, 98, 116, 99];
    assert(btcgbp@ =~= pair_code_bytes(CurrencyPair::BtcGbp));
    assert(btcusd@ =~= pair_code_bytes(CurrencyPair::BtcUsd));
    assert(ethbtc@ =~= pair_code_bytes(CurrencyPair::EthBtc));
    if bytes_from_equal(b, 11, &btcgbp) {
        Some(CurrencyPair::BtcGbp)
    } else if bytes_from_equal(b, 11, &btcusd) {
        Some(CurrencyPair::BtcUsd)
    } else if bytes_from_equal(b, 11, &ethbtc) {
        Some(CurrencyPair::EthBtc)
    } else {
        None
    }
}

/// The channel that a subscription names is read back as the pair it was
/// made for.
pub proof fn lemma_subscribed_channel_parses(p: CurrencyPair)
    ensures
        channel_pair(encode_utf8(bitstamp_channel(p))) == Some(p),
{
    reveal_strlit("order_book_");
    reveal_strlit("btcgbp");
    reveal_strlit("btcusd");
    reveal_strlit("ethbtc");
    let c = bitstamp_channel(p);
    assert(c.len() == 17);
    assert(is_ascii_chars(c));
    is_ascii_chars_encode_utf8(c);
    let b = encode_utf8(c);
    assert(b.len() == 17);
    match p {
        CurrencyPair::BtcGbp => {
            assert(b.skip(11) =~= pair_code_bytes(CurrencyPair::BtcGbp));
        },
        CurrencyPair::BtcUsd => {
            assert(b[14] != pair_code_bytes(CurrencyPair::BtcGbp)[3]);
            assert(b.skip(11) =~= pair_code_bytes(CurrencyPair::BtcUsd));
        },
        CurrencyPair::EthBtc => {
            assert(b[11] != pair_code_bytes(CurrencyPair::BtcGbp)[0]);
            assert(b[11] != pair_code_bytes(CurrencyPair::BtcUsd)[0]);
            assert(b.skip(11) =~= pair_code_bytes(CurrencyPair::EthBtc));
        },
    }
}

/// The levels of a Bitstamp order book message.
pub struct WsResponseData {
    pub bids: Vec<(String, String)>,
    pub asks: Vec<(String, String)>,
}

/// A Bitstamp order book message.
pub struct WsResponse {
    pub channel: String,
    pub data: WsResponseData,
}

impl WsResponse {
    /// The pair the message is about. A channel that names no pair (which
    /// Bitstamp does not send for its order book messages) is left out.
    pub fn get_currency_pair(&self) -> (r: CurrencyPair)
        requires
            channel_pair(encode_utf8(self.channel@)) is Some,
        ensures
            Some(r) == channel_pair(encode_utf8(self.channel@)),
    {
        match parse_channel(self.channel.as_str()) {
            Some(p) => p,
            None => {
                assert(false);
                CurrencyPair::BtcGbp
            },
        }
    }
}

/// The level that a (price, amount) pair describes, or `None` when either
/// of the two is no number.
pub open spec fn level_of(exchange: ExchangeIdentifier, price: Option<u64>, amount: Option<u64>) -> Option<Level> {
    match (price, amount) {
        (Some(p), Some(a)) => Some(Level { exchange, price: p, amount: a }),
        _ => None,
    }
}

/// One level from its price and amount; an invalid number is an error.
pub fn read_level(
    exchange: ExchangeIdentifier,
    price: Option<u64>,
    amount: Option<u64>,
) -> (r: Result<Level, ExchangeClientError>)
    ensures
        match r {
            Ok(l) => level_of(exchange, price, amount) == Some(l),
            Err(e) => level_of(exchange, price, amount) is None && e is InvalidDecimal,
        },
{
    let price = match price {
        Some(p) => p,
        None => {
            return Err(ExchangeClientError::InvalidDecimal);
        },
    };
    let amount = match amount {
        Some(a) => a,
        None => {
            return Err(ExchangeClientError::InvalidDecimal);
        },
    };
    Ok(Level { exchange, price, amount })
}

/// The levels that a list of (price, amount) pairs describes, or `None`
/// when one of them holds no number.
pub open spec fn levels_of(exchange: ExchangeIdentifier, pairs: Seq<(Option<u64>, Option<u64>)>) -> Option<Seq<Level>>
    decreases pairs.len(),
{
    if pairs.len() == 0 {
        Some(Seq::empty())
    } else {
        match (levels_of(exchange, pairs.drop_last()), level_of(exchange, pairs.last().0, pairs.last().1)) {
            (Some(ls), Some(l)) => Some(ls.push(l)),
            _ => None,
        }
    }
}

proof fn lemma_levels_of_prefix(exchange: ExchangeIdentifier, pairs: Seq<(Option<u64>, Option<u64>)>, k: int)
    requires
        0 <= k <= pairs.len(),
        levels_of(exchange, pairs.take(k)) is None,
    ensures
        levels_of(exchange, pairs) is None,
    decreases pairs.len() - k,
{
    if k < pairs.len() {
        assert(pairs.take(k + 1).drop_last() =~= pairs.take(k));
        lemma_levels_of_prefix(exchange, pairs, k + 1);
    } else {
        assert(pairs.take(k) =~= pairs);
    }
}

/// A side of a book is read whole or not at all: it reads exactly when
/// every price and amount in it is a number, and then it gives one level
/// per pair, in the same order, each with that pair's price and amount.
pub proof fn lemma_levels_of_exact(exchange: ExchangeIdentifier, pairs: Seq<(Option<u64>, Option<u64>)>)
    ensures
        levels_of(exchange, pairs) is Some <==> forall|i: int|
            0 <= i < pairs.len() ==> (#[trigger] pairs[i]).0 is Some && pairs[i].1 is Some,
        levels_of(exchange, pairs) matches Some(ls) ==> {
            &&& ls.len() == pairs.len()
            &&& forall|i: int| 0 <= i < pairs.len() ==> #[trigger] ls[i] == Level {
                exchange,
                price: pairs[i].0->0,
                amount: pairs[i].1->0,
            }
        },
    decreases pairs.len(),
{
    if pairs.len() > 0 {
        let init = pairs.drop_last();
        lemma_levels_of_exact(exchange, init);
        assert forall|i: int| 0 <= i < init.len() implies #[trigger] init[i] == pairs[i] by {}
        if levels_of(exchange, pairs) is Some {
            let ls = levels_of(exchange, init)->0;
            assert forall|i: int| 0 <= i < pairs.len() implies (#[trigger] pairs[i]).0 is Some && pairs[i].1 is Some by {
                if i < init.len() {
                    assert(init[i] == pairs[i]);
                }
            }
        } else {
            if levels_of(exchange, init) is Some {
                let i = pairs.len() - 1;
                assert(!(pairs[i].0 is Some && pairs[i].1 is Some));
            } else {
                let i = choose|i: int| 0 <= i < init.len() && !((#[trigger] init[i]).0 is Some && init[i].1 is Some);
                assert(init[i] == pairs[i]);
            }
        }
    }
}

/// Reads all the levels of one side of a book.
pub fn pairs_to_levels(exchange: ExchangeIdentifier, pairs: &Vec<(Option<u64>, Option<u64>)>) -> (r: Option<Vec<Level>>)
    ensures
        match r {
            Some(v) => levels_of(exchange, pairs@) == Some(v@),
            None => levels_of(exchange, pairs@) is None,
        },
{
    let mut v: Vec<Level> = Vec::new();
    let n = pairs.len();
    let mut i: usize = 0;
    while i < n
        invariant
            n == pairs@.len(),
            i <= n,
            levels_of(exchange, pairs@.take(i as int)) == Some(v@),
        decreases n - i,
    {
        assert(pairs@.take(i + 1).drop_last() =~= pairs@.take(i as int));
        assert(pairs@.take(i + 1).last() == pairs@[i as int]);
        match read_level(exchange, pairs[i].0, pairs[i].1) {
            Ok(l) => v.push(l),
            Err(_) => {
                proof {
                    lemma_levels_of_prefix(exchange, pairs@, i + 1);
                }
                return None;
            },
        }
        i = i + 1;
    }
    assert(pairs@.take(n as int) =~= pairs@);
    Some(v)
}

/// The summary that one exchange's book gives: its levels as they came; an
/// error when one of its numbers is invalid.
pub fn resp_to_summary(
    exchange: ExchangeIdentifier,
    bids: &Vec<(Option<u64>, Option<u64>)>,
    asks: &Vec<(Option<u64>, Option<u64>)>,
) -> (r: Result<Summary, ExchangeClientError>)
    ensures
        match r {
            Ok(s) => {
                &&& levels_of(exchange, bids@) == Some(s.bids@)
                &&& levels_of(exchange, asks@) == Some(s.asks@)
            },
            Err(e) => {
                &&& e is InvalidDecimal
                &&& (levels_of(exchange, bids@) is None || levels_of(exchange, asks@) is None)
            },
        },
{
    let b = pairs_to_levels(exchange, bids);
    let a = pairs_to_levels(exchange, asks);
    match (b, a) {
        (Some(bids), Some(asks)) => Ok(Summary { bids, asks }),
        _ => Err(ExchangeClientError::InvalidDecimal),
    }
}

} // verus!
