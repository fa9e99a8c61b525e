//! The gRPC endpoints' reading of their requests.

use vstd::prelude::*;
use crate::common::{CurrencyPair, ExchangeIdentifier, parse_pair, parse_exchange, exchange_name, lemma_exchange_name_parses};

verus! {

pub const ERR_INVALID_PAIR: &'static str = "Invalid currency pair";
pub const ERR_INVALID_EXCHANGE: &'static str = "At least one invalid exchange identifier";

/// A request that names something unknown; the server answers it with an
/// "invalid argument" status and this message.
pub struct InvalidArgument {
    pub message: String,
}

/// The stream of the plain endpoint: ETH/BTC over Binance and Bitstamp.
pub fn default_stream() -> (r: (Vec<ExchangeIdentifier>, CurrencyPair))
    ensures
        r.0@ == seq![ExchangeIdentifier::Binance, ExchangeIdentifier::Bitstamp],
        r.1 == CurrencyPair::EthBtc,
{
    let mut v: Vec<ExchangeIdentifier> = Vec::new();
    v.push(ExchangeIdentifier::Binance);
    v.push(ExchangeIdentifier::Bitstamp);
    assert(v@ =~= seq![ExchangeIdentifier::Binance, ExchangeIdentifier::Bitstamp]);
    (v, CurrencyPair::EthBtc)
}

/// The exchanges named by `names`, or `None` when a name is unknown.
pub open spec fn parse_exchange_names(names: Seq<String>) -> Option<Seq<ExchangeIdentifier>>
    decreases names.len(),
{
    if names.len() == 0 {
        Some(Seq::empty())
    } else {
        match (parse_exchange_names(names.drop_last()), parse_exchange(names.last()@)) {
            (Some(es), Some(e)) => Some(es.push(e)),
            _ => None,
        }
    }
}

/// Names written by the clients (`ExchangeIdentifier::to_string`) are read
/// back as the exchanges they name.
pub proof fn lemma_exchange_names_parse(names: Seq<String>, es: Seq<ExchangeIdentifier>)
    requires
        names.len() == es.len(),
        forall|i: int| 0 <= i < names.len() ==> (#[trigger] names[i])@ == exchange_name(es[i]),
    ensures
        parse_exchange_names(names) == Some(es),
    decreases names.len(),
{
    if names.len() > 0 {
        lemma_exchange_names_parse(names.drop_last(), es.drop_last());
        lemma_exchange_name_parses(es.last());
        assert(names.last()@ == exchange_name(es.last()));
        assert(es.drop_last().push(es.last()) =~= es);
    }
}

proof fn lemma_parse_names_prefix(names: Seq<String>, k: int)
    requires
        0 <= k <= names.len(),
        parse_exchange_names(names.take(k)) is None,
    ensures
        parse_exchange_names(names) is None,
    decreases names.len() - k,
{
    if k < names.len() {
        assert(names.take(k + 1).drop_last() =~= names.take(k));
        lemma_parse_names_prefix(names, k + 1);
    } else {
        assert(names.take(k) =~= names);
    }
}

/// Reads the arguments of the custom endpoint: a currency pair by name and
/// the names of the exchanges to aggregate over.
pub fn parse_custom_args(name: &str, exchange_idents: &Vec<String>) -> (r: Result<(CurrencyPair, Vec<ExchangeIdentifier>), InvalidArgument>)
    ensures
        match r {
            Ok((p, es)) => parse_pair(name@) == Some(p) && parse_exchange_names(exchange_idents@) == Some(es@),
            Err(e) => if parse_pair(name@) is None {
                e.message@ == ERR_INVALID_PAIR@
            } else {
                parse_exchange_names(exchange_idents@) is None && e.message@ == ERR_INVALID_EXCHANGE@
            },
        },
{
    let pair = match CurrencyPair::from_str(name) {
        Ok(p) => p,
        Err(_) => {
            return Err(InvalidArgument { message: String::from_str(ERR_INVALID_PAIR) });
        },
    };
    let mut es: Vec<ExchangeIdentifier> = Vec::new();
    let n = exchange_idents.len();
    let mut i: usize = 0;
    while i < n
        invariant
            n == exchange_idents@.len(),
            i <= n,
            parse_pair(name@) == Some(pair),
            parse_exchange_names(exchange_idents@.take(i as int)) == Some(es@),
        decreases n - i,
    {
        assert(exchange_idents@.take(i + 1).drop_last() =~= exchange_idents@.take(i as int));
        assert(exchange_idents@.take(i + 1).last() == exchange_idents@[i as int]);
        match ExchangeIdentifier::from_str(exchange_idents[i].as_str()) {
            Ok(e) => es.push(e),
            Err(_) => {
                proof {
                    lemma_parse_names_prefix(exchange_idents@, i + 1);
                }
                return Err(InvalidArgument { message: String::from_str(ERR_INVALID_EXCHANGE) });
            },
        }
        i = i + 1;
    }
    assert(exchange_idents@.take(n as int) =~= exchange_idents@);
    Ok((pair, es))
}

} // verus!
