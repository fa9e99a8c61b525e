//! The bookkeeping of the aggregator: which exchanges are connected, which
//! (exchange, currency pair) streams are open with their last order book,
//! and which subscribers want a summary of which streams.
//!
//! The exchange clients, the receivers of their updates and the sending of
//! summaries stay with the surrounding program, which waits on them; each
//! step here is the decision that follows one such wait. A step that owes
//! summaries returns them, each with the subscriber it is owed to; the
//! subscribers whose channel turned out to be closed come back to
//! `remove_gone`.

use vstd::prelude::*;
use fxhash::{FxHashMap, FxHashSet};
use crate::common::{CurrencyPair, ExchangeIdentifier, exchange_index, stream_index, stream_key};
use crate::orderbook::{Level, Summary, best_levels, make_summary};
use crate::fxmap::{map_insert, map_remove, map_get, map_contains, set_insert, set_remove, set_elements, set_contains};
use crate::exchanges::ExchangeClientError;
use tokio::sync::mpsc::UnboundedSender;

verus! {

broadcast use vstd::std_specs::hash::group_hash_axioms;

/// `tokio::sync::mpsc::UnboundedSender`, the sending half of a channel.
#[verifier::external_type_specification]
#[verifier::external_body]
#[verifier::reject_recursive_types(V)]
pub struct ExUnboundedSender<V>(UnboundedSender<V>);

/// The last order book received for one stream.
struct LastOrderbook {
    last_bids: Vec<Level>,
    last_asks: Vec<Level>,
}

/// One open (exchange, currency pair) stream.
struct PairData {
    last_orderbook: LastOrderbook,
    subscriber_indices: FxHashSet<usize>,
}

/// One subscriber: the streams it aggregates and where its summaries go.
struct SubscriberData {
    exchange_idents: Vec<ExchangeIdentifier>,
    currency_pair: CurrencyPair,
    summary_tx: UnboundedSender<Summary>,
}

/// The aggregator's state.
pub struct AggregatorInner {
    client_map: FxHashSet<u64>,
    pair_map: FxHashMap<u64, PairData>,
    subscriber_map: FxHashMap<usize, SubscriberData>,
    next_subscriber_index: usize,
}

/// An open stream as a mathematical value.
#[verifier::ext_equal]
pub struct PairModel {
    pub bids: Seq<Level>,
    pub asks: Seq<Level>,
    pub subscribers: Set<usize>,
}

/// A subscriber as a mathematical value.
#[verifier::ext_equal]
pub struct SubscriberModel {
    pub exchanges: Seq<ExchangeIdentifier>,
    pub pair: CurrencyPair,
    pub summary_tx: UnboundedSender<Summary>,
}

/// The aggregator's state as a mathematical value. Clients are keyed by
/// `exchange_index`, streams by `stream_index`.
#[verifier::ext_equal]
pub struct AggregatorModel {
    pub clients: Set<u64>,
    pub pairs: Map<u64, PairModel>,
    pub subscribers: Map<usize, SubscriberModel>,
    pub next_index: usize,
}

impl PairData {
    spec fn model(self) -> PairModel {
        PairModel {
            bids: self.last_orderbook.last_bids@,
            asks: self.last_orderbook.last_asks@,
            subscribers: self.subscriber_indices@,
        }
    }
}

impl SubscriberData {
    spec fn model(self) -> SubscriberModel {
        SubscriberModel {
            exchanges: self.exchange_idents@,
            pair: self.currency_pair,
            summary_tx: self.summary_tx,
        }
    }
}

impl View for AggregatorInner {
    type V = AggregatorModel;

    closed spec fn view(&self) -> AggregatorModel {
        AggregatorModel {
            clients: self.client_map@,
            pairs: self.pair_map@.map_values(|p: PairData| p.model()),
            subscribers: self.subscriber_map@.map_values(|s: SubscriberData| s.model()),
            next_index: self.next_subscriber_index,
        }
    }
}

/// `k` is the key of one of the streams that `sub` aggregates.
pub open spec fn subscribed_key(sub: SubscriberModel, k: u64) -> bool {
    exists|j: int| 0 <= j < sub.exchanges.len() && stream_index(#[trigger] sub.exchanges[j], sub.pair) == k
}

/// The state's invariant:
/// every stream's exchange is connected; every subscriber is numbered below
/// the next index and is listed by every stream it aggregates; and a stream
/// lists only subscribers that exist and aggregate it.
pub open spec fn model_wf(m: AggregatorModel) -> bool {
    &&& forall|k: u64| #[trigger] m.pairs.contains_key(k) ==> k < 6 && m.clients.contains(k / 3)
    &&& forall|i: usize| #[trigger] m.subscribers.contains_key(i) ==> {
        &&& i < m.next_index
        &&& forall|j: int| 0 <= j < m.subscribers[i].exchanges.len() ==> {
            let k = stream_index(#[trigger] m.subscribers[i].exchanges[j], m.subscribers[i].pair);
            m.pairs.contains_key(k) && m.pairs[k].subscribers.contains(i)
        }
    }
    &&& forall|k: u64, i: usize| #[trigger] m.pairs.contains_key(k) && #[trigger] m.pairs[k].subscribers.contains(i)
        ==> m.subscribers.contains_key(i) && subscribed_key(m.subscribers[i], k)
}

/// `s` is the summary owed to the subscriber `idx` in the state `m`: the
/// books of all the streams it aggregates merged, in the order of its
/// exchanges, and cut to the ten best levels a side.
pub open spec fn summary_owed(m: AggregatorModel, idx: usize, s: Summary) -> bool {
    let sub = m.subscribers[idx];
    &&& s.bids@ == best_levels(gather_levels(m.pairs, sub.exchanges, sub.pair, true), true)
    &&& s.asks@ == best_levels(gather_levels(m.pairs, sub.exchanges, sub.pair, false), false)
}

/// The exchanges of `idents` that `have` does not hold yet, each once, in
/// the order of their first appearance.
pub open spec fn missing_exchanges(
    have: spec_fn(ExchangeIdentifier) -> bool,
    idents: Seq<ExchangeIdentifier>,
) -> Seq<ExchangeIdentifier>
    decreases idents.len(),
{
    if idents.len() == 0 {
        Seq::empty()
    } else {
        let prev = missing_exchanges(have, idents.drop_last());
        let e = idents.last();
        if have(e) || prev.contains(e) {
            prev
        } else {
            prev.push(e)
        }
    }
}

/// The exchanges that need a client before `idents` can be served.
pub open spec fn clients_needed(
    m: AggregatorModel,
    idents: Seq<ExchangeIdentifier>,
) -> Seq<ExchangeIdentifier> {
    missing_exchanges(|e: ExchangeIdentifier| m.clients.contains(exchange_index(e)), idents)
}

/// The exchanges whose stream of `pair` must be opened before `idents` can
/// be served.
pub open spec fn streams_needed(
    m: AggregatorModel,
    idents: Seq<ExchangeIdentifier>,
    pair: CurrencyPair,
) -> Seq<ExchangeIdentifier> {
    missing_exchanges(|e: ExchangeIdentifier| m.pairs.contains_key(stream_index(e, pair)), idents)
}

/// What is missing is asked for once: each exchange of `idents` that `have`
/// does not hold appears exactly once, and nothing else appears. So a
/// client or stream in place is never made again, and none is made twice.
pub proof fn lemma_missing_exchanges(
    have: spec_fn(ExchangeIdentifier) -> bool,
    idents: Seq<ExchangeIdentifier>,
)
    ensures
        missing_exchanges(have, idents).no_duplicates(),
        forall|e: ExchangeIdentifier| #[trigger] missing_exchanges(have, idents).contains(e) <==> (idents.contains(e) && !have(e)),
    decreases idents.len(),
{
    if idents.len() > 0 {
        let prev = missing_exchanges(have, idents.drop_last());
        let x = idents.last();
        lemma_missing_exchanges(have, idents.drop_last());
        lemma_push_contains(idents.drop_last(), x);
        assert(idents.drop_last().push(x) =~= idents);
        if !(have(x) || prev.contains(x)) {
            lemma_push_contains(prev, x);
        }
    }
}

/// The clients a subscription needs are its exchanges without a client,
/// each once: an exchange is in the list exactly when the subscription
/// names it and it is not connected.
pub proof fn lemma_clients_needed(m: AggregatorModel, idents: Seq<ExchangeIdentifier>)
    ensures
        clients_needed(m, idents).no_duplicates(),
        forall|e: ExchangeIdentifier| #[trigger] clients_needed(m, idents).contains(e)
            <==> (idents.contains(e) && !m.clients.contains(exchange_index(e))),
{
    lemma_missing_exchanges(|e: ExchangeIdentifier| m.clients.contains(exchange_index(e)), idents);
}

/// The streams a subscription to `pair` needs are those of its exchanges
/// whose stream of that very pair is not open, each once: an exchange is in
/// the list exactly when the subscription names it and its stream of
/// `pair` is not open, whatever other pairs it already streams.
pub proof fn lemma_streams_needed(m: AggregatorModel, idents: Seq<ExchangeIdentifier>, pair: CurrencyPair)
    ensures
        streams_needed(m, idents, pair).no_duplicates(),
        forall|e: ExchangeIdentifier| #[trigger] streams_needed(m, idents, pair).contains(e)
            <==> (idents.contains(e) && !m.pairs.contains_key(stream_index(e, pair))),
{
    lemma_missing_exchanges(|e: ExchangeIdentifier| m.pairs.contains_key(stream_index(e, pair)), idents);
}

/// Once every client that a subscription needs is connected, it needs none.
pub proof fn lemma_clients_connect_once(m: AggregatorModel, idents: Seq<ExchangeIdentifier>)
    ensures
        ({
            let need = clients_needed(m, idents);
            let m2 = AggregatorModel {
                clients: m.clients + need.to_set().map(|e: ExchangeIdentifier| exchange_index(e)),
                ..m
            };
            clients_needed(m2, idents).len() == 0
        }),
{
    let need = clients_needed(m, idents);
    let m2 = AggregatorModel { clients: m.clients + need.to_set().map(|e: ExchangeIdentifier| exchange_index(e)), ..m };
    lemma_missing_exchanges(|e: ExchangeIdentifier| m.clients.contains(exchange_index(e)), idents);
    lemma_missing_exchanges(|e: ExchangeIdentifier| m2.clients.contains(exchange_index(e)), idents);
    let n2 = clients_needed(m2, idents);
    if n2.len() > 0 {
        let e = n2[0];
        assert(n2.contains(e));
        if !m.clients.contains(exchange_index(e)) {
            assert(need.contains(e));
            assert(need.to_set().contains(e));
            assert(m2.clients.contains(exchange_index(e)));
        }
        assert(false);
    }
}

/// The levels of one side of the books of the streams `exchanges` x `pair`,
/// concatenated in the order of `exchanges`.
pub open spec fn gather_levels(
    pairs: Map<u64, PairModel>,
    exchanges: Seq<ExchangeIdentifier>,
    pair: CurrencyPair,
    bids: bool,
) -> Seq<Level>
    decreases exchanges.len(),
{
    if exchanges.len() == 0 {
        Seq::empty()
    } else {
        let p = pairs[stream_index(exchanges.last(), pair)];
        gather_levels(pairs, exchanges.drop_last(), pair, bids) + if bids { p.bids } else { p.asks }
    }
}

/// The state after adding the subscriber `idx` of `exchanges` x `pair`.
pub open spec fn subscribe_model(
    m: AggregatorModel,
    exchanges: Seq<ExchangeIdentifier>,
    pair: CurrencyPair,
    summary_tx: UnboundedSender<Summary>,
) -> AggregatorModel {
    let idx = m.next_index;
    let sub = SubscriberModel { exchanges, pair, summary_tx };
    AggregatorModel {
        clients: m.clients,
        pairs: Map::new(
            |k: u64| m.pairs.contains_key(k),
            |k: u64|
                if subscribed_key(sub, k) {
                    PairModel { subscribers: m.pairs[k].subscribers.insert(idx), ..m.pairs[k] }
                } else {
                    m.pairs[k]
                },
        ),
        subscribers: m.subscribers.insert(idx, sub),
        next_index: (idx + 1) as usize,
    }
}

/// The state after removing the subscriber `idx`: it leaves every stream it
/// aggregated, and a stream that it was the last subscriber of is closed.
pub open spec fn unsubscribe_model(
    m: AggregatorModel,
    idx: usize,
) -> AggregatorModel {
    if !m.subscribers.contains_key(idx) {
        m
    } else {
        let sub = m.subscribers[idx];
        AggregatorModel {
            clients: m.clients,
            pairs: Map::new(
                |k: u64|
                    m.pairs.contains_key(k) && !(subscribed_key(sub, k)
                        && m.pairs[k].subscribers.remove(idx).is_empty()),
                |k: u64|
                    if subscribed_key(sub, k) {
                        PairModel { subscribers: m.pairs[k].subscribers.remove(idx), ..m.pairs[k] }
                    } else {
                        m.pairs[k]
                    },
            ),
            subscribers: m.subscribers.remove(idx),
            next_index: m.next_index,
        }
    }
}

proof fn lemma_push_contains<A>(s: Seq<A>, x: A)
    ensures
        forall|y: A| #[trigger] s.push(x).contains(y) <==> (s.contains(y) || y == x),
{
    assert forall|y: A| #[trigger] s.push(x).contains(y) <==> (s.contains(y) || y == x) by {
        if s.contains(y) {
            let w = choose|w: int| 0 <= w < s.len() && s[w] == y;
            assert(s.push(x)[w] == y);
        }
        if y == x {
            assert(s.push(x)[s.len() as int] == y);
        }
        if s.push(x).contains(y) {
            let w = choose|w: int| 0 <= w < s.len() + 1 && s.push(x)[w] == y;
            if w < s.len() {
                assert(s[w] == y);
            }
        }
    }
}

/// The state after a new book for the stream `k`.
pub open spec fn update_model(m: AggregatorModel, k: u64, bids: Seq<Level>, asks: Seq<Level>) -> AggregatorModel {
    AggregatorModel { pairs: m.pairs.insert(k, PairModel { bids, asks, ..m.pairs[k] }), ..m }
}

/// The state after removing the subscribers `idxs`, in order.
pub open spec fn unsubscribe_all(m: AggregatorModel, idxs: Seq<usize>) -> AggregatorModel
    decreases idxs.len(),
{
    if idxs.len() == 0 {
        m
    } else {
        unsubscribe_model(unsubscribe_all(m, idxs.drop_last()), idxs.last())
    }
}

/// Removing subscribers one after the other keeps the invariant.
pub proof fn lemma_unsubscribe_all_keeps_wf(m: AggregatorModel, idxs: Seq<usize>)
    requires
        model_wf(m),
    ensures
        model_wf(unsubscribe_all(m, idxs)),
    decreases idxs.len(),
{
    if idxs.len() > 0 {
        lemma_unsubscribe_all_keeps_wf(m, idxs.drop_last());
        lemma_unsubscribe_keeps_wf(unsubscribe_all(m, idxs.drop_last()), idxs.last());
    }
}

/// A new book keeps the invariant.
pub proof fn lemma_update_keeps_wf(m: AggregatorModel, k: u64, bids: Seq<Level>, asks: Seq<Level>)
    requires
        model_wf(m),
        m.pairs.contains_key(k),
    ensures
        model_wf(update_model(m, k, bids, asks)),
{
    let m1 = update_model(m, k, bids, asks);
    assert forall|k2: u64, i: usize| #[trigger] m1.pairs.contains_key(k2) && #[trigger] m1.pairs[k2].subscribers.contains(i)
        implies m1.subscribers.contains_key(i) && subscribed_key(m1.subscribers[i], k2) by {
        assert(m.pairs[k2].subscribers.contains(i));
    }
}

/// Adding a subscriber of open streams keeps the invariant.
pub proof fn lemma_subscribe_keeps_wf(
    m0: AggregatorModel,
    exchanges: Seq<ExchangeIdentifier>,
    pair: CurrencyPair,
    summary_tx: UnboundedSender<Summary>,
)
    requires
        model_wf(m0),
        forall|j: int| 0 <= j < exchanges.len() ==> m0.pairs.contains_key(stream_index(#[trigger] exchanges[j], pair)),
        m0.next_index < usize::MAX,
    ensures
        model_wf(subscribe_model(m0, exchanges, pair, summary_tx)),
{
    let idx = m0.next_index;
    let sub = SubscriberModel { exchanges, pair, summary_tx };
    let m = subscribe_model(m0, exchanges, pair, summary_tx);
    assert forall|i: usize| #[trigger] m.subscribers.contains_key(i) implies {
        &&& i < m.next_index
        &&& forall|jj: int| 0 <= jj < m.subscribers[i].exchanges.len() ==> {
            let k = stream_index(#[trigger] m.subscribers[i].exchanges[jj], m.subscribers[i].pair);
            m.pairs.contains_key(k) && m.pairs[k].subscribers.contains(i)
        }
    } by {
        if i == idx {
            assert forall|jj: int| 0 <= jj < m.subscribers[i].exchanges.len() implies {
                let k = stream_index(#[trigger] m.subscribers[i].exchanges[jj], m.subscribers[i].pair);
                m.pairs.contains_key(k) && m.pairs[k].subscribers.contains(i)
            } by {
                let k = stream_index(m.subscribers[i].exchanges[jj], m.subscribers[i].pair);
                assert(subscribed_key(sub, k));
            }
        } else {
            assert(m0.subscribers.contains_key(i));
            assert forall|jj: int| 0 <= jj < m.subscribers[i].exchanges.len() implies {
                let k = stream_index(#[trigger] m.subscribers[i].exchanges[jj], m.subscribers[i].pair);
                m.pairs.contains_key(k) && m.pairs[k].subscribers.contains(i)
            } by {
                let k = stream_index(m0.subscribers[i].exchanges[jj], m0.subscribers[i].pair);
                assert(m0.pairs.contains_key(k) && m0.pairs[k].subscribers.contains(i));
            }
        }
    }
    assert forall|k: u64, i: usize| #[trigger] m.pairs.contains_key(k) && #[trigger] m.pairs[k].subscribers.contains(i)
        implies m.subscribers.contains_key(i) && subscribed_key(m.subscribers[i], k) by {
        if i != idx {
            if subscribed_key(sub, k) {
                assert(m.pairs[k].subscribers == m0.pairs[k].subscribers.insert(idx));
            }
            assert(m0.pairs[k].subscribers.contains(i));
            assert(m.subscribers[i] == m0.subscribers[i]);
        } else {
            if !subscribed_key(sub, k) {
                assert(m0.pairs[k].subscribers.contains(idx));
                assert(m0.subscribers.contains_key(idx));
                assert(false);
            }
        }
    }
}

/// Removing a subscriber keeps the invariant.
pub proof fn lemma_unsubscribe_keeps_wf(m: AggregatorModel, idx: usize)
    requires
        model_wf(m),
    ensures
        model_wf(unsubscribe_model(m, idx)),
{
    if m.subscribers.contains_key(idx) {
        let m1 = unsubscribe_model(m, idx);
        let sub = m.subscribers[idx];
        assert forall|i: usize| #[trigger] m1.subscribers.contains_key(i) implies {
            &&& i < m1.next_index
            &&& forall|jj: int| 0 <= jj < m1.subscribers[i].exchanges.len() ==> {
                let k = stream_index(#[trigger] m1.subscribers[i].exchanges[jj], m1.subscribers[i].pair);
                m1.pairs.contains_key(k) && m1.pairs[k].subscribers.contains(i)
            }
        } by {
            assert(m.subscribers.contains_key(i) && i != idx);
            assert forall|jj: int| 0 <= jj < m1.subscribers[i].exchanges.len() implies {
                let k = stream_index(#[trigger] m1.subscribers[i].exchanges[jj], m1.subscribers[i].pair);
                m1.pairs.contains_key(k) && m1.pairs[k].subscribers.contains(i)
            } by {
                let k = stream_index(m.subscribers[i].exchanges[jj], m.subscribers[i].pair);
                assert(m.pairs.contains_key(k) && m.pairs[k].subscribers.contains(i));
                assert(m.pairs[k].subscribers.remove(idx).contains(i));
            }
        }
        assert forall|k: u64, i: usize| #[trigger] m1.pairs.contains_key(k) && #[trigger] m1.pairs[k].subscribers.contains(i)
            implies m1.subscribers.contains_key(i) && subscribed_key(m1.subscribers[i], k) by {
            assert(m.pairs[k].subscribers.contains(i));
            if subscribed_key(sub, k) {
                assert(m.pairs[k].subscribers.remove(idx).contains(i));
                assert(i != idx);
            } else {
                assert(i != idx);
            }
            assert(m.subscribers.contains_key(i));
            assert(m1.subscribers[i] == m.subscribers[i]);
        }
    }
}

/// Removing a subscriber twice is removing it once.
pub proof fn lemma_unsubscribe_idempotent(m: AggregatorModel, idx: usize)
    ensures
        unsubscribe_model(unsubscribe_model(m, idx), idx) == unsubscribe_model(m, idx),
{
}

/// A removed subscriber is gone, no stream it aggregated still lists it, and
/// every other subscriber is as it was.
pub proof fn lemma_unsubscribe_removes(m: AggregatorModel, idx: usize)
    ensures
        !unsubscribe_model(m, idx).subscribers.contains_key(idx),
        m.subscribers.contains_key(idx) ==> forall|k: u64|
            #[trigger] unsubscribe_model(m, idx).pairs.contains_key(k) && subscribed_key(m.subscribers[idx], k)
                ==> !unsubscribe_model(m, idx).pairs[k].subscribers.contains(idx),
        forall|i: usize| i != idx && #[trigger] m.subscribers.contains_key(i) ==> unsubscribe_model(m, idx).subscribers.contains_key(i)
            && unsubscribe_model(m, idx).subscribers[i] == m.subscribers[i],
{
}

/// Subscribing and then removing that subscriber gives back the state
/// before, but for the next index, which has moved on, and for the streams
/// of the subscriber that had no other subscriber, which are closed.
pub proof fn lemma_subscribe_then_unsubscribe(
    m: AggregatorModel,
    exchanges: Seq<ExchangeIdentifier>,
    pair: CurrencyPair,
    summary_tx: UnboundedSender<Summary>,
)
    requires
        model_wf(m),
        m.next_index < usize::MAX,
    ensures
        ({
            let sub = SubscriberModel { exchanges, pair, summary_tx };
            let m2 = unsubscribe_model(subscribe_model(m, exchanges, pair, summary_tx), m.next_index);
            &&& m2.clients == m.clients
            &&& m2.subscribers == m.subscribers
            &&& m2.next_index == m.next_index + 1
            &&& forall|k: u64| #[trigger] m2.pairs.contains_key(k) == (m.pairs.contains_key(k)
                && !(subscribed_key(sub, k) && m.pairs[k].subscribers.is_empty()))
            &&& forall|k: u64| #[trigger] m2.pairs.contains_key(k) ==> m2.pairs[k] == m.pairs[k]
        }),
{
    let idx = m.next_index;
    let sub = SubscriberModel { exchanges, pair, summary_tx };
    let m1 = subscribe_model(m, exchanges, pair, summary_tx);
    let m2 = unsubscribe_model(m1, idx);
    assert(m1.subscribers[idx] == sub);
    assert(m2.subscribers =~= m.subscribers);
    assert forall|k: u64| m.pairs.contains_key(k) && subscribed_key(sub, k) implies
        #[trigger] m.pairs[k].subscribers.insert(idx).remove(idx) == m.pairs[k].subscribers by {
        assert(!m.pairs[k].subscribers.contains(idx));
        assert(m.pairs[k].subscribers.insert(idx).remove(idx) =~= m.pairs[k].subscribers);
    }
    assert forall|k: u64| #[trigger] m2.pairs.contains_key(k) implies m2.pairs[k] == m.pairs[k] by {
        if subscribed_key(sub, k) {
            assert(m.pairs[k].subscribers.insert(idx).remove(idx) == m.pairs[k].subscribers);
            assert(m2.pairs[k] =~= m.pairs[k]);
        }
    }
}

/// Levels gathered for a subscriber do not change when a stream it does not
/// aggregate gets a new book.
pub proof fn lemma_gather_unaffected(
    pairs: Map<u64, PairModel>,
    exchanges: Seq<ExchangeIdentifier>,
    pair: CurrencyPair,
    bids: bool,
    k: u64,
    p: PairModel,
)
    requires
        forall|j: int| 0 <= j < exchanges.len() ==> stream_index(#[trigger] exchanges[j], pair) != k,
    ensures
        gather_levels(pairs.insert(k, p), exchanges, pair, bids) == gather_levels(pairs, exchanges, pair, bids),
    decreases exchanges.len(),
{
    if exchanges.len() > 0 {
        assert(stream_index(exchanges[exchanges.len() - 1], pair) != k);
        lemma_gather_unaffected(pairs, exchanges.drop_last(), pair, bids, k, p);
    }
}

/// The levels of a subscriber of one stream are the last book stored for it.
pub proof fn lemma_gather_single(pairs: Map<u64, PairModel>, e: ExchangeIdentifier, pair: CurrencyPair)
    ensures
        gather_levels(pairs, seq![e], pair, true) == pairs[stream_index(e, pair)].bids,
        gather_levels(pairs, seq![e], pair, false) == pairs[stream_index(e, pair)].asks,
{
    assert(seq![e].drop_last() =~= Seq::<ExchangeIdentifier>::empty());
    assert(seq![e].last() == e);
    assert(gather_levels(pairs, Seq::<ExchangeIdentifier>::empty(), pair, true) == Seq::<Level>::empty());
    assert(gather_levels(pairs, Seq::<ExchangeIdentifier>::empty(), pair, false) == Seq::<Level>::empty());
    assert(Seq::<Level>::empty() + pairs[stream_index(e, pair)].bids =~= pairs[stream_index(e, pair)].bids);
    assert(Seq::<Level>::empty() + pairs[stream_index(e, pair)].asks =~= pairs[stream_index(e, pair)].asks);
}

/// Gathering over two lists of exchanges one after the other is gathering
/// over each and putting the results one after the other.
pub proof fn lemma_gather_concat(
    pairs: Map<u64, PairModel>,
    a: Seq<ExchangeIdentifier>,
    b: Seq<ExchangeIdentifier>,
    pair: CurrencyPair,
    bids: bool,
)
    ensures
        gather_levels(pairs, a + b, pair, bids) == gather_levels(pairs, a, pair, bids) + gather_levels(pairs, b, pair, bids),
    decreases b.len(),
{
    if b.len() == 0 {
        assert(a + b =~= a);
        assert(gather_levels(pairs, a, pair, bids) + gather_levels(pairs, b, pair, bids) =~= gather_levels(pairs, a, pair, bids));
    } else {
        assert((a + b).drop_last() =~= a + b.drop_last());
        assert((a + b).last() == b.last());
        lemma_gather_concat(pairs, a, b.drop_last(), pair, bids);
        let p = pairs[stream_index(b.last(), pair)];
        let side = if bids { p.bids } else { p.asks };
        assert(gather_levels(pairs, a + b, pair, bids) == gather_levels(pairs, a + b.drop_last(), pair, bids) + side);
        assert(gather_levels(pairs, b, pair, bids) == gather_levels(pairs, b.drop_last(), pair, bids) + side);
        assert(gather_levels(pairs, a, pair, bids) + gather_levels(pairs, b.drop_last(), pair, bids) + side
            =~= gather_levels(pairs, a, pair, bids) + (gather_levels(pairs, b.drop_last(), pair, bids) + side));
    }
}

/// The levels gathered for a subscriber hold every level of the last book
/// of each exchange it lists, whatever the order of the list: as multisets,
/// gathering over `a` then `b` is gathering over `b` then `a`, and two
/// exchanges give the union of their two books.
pub proof fn lemma_gather_order_free(
    pairs: Map<u64, PairModel>,
    a: Seq<ExchangeIdentifier>,
    b: Seq<ExchangeIdentifier>,
    pair: CurrencyPair,
    bids: bool,
)
    ensures
        gather_levels(pairs, a + b, pair, bids).to_multiset() == gather_levels(pairs, b + a, pair, bids).to_multiset(),
        gather_levels(pairs, a + b, pair, bids).to_multiset()
            == gather_levels(pairs, a, pair, bids).to_multiset().add(gather_levels(pairs, b, pair, bids).to_multiset()),
{
    lemma_gather_concat(pairs, a, b, pair, bids);
    lemma_gather_concat(pairs, b, a, pair, bids);
    let ga = gather_levels(pairs, a, pair, bids);
    let gb = gather_levels(pairs, b, pair, bids);
    vstd::seq_lib::lemma_multiset_commutative(ga, gb);
    vstd::seq_lib::lemma_multiset_commutative(gb, ga);
    broadcast use vstd::multiset::group_multiset_axioms;
    assert(ga.to_multiset().add(gb.to_multiset()) =~= gb.to_multiset().add(ga.to_multiset()));
}

/// A subscriber of two exchanges gathers the union of their two books,
/// bids and asks alike, in either order of the two.
pub proof fn lemma_gather_two(pairs: Map<u64, PairModel>, e1: ExchangeIdentifier, e2: ExchangeIdentifier, pair: CurrencyPair)
    ensures
        gather_levels(pairs, seq![e1, e2], pair, true).to_multiset()
            == pairs[stream_index(e1, pair)].bids.to_multiset().add(pairs[stream_index(e2, pair)].bids.to_multiset()),
        gather_levels(pairs, seq![e1, e2], pair, false).to_multiset()
            == pairs[stream_index(e1, pair)].asks.to_multiset().add(pairs[stream_index(e2, pair)].asks.to_multiset()),
        gather_levels(pairs, seq![e1, e2], pair, true).to_multiset()
            == gather_levels(pairs, seq![e2, e1], pair, true).to_multiset(),
        gather_levels(pairs, seq![e1, e2], pair, false).to_multiset()
            == gather_levels(pairs, seq![e2, e1], pair, false).to_multiset(),
{
    assert(seq![e1] + seq![e2] =~= seq![e1, e2]);
    assert(seq![e2] + seq![e1] =~= seq![e2, e1]);
    lemma_gather_single(pairs, e1, pair);
    lemma_gather_single(pairs, e2, pair);
    lemma_gather_order_free(pairs, seq![e1], seq![e2], pair, true);
    lemma_gather_order_free(pairs, seq![e1], seq![e2], pair, false);
}

/// Whether `v` holds `e`.
pub fn contains_exchange(v: &Vec<ExchangeIdentifier>, e: ExchangeIdentifier) -> (r: bool)
    ensures
        r == v@.contains(e),
{
    let n = v.len();
    let mut i: usize = 0;
    while i < n
        invariant
            n == v@.len(),
            i <= n,
            forall|j: int| 0 <= j < i ==> v@[j] != e,
        decreases n - i,
    {
        if v[i] == e {
            return true;
        }
        i = i + 1;
    }
    false
}

/// Appends the levels of `src` to `dst`.
fn append_levels(dst: &mut Vec<Level>, src: &Vec<Level>)
    ensures
        final(dst)@ == old(dst)@ + src@,
{
    let n = src.len();
    let mut i: usize = 0;
    while i < n
        invariant
            n == src@.len(),
            i <= n,
            dst@ == old(dst)@ + src@.take(i as int),
        decreases n - i,
    {
        dst.push(src[i]);
        i = i + 1;
        assert(dst@ =~= old(dst)@ + src@.take(i as int));
    }
    assert(src@.take(n as int) =~= src@);
}

impl AggregatorInner {
    /// A state with no client, no stream and no subscriber.
    pub fn new() -> (r: Self)
        ensures
            r@.clients == Set::<u64>::empty(),
            r@.pairs == Map::<u64, PairModel>::empty(),
            r@.subscribers == Map::<usize, SubscriberModel>::empty(),
            r@.next_index == 0,
            model_wf(r@),
    {
        let r = AggregatorInner {
            client_map: FxHashSet::default(),
            pair_map: FxHashMap::default(),
            subscriber_map: FxHashMap::default(),
            next_subscriber_index: 0,
        };
        assert(r@.pairs =~= Map::<u64, PairModel>::empty());
        assert(r@.subscribers =~= Map::<usize, SubscriberModel>::empty());
        r
    }

    /// No stream is open, so the only thing to wait for is a subscription.
    pub fn is_idle(&self) -> (r: bool)
        ensures
            r == self@.pairs.is_empty(),
    {
        let r = self.pair_map.is_empty();
        assert(self@.pairs.dom() =~= self.pair_map@.dom());
        r
    }

    /// The index the next subscriber will get.
    pub fn next_subscriber_index(&self) -> (r: usize)
        ensures
            r == self@.next_index,
    {
        self.next_subscriber_index
    }

    /// Whether a client for `exchange` is connected.
    pub fn is_connected(&self, exchange: ExchangeIdentifier) -> (r: bool)
        ensures
            r == self@.clients.contains(exchange_index(exchange)),
    {
        set_contains(&self.client_map, &exchange.index())
    }

    /// Whether the stream of `pair` on `exchange` is open.
    pub fn has_pair(&self, exchange: ExchangeIdentifier, pair: CurrencyPair) -> (r: bool)
        ensures
            r == self@.pairs.contains_key(stream_index(exchange, pair)),
    {
        map_contains(&self.pair_map, &stream_key(exchange, pair))
    }

    /// The exchanges of `idents` without a client yet, each once, in order.
    pub fn clients_to_connect(&self, idents: &Vec<ExchangeIdentifier>) -> (r: Vec<ExchangeIdentifier>)
        ensures
            r@ == clients_needed(self@, idents@),
    {
        let ghost have = |e: ExchangeIdentifier| self@.clients.contains(exchange_index(e));
        let mut r: Vec<ExchangeIdentifier> = Vec::new();
        let n = idents.len();
        let mut i: usize = 0;
        while i < n
            invariant
                n == idents@.len(),
                i <= n,
                have == (|e: ExchangeIdentifier| self@.clients.contains(exchange_index(e))),
                r@ == missing_exchanges(have, idents@.take(i as int)),
            decreases n - i,
        {
            let e = idents[i];
            assert(idents@.take(i + 1).drop_last() =~= idents@.take(i as int));
            assert(idents@.take(i + 1).last() == e);
            if !self.is_connected(e) && !contains_exchange(&r, e) {
                r.push(e);
            }
            i = i + 1;
        }
        assert(idents@.take(n as int) =~= idents@);
        r
    }

    /// The exchanges of `idents` whose stream of `pair` is not open yet,
    /// each once, in order.
    pub fn streams_to_open(&self, idents: &Vec<ExchangeIdentifier>, pair: CurrencyPair) -> (r: Vec<ExchangeIdentifier>)
        ensures
            r@ == streams_needed(self@, idents@, pair),
    {
        let ghost have = |e: ExchangeIdentifier| self@.pairs.contains_key(stream_index(e, pair));
        let mut r: Vec<ExchangeIdentifier> = Vec::new();
        let n = idents.len();
        let mut i: usize = 0;
        while i < n
            invariant
                n == idents@.len(),
                i <= n,
                have == (|e: ExchangeIdentifier| self@.pairs.contains_key(stream_index(e, pair))),
                r@ == missing_exchanges(have, idents@.take(i as int)),
            decreases n - i,
        {
            let e = idents[i];
            assert(idents@.take(i + 1).drop_last() =~= idents@.take(i as int));
            assert(idents@.take(i + 1).last() == e);
            if !self.has_pair(e, pair) && !contains_exchange(&r, e) {
                r.push(e);
            }
            i = i + 1;
        }
        assert(idents@.take(n as int) =~= idents@);
        r
    }

    /// Records that a client of `exchange` is connected.
    pub fn add_client(&mut self, exchange: ExchangeIdentifier)
        requires
            model_wf(old(self)@),
        ensures
            final(self)@ == (AggregatorModel {
                clients: old(self)@.clients.insert(exchange_index(exchange)),
                ..old(self)@
            }),
            model_wf(final(self)@),
    {
        set_insert(&mut self.client_map, exchange.index());
    }

    /// Records the newly opened stream of `pair` on `exchange`, with an empty
    /// book and no subscriber. A stream that is open already is kept as it is.
    pub fn add_pair(&mut self, exchange: ExchangeIdentifier, pair: CurrencyPair)
        requires
            model_wf(old(self)@),
            old(self)@.clients.contains(exchange_index(exchange)),
        ensures
            final(self)@ == (if old(self)@.pairs.contains_key(stream_index(exchange, pair)) {
                old(self)@
            } else {
                AggregatorModel {
                    pairs: old(self)@.pairs.insert(
                        stream_index(exchange, pair),
                        PairModel {
                            bids: Seq::empty(),
                            asks: Seq::empty(),
                            subscribers: Set::empty(),
                        },
                    ),
                    ..old(self)@
                }
            }),
            model_wf(final(self)@),
    {
        let k = stream_key(exchange, pair);
        if map_contains(&self.pair_map, &k) {
            return;
        }
        let pd = PairData {
            last_orderbook: LastOrderbook { last_bids: Vec::new(), last_asks: Vec::new() },
            subscriber_indices: FxHashSet::default(),
        };
        let ghost old_pm = self.pair_map@;
        map_insert(&mut self.pair_map, k, pd);
        proof {
            assert(pd.model().bids =~= Seq::<Level>::empty());
            assert(pd.model().asks =~= Seq::<Level>::empty());
            assert(self@.pairs =~= old(self)@.pairs.insert(k, pd.model()));
        }
    }

    /// Records a subscriber of the streams `exchange_idents` x `pair`, all
    /// open, under the next index, which it returns.
    pub fn add_subscriber(
        &mut self,
        exchange_idents: Vec<ExchangeIdentifier>,
        pair: CurrencyPair,
        summary_tx: UnboundedSender<Summary>,
    ) -> (idx: usize)
        requires
            model_wf(old(self)@),
            forall|j: int| 0 <= j < exchange_idents@.len() ==> old(self)@.pairs.contains_key(
                stream_index(#[trigger] exchange_idents@[j], pair),
            ),
            old(self)@.next_index < usize::MAX,
        ensures
            idx == old(self)@.next_index,
            final(self)@ == subscribe_model(old(self)@, exchange_idents@, pair, summary_tx),
            model_wf(final(self)@),
    {
        let idx = self.next_subscriber_index;
        let ghost m0 = self@;
        let ghost sub = SubscriberModel { exchanges: exchange_idents@, pair, summary_tx };
        let n = exchange_idents.len();
        let mut j: usize = 0;
        while j < n
            invariant
                n == exchange_idents@.len(),
                j <= n,
                idx == m0.next_index,
                sub.exchanges == exchange_idents@,
                sub.pair == pair,
                self.next_subscriber_index == idx,
                self.client_map@ == m0.clients,
                self.subscriber_map@.map_values(|s: SubscriberData| s.model()) == m0.subscribers,
                forall|i: int| 0 <= i < n ==> m0.pairs.contains_key(stream_index(#[trigger] exchange_idents@[i], pair)),
                forall|k: u64| #[trigger] self.pair_map@.contains_key(k) == m0.pairs.contains_key(k),
                forall|k: u64| #[trigger] self.pair_map@.contains_key(k) ==> self.pair_map@[k].model() == (
                    if exists|i: int| 0 <= i < j && stream_index(#[trigger] sub.exchanges[i], pair) == k {
                        PairModel { subscribers: m0.pairs[k].subscribers.insert(idx), ..m0.pairs[k] }
                    } else {
                        m0.pairs[k]
                    }),
            decreases n - j,
        {
            let e = exchange_idents[j];
            let k = stream_key(e, pair);
            assert(m0.pairs.contains_key(stream_index(exchange_idents@[j as int], pair)));
            let ghost before = self.pair_map@;
            let mut pd = match map_remove(&mut self.pair_map, &k) {
                Some(pd) => pd,
                None => {
                    assert(false);
                    return 0;
                },
            };
            set_insert(&mut pd.subscriber_indices, idx);
            map_insert(&mut self.pair_map, k, pd);
            proof {
                assert forall|k2: u64| #[trigger] self.pair_map@.contains_key(k2) implies self.pair_map@[k2].model() == (
                    if exists|i: int| 0 <= i < j + 1 && stream_index(#[trigger] sub.exchanges[i], pair) == k2 {
                        PairModel { subscribers: m0.pairs[k2].subscribers.insert(idx), ..m0.pairs[k2] }
                    } else {
                        m0.pairs[k2]
                    }) by {
                    if k2 == k {
                        assert(stream_index(sub.exchanges[j as int], pair) == k2);
                        assert(self.pair_map@[k2].model().subscribers =~= m0.pairs[k2].subscribers.insert(idx));
                    } else {
                        assert(before.contains_key(k2));
                        if exists|i: int| 0 <= i < j + 1 && stream_index(#[trigger] sub.exchanges[i], pair) == k2 {
                            let i = choose|i: int| 0 <= i < j + 1 && stream_index(#[trigger] sub.exchanges[i], pair) == k2;
                            assert(i < j);
                        }
                    }
                }
            }
            j = j + 1;
        }
        let sd = SubscriberData { exchange_idents, currency_pair: pair, summary_tx };
        assert(sd.model() == sub);
        map_insert(&mut self.subscriber_map, idx, sd);
        self.next_subscriber_index = idx + 1;
        proof {
            let m1 = subscribe_model(m0, sub.exchanges, pair, summary_tx);
            assert(self@.subscribers =~= m1.subscribers);
            assert forall|k: u64| #[trigger] self@.pairs.contains_key(k) implies self@.pairs[k] == m1.pairs[k] by {
                assert(self.pair_map@.contains_key(k));
            }
            assert(self@.pairs =~= m1.pairs);
            assert(self@ =~= m1);
            lemma_subscribe_keeps_wf(m0, sub.exchanges, pair, summary_tx);
        }
        idx
    }

    /// Stores a new book for the stream of `pair` on `exchange` and returns
    /// the subscribers to notify, each once; `None`, with nothing changed,
    /// when that stream is not open.
    pub fn update_orderbook(
        &mut self,
        exchange: ExchangeIdentifier,
        pair: CurrencyPair,
        bids: Vec<Level>,
        asks: Vec<Level>,
    ) -> (r: Option<Vec<usize>>)
        requires
            model_wf(old(self)@),
        ensures
            model_wf(final(self)@),
            match r {
                None => !old(self)@.pairs.contains_key(stream_index(exchange, pair)) && final(self)@ == old(self)@,
                Some(v) => {
                    let k = stream_index(exchange, pair);
                    &&& old(self)@.pairs.contains_key(k)
                    &&& v@.to_set() == old(self)@.pairs[k].subscribers
                    &&& v@.no_duplicates()
                    &&& final(self)@ == update_model(old(self)@, k, bids@, asks@)
                },
            },
    {
        let k = stream_key(exchange, pair);
        let ghost m0 = self@;
        let mut pd = match map_remove(&mut self.pair_map, &k) {
            Some(pd) => pd,
            None => {
                assert(self@.pairs =~= m0.pairs);
                assert(self@ =~= m0);
                return None;
            },
        };
        let subscribers = set_elements(&pd.subscriber_indices);
        pd.last_orderbook = LastOrderbook { last_bids: bids, last_asks: asks };
        map_insert(&mut self.pair_map, k, pd);
        proof {
            let m1 = update_model(m0, k, bids@, asks@);
            assert(self@.pairs =~= m1.pairs);
            assert(self@ =~= m1);
            lemma_update_keeps_wf(m0, k, bids@, asks@);
        }
        Some(subscribers)
    }

    /// Finishes a subscription to `exchange_idents` x `pair`, whose streams
    /// are all open: records the subscriber, whose summaries go to
    /// `summary_tx`, and returns its index with the first summary it is owed
    /// (to be sent at once, in case no update comes for a while).
    pub fn finish_subscribe(
        &mut self,
        exchange_idents: Vec<ExchangeIdentifier>,
        pair: CurrencyPair,
        summary_tx: UnboundedSender<Summary>,
    ) -> (r: (usize, Summary))
        requires
            model_wf(old(self)@),
            forall|j: int| 0 <= j < exchange_idents@.len() ==> old(self)@.pairs.contains_key(
                stream_index(#[trigger] exchange_idents@[j], pair),
            ),
            old(self)@.next_index < usize::MAX,
        ensures
            r.0 == old(self)@.next_index,
            final(self)@ == subscribe_model(old(self)@, exchange_idents@, pair, summary_tx),
            model_wf(final(self)@),
            final(self)@.subscribers.contains_key(r.0),
            summary_owed(final(self)@, r.0, r.1),
    {
        let idx = self.add_subscriber(exchange_idents, pair, summary_tx);
        let summary = match self.subscriber_summary(idx) {
            Some(s) => s,
            None => {
                assert(false);
                Summary { bids: Vec::new(), asks: Vec::new() }
            },
        };
        (idx, summary)
    }

    /// Handles one message of an exchange stream. An error is handed back
    /// untouched (to be reported) and nothing changes. A book for an open
    /// stream is stored, and every subscriber of the stream is owed its new
    /// summary: the list returned holds each of them once, with that
    /// summary. A book for a stream that is not open changes nothing and is
    /// owed to nobody.
    pub fn handle_update(
        &mut self,
        exchange: ExchangeIdentifier,
        pair: CurrencyPair,
        res: Result<Summary, ExchangeClientError>,
    ) -> (r: Result<Vec<(usize, Summary)>, ExchangeClientError>)
        requires
            model_wf(old(self)@),
        ensures
            model_wf(final(self)@),
            match res {
                Err(e) => r == Err::<Vec<(usize, Summary)>, ExchangeClientError>(e) && final(self)@ == old(self)@,
                Ok(s) => match r {
                    Err(_) => false,
                    Ok(owed) => {
                        let k = stream_index(exchange, pair);
                        if old(self)@.pairs.contains_key(k) {
                            &&& final(self)@ == update_model(old(self)@, k, s.bids@, s.asks@)
                            &&& forall|i: int, j: int| 0 <= i < j < owed@.len() ==> #[trigger] owed@[i].0 != #[trigger] owed@[j].0
                            &&& forall|i: int| 0 <= i < owed@.len() ==> {
                                &&& old(self)@.pairs[k].subscribers.contains(#[trigger] owed@[i].0)
                                &&& final(self)@.subscribers.contains_key(owed@[i].0)
                                &&& summary_owed(final(self)@, owed@[i].0, owed@[i].1)
                            }
                            &&& forall|x: usize| #[trigger] old(self)@.pairs[k].subscribers.contains(x)
                                ==> exists|i: int| 0 <= i < owed@.len() && #[trigger] owed@[i].0 == x
                        } else {
                            owed@.len() == 0 && final(self)@ == old(self)@
                        }
                    },
                },
            },
    {
        let summary = match res {
            Ok(s) => s,
            Err(e) => {
                return Err(e);
            },
        };
        let ghost m0 = self@;
        let ghost k = stream_index(exchange, pair);
        let subscribers = match self.update_orderbook(exchange, pair, summary.bids, summary.asks) {
            Some(v) => v,
            None => {
                return Ok(Vec::new());
            },
        };
        let ghost m1 = self@;
        assert(m1.pairs[k].subscribers == m0.pairs[k].subscribers);
        let mut owed: Vec<(usize, Summary)> = Vec::new();
        let n = subscribers.len();
        let mut j: usize = 0;
        while j < n
            invariant
                self@ == m1,
                model_wf(m1),
                m1.pairs.contains_key(k),
                n == subscribers@.len(),
                j <= n,
                subscribers@.to_set() == m1.pairs[k].subscribers,
                owed@.len() == j,
                forall|i: int| 0 <= i < j ==> {
                    &&& #[trigger] owed@[i].0 == subscribers@[i]
                    &&& m1.subscribers.contains_key(owed@[i].0)
                    &&& summary_owed(m1, owed@[i].0, owed@[i].1)
                },
            decreases n - j,
        {
            let idx = subscribers[j];
            assert(subscribers@.to_set().contains(subscribers@[j as int]));
            assert(m1.pairs[k].subscribers.contains(idx));
            let s = match self.subscriber_summary(idx) {
                Some(s) => s,
                None => {
                    assert(false);
                    Summary { bids: Vec::new(), asks: Vec::new() }
                },
            };
            owed.push((idx, s));
            j = j + 1;
        }
        proof {
            assert forall|i: int| 0 <= i < owed@.len() implies m0.pairs[k].subscribers.contains(#[trigger] owed@[i].0) by {
                assert(subscribers@.to_set().contains(subscribers@[i]));
            }
            assert forall|x: usize| #[trigger] m0.pairs[k].subscribers.contains(x)
                implies exists|i: int| 0 <= i < owed@.len() && #[trigger] owed@[i].0 == x by {
                assert(subscribers@.to_set().contains(x));
                let i = choose|i: int| 0 <= i < subscribers@.len() && subscribers@[i] == x;
                assert(owed@[i].0 == x);
            }
        }
        Ok(owed)
    }

    /// Removes the subscribers `gone`, in order, as `unsubscribe` does each.
    pub fn remove_gone(&mut self, gone: &Vec<usize>)
        requires
            model_wf(old(self)@),
        ensures
            final(self)@ == unsubscribe_all(old(self)@, gone@),
            model_wf(final(self)@),
    {
        let ghost m0 = self@;
        let mut i: usize = 0;
        let ng = gone.len();
        while i < ng
            invariant
                ng == gone@.len(),
                i <= ng,
                model_wf(self@),
                self@ == unsubscribe_all(m0, gone@.take(i as int)),
            decreases ng - i,
        {
            assert(gone@.take(i + 1).drop_last() =~= gone@.take(i as int));
            self.unsubscribe(gone[i]);
            i = i + 1;
        }
        assert(gone@.take(ng as int) =~= gone@);
    }

    /// Removes the subscriber `idx`: it leaves every stream it aggregated,
    /// and each stream it was the last subscriber of is closed. Nothing
    /// changes when there is no such subscriber.
    pub fn unsubscribe(&mut self, idx: usize)
        requires
            model_wf(old(self)@),
        ensures
            final(self)@ == unsubscribe_model(old(self)@, idx),
            model_wf(final(self)@),
    {
        let ghost m0 = self@;
        let sd = match map_remove(&mut self.subscriber_map, &idx) {
            Some(sd) => sd,
            None => {
                assert(self.subscriber_map@.map_values(|s: SubscriberData| s.model()) =~= m0.subscribers);
                assert(self@ =~= m0);
                return;
            },
        };
        let ghost sub = sd.model();
        assert(m0.subscribers[idx] == sub);
        let mut to_delete: Vec<u64> = Vec::new();
        let n = sd.exchange_idents.len();
        let mut j: usize = 0;
        while j < n
            invariant
                sub == sd.model(),
                m0.subscribers.contains_key(idx),
                m0.subscribers[idx] == sub,
                n == sub.exchanges.len(),
                j <= n,
                self.client_map@ == m0.clients,
                self.next_subscriber_index == m0.next_index,
                self.subscriber_map@.map_values(|s: SubscriberData| s.model()) == m0.subscribers.remove(idx),
                forall|k: u64| #[trigger] self.pair_map@.contains_key(k) == m0.pairs.contains_key(k),
                forall|k: u64| #[trigger] self.pair_map@.contains_key(k) ==> self.pair_map@[k].model() == (
                    if exists|i: int| 0 <= i < j && stream_index(#[trigger] sub.exchanges[i], sub.pair) == k {
                        PairModel { subscribers: m0.pairs[k].subscribers.remove(idx), ..m0.pairs[k] }
                    } else {
                        m0.pairs[k]
                    }),
                forall|t: u64| #[trigger] to_delete@.contains(t) <==> (
                    (exists|i: int| 0 <= i < j && stream_index(#[trigger] sub.exchanges[i], sub.pair) == t)
                    && m0.pairs.contains_key(t)
                    && m0.pairs[t].subscribers.remove(idx).is_empty()),
            decreases n - j,
        {
            let e = sd.exchange_idents[j];
            let k = stream_key(e, sd.currency_pair);
            assert(sub.exchanges[j as int] == e);
            let ghost before = self.pair_map@;
            let ghost before_del = to_delete@;
            match map_remove(&mut self.pair_map, &k) {
                None => {
                    assert(to_delete@ == before_del);
                },
                Some(pd) => {
                    let mut pd = pd;
                    set_remove(&mut pd.subscriber_indices, &idx);
                    if pd.subscriber_indices.is_empty() {
                        to_delete.push(k);
                        proof {
                            lemma_push_contains(before_del, k);
                        }
                    }
                    map_insert(&mut self.pair_map, k, pd);
                },
            }
            proof {
                assert(stream_index(sub.exchanges[j as int], sub.pair) == k);
                if m0.pairs.contains_key(k) {
                    assert(before.contains_key(k));
                    if exists|i: int| 0 <= i < j && stream_index(#[trigger] sub.exchanges[i], sub.pair) == k {
                        assert(before[k].model().subscribers.remove(idx) =~= m0.pairs[k].subscribers.remove(idx));
                    } else {
                        assert(before[k].model().subscribers == m0.pairs[k].subscribers);
                    }
                }
                assert forall|k2: u64| #[trigger] self.pair_map@.contains_key(k2) == m0.pairs.contains_key(k2) by {
                    if k2 != k {
                        assert(before.contains_key(k2) == self.pair_map@.contains_key(k2));
                    }
                }
                assert forall|k2: u64| #[trigger] self.pair_map@.contains_key(k2) implies self.pair_map@[k2].model() == (
                    if exists|i: int| 0 <= i < j + 1 && stream_index(#[trigger] sub.exchanges[i], sub.pair) == k2 {
                        PairModel { subscribers: m0.pairs[k2].subscribers.remove(idx), ..m0.pairs[k2] }
                    } else {
                        m0.pairs[k2]
                    }) by {
                    if k2 == k {
                        assert(self.pair_map@[k2].model().subscribers =~= m0.pairs[k2].subscribers.remove(idx));
                    } else {
                        assert(before.contains_key(k2));
                        if exists|i: int| 0 <= i < j + 1 && stream_index(#[trigger] sub.exchanges[i], sub.pair) == k2 {
                            let i = choose|i: int| 0 <= i < j + 1 && stream_index(#[trigger] sub.exchanges[i], sub.pair) == k2;
                            assert(i < j);
                        }
                    }
                }
                assert forall|t: u64| #[trigger] to_delete@.contains(t) <==> (
                    (exists|i: int| 0 <= i < j + 1 && stream_index(#[trigger] sub.exchanges[i], sub.pair) == t)
                    && m0.pairs.contains_key(t)
                    && m0.pairs[t].subscribers.remove(idx).is_empty()) by {
                    if t != k {
                        if exists|i: int| 0 <= i < j + 1 && stream_index(#[trigger] sub.exchanges[i], sub.pair) == t {
                            let i = choose|i: int| 0 <= i < j + 1 && stream_index(#[trigger] sub.exchanges[i], sub.pair) == t;
                            assert(i < j);
                        }
                        assert(to_delete@.contains(t) == before_del.contains(t));
                    } else {
                        if before_del.contains(t) {
                            assert(to_delete@.contains(t));
                        }
                    }
                }
            }
            j = j + 1;
        }
        let ghost mid = self.pair_map@;
        let nd = to_delete.len();
        let mut i: usize = 0;
        while i < nd
            invariant
                nd == to_delete@.len(),
                i <= nd,
                self.client_map@ == m0.clients,
                self.next_subscriber_index == m0.next_index,
                self.subscriber_map@.map_values(|s: SubscriberData| s.model()) == m0.subscribers.remove(idx),
                forall|k: u64| #[trigger] self.pair_map@.contains_key(k) == (mid.contains_key(k) && !to_delete@.take(i as int).contains(k)),
                forall|k: u64| #[trigger] self.pair_map@.contains_key(k) ==> self.pair_map@[k] == mid[k],
            decreases nd - i,
        {
            let t = to_delete[i];
            map_remove(&mut self.pair_map, &t);
            proof {
                assert(to_delete@.take(i + 1) =~= to_delete@.take(i as int).push(t));
                lemma_push_contains(to_delete@.take(i as int), t);
            }
            i = i + 1;
        }
        assert(to_delete@.take(nd as int) =~= to_delete@);
        proof {
            let m1 = unsubscribe_model(m0, idx);
            assert forall|k: u64| #[trigger] self@.pairs.contains_key(k) == m1.pairs.contains_key(k) by {
                if exists|i: int| 0 <= i < n && stream_index(#[trigger] sub.exchanges[i], sub.pair) == k {
                    assert(subscribed_key(sub, k));
                }
                if subscribed_key(sub, k) {
                    let i = choose|i: int| 0 <= i < sub.exchanges.len() && stream_index(#[trigger] sub.exchanges[i], sub.pair) == k;
                    assert(0 <= i < n && stream_index(sub.exchanges[i], sub.pair) == k);
                }
            }
            assert forall|k: u64| #[trigger] self@.pairs.contains_key(k) implies self@.pairs[k] == m1.pairs[k] by {
                assert(self.pair_map@[k] == mid[k]);
                if subscribed_key(sub, k) {
                    let i = choose|i: int| 0 <= i < sub.exchanges.len() && stream_index(#[trigger] sub.exchanges[i], sub.pair) == k;
                    assert(0 <= i < n && stream_index(sub.exchanges[i], sub.pair) == k);
                } else {
                    if exists|i: int| 0 <= i < n && stream_index(#[trigger] sub.exchanges[i], sub.pair) == k {
                        assert(subscribed_key(sub, k));
                    }
                }
            }
            assert(self@.pairs =~= m1.pairs);
            assert(self@.subscribers =~= m1.subscribers);
            assert(self@ =~= m1);
            lemma_unsubscribe_keeps_wf(m0, idx);
        }
    }

    /// The subscriber `idx`, if there is one, and where its summaries go.
    pub fn subscriber_sender(&self, idx: usize) -> (r: Option<&UnboundedSender<Summary>>)
        ensures
            match r {
                Some(t) => self@.subscribers.contains_key(idx) && *t == self@.subscribers[idx].summary_tx,
                None => !self@.subscribers.contains_key(idx),
            },
    {
        match map_get(&self.subscriber_map, &idx) {
            Some(sub) => Some(&sub.summary_tx),
            None => None,
        }
    }

    /// The summary owed to the subscriber `idx`: the books of all its streams
    /// merged, cut to the ten best levels a side.
    pub fn subscriber_summary(&self, idx: usize) -> (r: Option<Summary>)
        requires
            model_wf(self@),
        ensures
            match r {
                None => !self@.subscribers.contains_key(idx),
                Some(s) => self@.subscribers.contains_key(idx) && summary_owed(self@, idx, s),
            },
    {
        let sub = match map_get(&self.subscriber_map, &idx) {
            Some(sub) => sub,
            None => {
                return None;
            },
        };
        let ghost m = self@;
        let ghost sm = sub.model();
        assert(m.subscribers[idx] == sm);
        let mut all_bids: Vec<Level> = Vec::new();
        let mut all_asks: Vec<Level> = Vec::new();
        let n = sub.exchange_idents.len();
        let mut j: usize = 0;
        while j < n
            invariant
                m == self@,
                model_wf(m),
                m.subscribers.contains_key(idx),
                m.subscribers[idx] == sm,
                sm == sub.model(),
                n == sm.exchanges.len(),
                j <= n,
                all_bids@ == gather_levels(m.pairs, sm.exchanges.take(j as int), sm.pair, true),
                all_asks@ == gather_levels(m.pairs, sm.exchanges.take(j as int), sm.pair, false),
            decreases n - j,
        {
            let e = sub.exchange_idents[j];
            let k = stream_key(e, sub.currency_pair);
            assert(sm.exchanges[j as int] == e);
            assert(m.pairs.contains_key(k));
            let pd = match map_get(&self.pair_map, &k) {
                Some(pd) => pd,
                None => {
                    assert(false);
                    return None;
                },
            };
            assert(sm.exchanges.take(j + 1).drop_last() =~= sm.exchanges.take(j as int));
            assert(sm.exchanges.take(j + 1).last() == e);
            append_levels(&mut all_bids, &pd.last_orderbook.last_bids);
            append_levels(&mut all_asks, &pd.last_orderbook.last_asks);
            j = j + 1;
        }
        assert(sm.exchanges.take(n as int) =~= sm.exchanges);
        Some(make_summary(&all_bids, &all_asks))
    }
}

} // verus!
