//! The state of the text client that is not drawing: the bounded log of
//! messages, the tabs of open order books with the selected one, the titles
//! of the tabs, and the stop flag.

use vstd::prelude::*;
use std::collections::VecDeque;
use std::sync::atomic::{AtomicBool, Ordering};
use crate::common::{CurrencyPair, ExchangeIdentifier, pair_name, exchange_name};
use crate::decimal::{usize_to_string, decimal_text};

verus! {

/// Most messages the log keeps.
pub const MAX_LOG_MESSAGES: usize = 10;

/// Whether the client has been asked to stop. The flag is shared with the
/// other tasks of the client, which may set it at any time, so nothing is
/// stated of the value read.
pub fn get_should_stop(flag: &AtomicBool) -> bool {
    flag.load(Ordering::Relaxed)
}

/// Asks the client to stop.
pub fn set_should_stop(flag: &AtomicBool) {
    flag.store(true, Ordering::Relaxed);
}

/// The last messages shown to the user, each with its running number.
pub struct LogMessages {
    log_messages: VecDeque<(usize, String)>,
    next_log_message_index: usize,
}

/// The log as a mathematical value.
pub struct LogModel {
    pub messages: Seq<(usize, String)>,
    pub next_index: usize,
}

impl View for LogMessages {
    type V = LogModel;

    closed spec fn view(&self) -> LogModel {
        LogModel { messages: self.log_messages@, next_index: self.next_log_message_index }
    }
}

/// The log's invariant: at most `MAX_LOG_MESSAGES` messages, numbered
/// consecutively up to just below the next number.
pub open spec fn log_wf(m: LogModel) -> bool {
    &&& m.messages.len() <= MAX_LOG_MESSAGES
    &&& m.messages.len() <= m.next_index
    &&& forall|i: int| 0 <= i < m.messages.len() ==> #[trigger] m.messages[i].0 == m.next_index - m.messages.len() + i
}

/// The log after one more message.
pub open spec fn log_add(m: LogModel, msg: String) -> LogModel {
    let kept = if m.messages.len() == MAX_LOG_MESSAGES { m.messages.drop_first() } else { m.messages };
    LogModel { messages: kept.push((m.next_index, msg)), next_index: (m.next_index + 1) as usize }
}

impl LogMessages {
    /// An empty log, numbering from 0.
    pub fn new() -> (r: LogMessages)
        ensures
            r@.messages == Seq::<(usize, String)>::empty(),
            r@.next_index == 0,
            log_wf(r@),
    {
        LogMessages { log_messages: VecDeque::with_capacity(MAX_LOG_MESSAGES), next_log_message_index: 0 }
    }

    /// Appends a message; when the log is full the oldest message goes.
    pub fn add_log_message(&mut self, msg: String)
        requires
            log_wf(old(self)@),
            old(self)@.next_index < usize::MAX,
        ensures
            final(self)@ == log_add(old(self)@, msg),
            log_wf(final(self)@),
    {
        if self.log_messages.len() == MAX_LOG_MESSAGES {
            self.log_messages.pop_front();
        }
        self.log_messages.push_back((self.next_log_message_index, msg));
        self.next_log_message_index = self.next_log_message_index + 1;
        assert(self.log_messages@ =~= log_add(old(self)@, msg).messages);
    }

    /// The messages, oldest first.
    pub fn messages(&self) -> (r: &VecDeque<(usize, String)>)
        ensures
            r@ == self@.messages,
    {
        &self.log_messages
    }

    /// The number the next message will get.
    pub fn next_index(&self) -> (r: usize)
        ensures
            r == self@.next_index,
    {
        self.next_log_message_index
    }
}

/// A log that received the messages `msgs` holds the last of them, at most
/// `MAX_LOG_MESSAGES`, in order.
pub open spec fn log_after(msgs: Seq<String>) -> LogModel
    decreases msgs.len(),
{
    if msgs.len() == 0 {
        LogModel { messages: Seq::empty(), next_index: 0 }
    } else {
        log_add(log_after(msgs.drop_last()), msgs.last())
    }
}

/// After `n` messages the log holds the last `min(n, MAX_LOG_MESSAGES)` of
/// them, each numbered by its position among all messages.
pub proof fn lemma_log_keeps_last(msgs: Seq<String>)
    requires
        msgs.len() < usize::MAX,
    ensures
        log_wf(log_after(msgs)),
        log_after(msgs).next_index == msgs.len(),
        log_after(msgs).messages.len() == if msgs.len() < MAX_LOG_MESSAGES { msgs.len() } else { MAX_LOG_MESSAGES as nat },
        forall|i: int| 0 <= i < log_after(msgs).messages.len() ==> #[trigger] log_after(msgs).messages[i] == (
            (msgs.len() - log_after(msgs).messages.len() + i) as usize,
            msgs[msgs.len() - log_after(msgs).messages.len() + i],
        ),
    decreases msgs.len(),
{
    if msgs.len() > 0 {
        let prev = msgs.drop_last();
        lemma_log_keeps_last(prev);
        let m = log_after(prev);
        let r = log_after(msgs);
        assert forall|i: int| 0 <= i < r.messages.len() implies #[trigger] r.messages[i] == (
            (msgs.len() - r.messages.len() + i) as usize,
            msgs[msgs.len() - r.messages.len() + i],
        ) by {
            if i < r.messages.len() - 1 {
                if m.messages.len() == MAX_LOG_MESSAGES {
                    assert(r.messages[i] == m.messages[i + 1]);
                } else {
                    assert(r.messages[i] == m.messages[i]);
                }
            }
        }
        assert forall|i: int| 0 <= i < r.messages.len() implies #[trigger] r.messages[i].0 == r.next_index - r.messages.len() + i by {
            assert(r.messages[i] == ((msgs.len() - r.messages.len() + i) as usize, msgs[msgs.len() - r.messages.len() + i]));
        }
    }
}

/// The open order books of the client, one tab each, and the tab shown.
pub struct Tabs<T> {
    pub orderbooks: Vec<T>,
    pub selected_tab_index: Option<usize>,
}

/// No tab is selected exactly when there is none, and a selected tab exists.
pub open spec fn tabs_wf<T>(orderbooks: Seq<T>, selected: Option<usize>) -> bool {
    match selected {
        None => orderbooks.len() == 0,
        Some(i) => i < orderbooks.len(),
    }
}

pub const ERR_NO_TABS_TO_SHOW: &'static str = "You need to run the \"open\" command first!";
pub const ERR_NO_TABS_TO_CLOSE: &'static str = "There are no tabs to close!";
pub const ERR_NOT_CONNECTED: &'static str = "ERROR: Not connected to server";
pub const MSG_OPENED: &'static str = "Opened new channel!";

/// The message for an index past the last tab.
pub open spec fn invalid_index_text(len: nat) -> Seq<char> {
    "Invalid index (max: "@ + decimal_text((len - 1) as nat) + ")"@
}

fn invalid_index_message(len: usize) -> (s: String)
    requires
        len > 0,
    ensures
        s@ == invalid_index_text(len as nat),
{
    let mut s = String::from_str("Invalid index (max: ");
    let n = usize_to_string(len - 1);
    s.append(n.as_str());
    s.append(")");
    s
}

impl<T> Tabs<T> {
    /// No tab.
    pub fn new() -> (r: Tabs<T>)
        ensures
            r.orderbooks@ == Seq::<T>::empty(),
            r.selected_tab_index == None::<usize>,
    {
        Tabs { orderbooks: Vec::new(), selected_tab_index: None }
    }

    /// After connecting to `server_addr`: every tab closes. Returns the
    /// message to log.
    pub fn connected(&mut self, server_addr: &str) -> (msg: String)
        ensures
            final(self).orderbooks@ == Seq::<T>::empty(),
            final(self).selected_tab_index == None::<usize>,
            tabs_wf(final(self).orderbooks@, final(self).selected_tab_index),
            msg@ == "Connected to "@ + server_addr@ + "!"@,
    {
        self.orderbooks.clear();
        self.selected_tab_index = None;
        let mut s = String::from_str("Connected to ");
        s.append(server_addr);
        s.append("!");
        s
    }

    /// A new tab for `orderbook`, selected. Returns the message to log.
    pub fn open(&mut self, orderbook: T) -> (msg: String)
        ensures
            final(self).orderbooks@ == old(self).orderbooks@.push(orderbook),
            final(self).selected_tab_index == Some(old(self).orderbooks@.len() as usize),
            tabs_wf(final(self).orderbooks@, final(self).selected_tab_index),
            msg@ == MSG_OPENED@,
    {
        let new_tab_index = self.orderbooks.len();
        self.selected_tab_index = Some(new_tab_index);
        self.orderbooks.push(orderbook);
        String::from_str(MSG_OPENED)
    }

    /// Shows the tab `index`, or says why it cannot. Returns the message to log.
    pub fn show(&mut self, index: usize) -> (r: Result<String, String>)
        ensures
            final(self).orderbooks@ == old(self).orderbooks@,
            tabs_wf(old(self).orderbooks@, old(self).selected_tab_index) ==> tabs_wf(
                final(self).orderbooks@,
                final(self).selected_tab_index,
            ),
            match r {
                Ok(msg) => {
                    &&& index < old(self).orderbooks@.len()
                    &&& final(self).selected_tab_index == Some(index)
                    &&& msg@ == "Showing tab "@ + decimal_text(index as nat) + "!"@
                },
                Err(e) => {
                    &&& final(self).selected_tab_index == old(self).selected_tab_index
                    &&& if old(self).orderbooks@.len() == 0 {
                        e@ == ERR_NO_TABS_TO_SHOW@
                    } else {
                        index >= old(self).orderbooks@.len() && e@ == invalid_index_text(old(self).orderbooks@.len())
                    }
                },
            },
    {
        let len = self.orderbooks.len();
        if len == 0 {
            Err(String::from_str(ERR_NO_TABS_TO_SHOW))
        } else if index >= len {
            Err(invalid_index_message(len))
        } else {
            self.selected_tab_index = Some(index);
            let mut s = String::from_str("Showing tab ");
            let n = usize_to_string(index);
            s.append(n.as_str());
            s.append("!");
            Ok(s)
        }
    }

    /// Closes the tab `index`, or says why it cannot; afterwards the first
    /// tab is selected, if any is left. Returns the message to log.
    pub fn close(&mut self, index: usize) -> (r: Result<String, String>)
        ensures
            tabs_wf(old(self).orderbooks@, old(self).selected_tab_index) ==> tabs_wf(
                final(self).orderbooks@,
                final(self).selected_tab_index,
            ),
            match r {
                Ok(msg) => {
                    &&& index < old(self).orderbooks@.len()
                    &&& final(self).orderbooks@ == old(self).orderbooks@.remove(index as int)
                    &&& final(self).selected_tab_index == if final(self).orderbooks@.len() == 0 { None } else { Some(0usize) }
                    &&& msg@ == "Tab "@ + decimal_text(index as nat) + " closed!"@
                },
                Err(e) => {
                    &&& final(self).orderbooks@ == old(self).orderbooks@
                    &&& final(self).selected_tab_index == old(self).selected_tab_index
                    &&& if old(self).orderbooks@.len() == 0 {
                        e@ == ERR_NO_TABS_TO_CLOSE@
                    } else {
                        index >= old(self).orderbooks@.len() && e@ == invalid_index_text(old(self).orderbooks@.len())
                    }
                },
            },
    {
        let len = self.orderbooks.len();
        if len == 0 {
            Err(String::from_str(ERR_NO_TABS_TO_CLOSE))
        } else if index >= len {
            Err(invalid_index_message(len))
        } else {
            self.orderbooks.remove(index);
            if self.orderbooks.len() == 0 {
                self.selected_tab_index = None;
            } else {
                self.selected_tab_index = Some(0);
            }
            let mut s = String::from_str("Tab ");
            let n = usize_to_string(index);
            s.append(n.as_str());
            s.append(" closed!");
            Ok(s)
        }
    }

    /// Drops the tab `index` whose stream ended; the selection is left as it is.
    pub fn remove_dropped(&mut self, index: usize) -> (t: T)
        requires
            index < old(self).orderbooks@.len(),
        ensures
            t == old(self).orderbooks@[index as int],
            final(self).orderbooks@ == old(self).orderbooks@.remove(index as int),
            final(self).selected_tab_index == old(self).selected_tab_index,
    {
        self.orderbooks.remove(index)
    }
}

/// The prefix of an error shown in the log.
pub open spec fn error_log_text(err: Seq<char>) -> Seq<char> {
    "ERROR: "@ + err
}

pub fn error_log_message(err: &str) -> (s: String)
    ensures
        s@ == error_log_text(err@),
{
    let mut s = String::from_str("ERROR: ");
    s.append(err);
    s
}

/// `"+name"` for each exchange, in order.
pub open spec fn more_exchanges_text(es: Seq<ExchangeIdentifier>) -> Seq<char>
    decreases es.len(),
{
    if es.len() == 0 {
        Seq::empty()
    } else {
        more_exchanges_text(es.drop_last()) + "+"@ + exchange_name(es.last())
    }
}

/// The title of a tab: the pair, " on ", and the exchanges joined by "+".
pub open spec fn title_text(pair: CurrencyPair, es: Seq<ExchangeIdentifier>) -> Seq<char> {
    pair_name(pair) + " on "@ + exchange_name(es[0]) + more_exchanges_text(es.skip(1))
}

/// The title of the tab of `pair` over `exchange_idents`, which must name at
/// least one exchange.
pub fn orderbook_title(pair: CurrencyPair, exchange_idents: &Vec<ExchangeIdentifier>) -> (s: String)
    requires
        exchange_idents@.len() > 0,
    ensures
        s@ == title_text(pair, exchange_idents@),
{
    let mut s = pair.to_string();
    s.append(" on ");
    s.append(exchange_idents[0].as_str());
    let ghost head = s@;
    let n = exchange_idents.len();
    let mut i: usize = 1;
    while i < n
        invariant
            n == exchange_idents@.len(),
            1 <= i <= n,
            head == pair_name(pair) + " on "@ + exchange_name(exchange_idents@[0]),
            s@ == head + more_exchanges_text(exchange_idents@.subrange(1, i as int)),
        decreases n - i,
    {
        let ghost before = s@;
        s.append("+");
        s.append(exchange_idents[i].as_str());
        proof {
            let t = exchange_idents@.subrange(1, i + 1);
            assert(t.drop_last() =~= exchange_idents@.subrange(1, i as int));
            assert(t.last() == exchange_idents@[i as int]);
            assert(s@ =~= head + more_exchanges_text(t));
        }
        i = i + 1;
    }
    assert(exchange_idents@.subrange(1, n as int) =~= exchange_idents@.skip(1));
    s
}

} // verus!
