//! Commands typed into the text client, and their parser.

use vstd::prelude::*;
use crate::common::{CurrencyPair, ExchangeIdentifier, parse_pair, parse_exchange};
use crate::decimal::{parse_usize, parse_usize_spec};
use crate::text::{str_eq, split_ascii_whitespace, split_ascii_ws, is_blank, lemma_no_tokens_means_blank, lemma_split_two_words};

verus! {

pub const ERR_EMPTY: &'static str = "Enter a command";
pub const ERR_CURRENCY_PAIR: &'static str = "Invalid currency pair";
pub const ERR_USAGE_CONNECT: &'static str = "Usage: connect <server_addr>";
pub const ERR_USAGE_OPEN: &'static str = "Usage: open <currency_pair> <exchange>+";
pub const ERR_USAGE_SHOW: &'static str = "Usage: show <tab_index>";
pub const ERR_USAGE_CLOSE: &'static str = "Usage: close <tab_index>";
pub const ERR_INVALID_COMMAND: &'static str = "Invalid command";
/// The text of an unknown exchange name, behind the prefix the client adds.
pub const ERR_EXCHANGE_IDENT: &'static str = "Invalid exchange ident: Matching variant not found";

/// A command of the text client.
pub enum Command {
    Connect(String),
    Open(CurrencyPair, Vec<ExchangeIdentifier>),
    ShowTab(usize),
    CloseTab(usize),
    Help,
    Quit,
}

/// A command as a mathematical value.
pub enum CommandModel {
    Connect(Seq<char>),
    Open(CurrencyPair, Seq<ExchangeIdentifier>),
    ShowTab(usize),
    CloseTab(usize),
    Help,
    Quit,
}

impl View for Command {
    type V = CommandModel;

    open spec fn view(&self) -> CommandModel {
        match self {
            Command::Connect(a) => CommandModel::Connect(a@),
            Command::Open(p, es) => CommandModel::Open(*p, es@),
            Command::ShowTab(i) => CommandModel::ShowTab(*i),
            Command::CloseTab(i) => CommandModel::CloseTab(*i),
            Command::Help => CommandModel::Help,
            Command::Quit => CommandModel::Quit,
        }
    }
}

/// The exchanges named by `ts`, or `None` when one of the names is unknown.
pub open spec fn parse_exchanges(ts: Seq<Seq<char>>) -> Option<Seq<ExchangeIdentifier>>
    decreases ts.len(),
{
    if ts.len() == 0 {
        Some(Seq::empty())
    } else {
        match (parse_exchanges(ts.drop_last()), parse_exchange(ts.last())) {
            (Some(es), Some(e)) => Some(es.push(e)),
            _ => None,
        }
    }
}

/// The index argument of `show` and `close`.
pub open spec fn parse_tab_index(parts: Seq<Seq<char>>, usage: Seq<char>) -> Result<usize, Seq<char>> {
    if parts.len() == 2 {
        match parse_usize_spec(parts[1]) {
            Some(i) => Ok(i),
            None => Err(usage),
        }
    } else {
        Err(usage)
    }
}

/// What the text `s` means as a command, or the message that says why it
/// means none.
pub open spec fn parse_command(s: Seq<char>) -> Result<CommandModel, Seq<char>> {
    if s.len() == 0 {
        Err(ERR_EMPTY@)
    } else if s == "help"@ {
        Ok(CommandModel::Help)
    } else if s == "quit"@ {
        Ok(CommandModel::Quit)
    } else {
        let parts = split_ascii_ws(s);
        let head = parts[0];
        if head == "connect"@ {
            if parts.len() == 2 {
                Ok(CommandModel::Connect(parts[1]))
            } else {
                Err(ERR_USAGE_CONNECT@)
            }
        } else if head == "open"@ {
            if parts.len() < 2 {
                Err(ERR_USAGE_OPEN@)
            } else {
                match parse_pair(parts[1]) {
                    None => Err(ERR_CURRENCY_PAIR@),
                    Some(p) => if parts.len() < 3 {
                        Err(ERR_USAGE_OPEN@)
                    } else {
                        match parse_exchanges(parts.skip(2)) {
                            Some(es) => Ok(CommandModel::Open(p, es)),
                            None => Err(ERR_EXCHANGE_IDENT@),
                        }
                    },
                }
            }
        } else if head == "show"@ {
            match parse_tab_index(parts, ERR_USAGE_SHOW@) {
                Ok(i) => Ok(CommandModel::ShowTab(i)),
                Err(e) => Err(e),
            }
        } else if head == "close"@ {
            match parse_tab_index(parts, ERR_USAGE_CLOSE@) {
                Ok(i) => Ok(CommandModel::CloseTab(i)),
                Err(e) => Err(e),
            }
        } else {
            Err(ERR_INVALID_COMMAND@)
        }
    }
}

/// `connect` followed by a space and an address that holds no whitespace
/// (every character of it above the space, so dots, colons and slashes
/// included) is the command to connect to exactly that address.
pub proof fn lemma_connect_parses(addr: Seq<char>)
    requires
        addr.len() > 0,
        forall|i: int| 0 <= i < addr.len() ==> ' ' < #[trigger] addr[i],
    ensures
        parse_command("connect "@ + addr) == Ok::<CommandModel, Seq<char>>(CommandModel::Connect(addr)),
{
    reveal_strlit("connect ");
    reveal_strlit("connect");
    reveal_strlit(" ");
    reveal_strlit("help");
    reveal_strlit("quit");
    let w = "connect"@;
    assert("connect "@ =~= w + " "@);
    assert("connect "@ + addr =~= w + " "@ + addr);
    lemma_split_two_words(w, addr);
    let s = "connect "@ + addr;
    assert(s.len() > 4);
    assert(s != "help"@);
    assert(s != "quit"@);
}

/// A parse result as a mathematical value.
pub open spec fn command_result_model(r: Result<Command, String>) -> Result<CommandModel, Seq<char>> {
    match r {
        Ok(c) => Ok(c@),
        Err(e) => Err(e@),
    }
}

proof fn lemma_parse_exchanges_prefix(ts: Seq<Seq<char>>, k: int)
    requires
        0 <= k <= ts.len(),
        parse_exchanges(ts.take(k)) is None,
    ensures
        parse_exchanges(ts) is None,
    decreases ts.len() - k,
{
    if k < ts.len() {
        assert(ts.take(k + 1).drop_last() =~= ts.take(k));
        lemma_parse_exchanges_prefix(ts, k + 1);
    } else {
        assert(ts.take(k) =~= ts);
    }
}

fn parse_tab_index_exec(parts: &Vec<&str>, usage: &'static str) -> (r: Result<usize, String>)
    ensures
        match (r, parse_tab_index(parts@.map_values(|p: &str| p@), usage@)) {
            (Ok(a), Ok(b)) => a == b,
            (Err(a), Err(b)) => a@ == b,
            _ => false,
        },
{
    let ghost model = parts@.map_values(|p: &str| p@);
    if parts.len() == 2 {
        match parse_usize(parts[1]) {
            Some(i) => Ok(i),
            None => Err(String::from_str(usage)),
        }
    } else {
        Err(String::from_str(usage))
    }
}

impl Command {
    /// Parses a line typed by the user. A line of whitespace alone names no
    /// command word, so it is left out.
    pub fn from_str(s: &str) -> (r: Result<Command, String>)
        requires
            !is_blank(s@),
        ensures
            command_result_model(r) == parse_command(s@),
    {
        if s.unicode_len() == 0 {
            return Err(String::from_str(ERR_EMPTY));
        }
        if str_eq(s, "help") {
            return Ok(Command::Help);
        }
        if str_eq(s, "quit") {
            return Ok(Command::Quit);
        }
        let parts = split_ascii_whitespace(s);
        let ghost model = split_ascii_ws(s@);
        assert(parts@.map_values(|p: &str| p@) =~= model);
        proof {
            lemma_no_tokens_means_blank(s@);
        }
        if parts.len() == 0 {
            assert(is_blank(s@));
        }
        let head = parts[0];
        if str_eq(head, "connect") {
            if parts.len() == 2 {
                Ok(Command::Connect(String::from_str(parts[1])))
            } else {
                Err(String::from_str(ERR_USAGE_CONNECT))
            }
        } else if str_eq(head, "open") {
            if parts.len() < 2 {
                return Err(String::from_str(ERR_USAGE_OPEN));
            }
            let pair = match CurrencyPair::from_str(parts[1]) {
                Ok(p) => p,
                Err(_) => {
                    return Err(String::from_str(ERR_CURRENCY_PAIR));
                },
            };
            if parts.len() < 3 {
                return Err(String::from_str(ERR_USAGE_OPEN));
            }
            let ghost rest = model.skip(2);
            let ghost expected = match parse_exchanges(rest) {
                Some(es) => Ok(CommandModel::Open(pair, es)),
                None => Err(ERR_EXCHANGE_IDENT@),
            };
            assert(parse_command(s@) == expected);
            let mut exchanges: Vec<ExchangeIdentifier> = Vec::new();
            let n = parts.len();
            let mut i: usize = 2;
            while i < n
                invariant
                    n == parts@.len(),
                    n == model.len(),
                    rest == model.skip(2),
                    parse_command(s@) == expected,
                    expected == (match parse_exchanges(rest) {
                        Some(es) => Ok(CommandModel::Open(pair, es)),
                        None => Err(ERR_EXCHANGE_IDENT@),
                    }),
                    forall|k: int| 0 <= k < n ==> (#[trigger] parts@[k])@ == model[k],
                    2 <= i <= n,
                    parse_exchanges(rest.take(i - 2)) == Some(exchanges@),
                decreases n - i,
            {
                assert(rest.take(i - 1).drop_last() =~= rest.take(i - 2));
                assert(rest.take(i - 1).last() == model[i as int]);
                match ExchangeIdentifier::from_str(parts[i]) {
                    Ok(e) => {
                        exchanges.push(e);
                    },
                    Err(_) => {
                        proof {
                            lemma_parse_exchanges_prefix(rest, i - 1);
                        }
                        return Err(String::from_str(ERR_EXCHANGE_IDENT));
                    },
                }
                i = i + 1;
            }
            assert(rest.take(n - 2) =~= rest);
            Ok(Command::Open(pair, exchanges))
        } else if str_eq(head, "show") {
            match parse_tab_index_exec(&parts, ERR_USAGE_SHOW) {
                Ok(i) => Ok(Command::ShowTab(i)),
                Err(e) => Err(e),
            }
        } else if str_eq(head, "close") {
            match parse_tab_index_exec(&parts, ERR_USAGE_CLOSE) {
                Ok(i) => Ok(Command::CloseTab(i)),
                Err(e) => Err(e),
            }
        } else {
            Err(String::from_str(ERR_INVALID_COMMAND))
        }
    }
}

} // verus!
