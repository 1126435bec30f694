//! Commands, transactions, and the line-based command language.
use vstd::prelude::*;

verus! {

/// What a command means, over plain sequences of characters.
pub enum CommandView {
    Put { key: Seq<char>, value: Seq<char> },
    Get { key: Seq<char> },
    Nop,
}

/// One operation against the store.
#[derive(PartialEq, Eq, Debug)]
pub enum Command {
    Put { key: String, value: String },
    Get { key: String },
    Nop,
}

impl View for Command {
    type V = CommandView;

    open spec fn view(&self) -> CommandView {
        match self {
            Command::Put { key, value } => CommandView::Put { key: key@, value: value@ },
            Command::Get { key } => CommandView::Get { key: key@ },
            Command::Nop => CommandView::Nop,
        }
    }
}

impl Clone for Command {
    fn clone(&self) -> (r: Self)
        ensures
            r == *self,
    {
        match self {
            Command::Put { key, value } => Command::Put { key: key.clone(), value: value.clone() },
            Command::Get { key } => Command::Get { key: key.clone() },
            Command::Nop => Command::Nop,
        }
    }
}

/// What a transaction means: its identifier and the meaning of its command.
pub struct TransactionView {
    pub id: usize,
    pub command: CommandView,
}

/// The durable unit of the log: an identifier and the command it carries.
#[derive(PartialEq, Eq, Debug)]
pub struct Transaction {
    pub id: usize,
    pub command: Command,
}

impl View for Transaction {
    type V = TransactionView;

    open spec fn view(&self) -> TransactionView {
        TransactionView { id: self.id, command: self.command@ }
    }
}

impl Clone for Transaction {
    fn clone(&self) -> (r: Self)
        ensures
            r == *self,
    {
        Transaction { id: self.id, command: self.command.clone() }
    }
}

/// The whitespace-separated words of a text, in order.
pub uninterp spec fn words_of(s: Seq<char>) -> Seq<Seq<char>>;

/// Relies on `str::split_whitespace`: the words of `s`, split at Unicode
/// white space, in order; each word is turned into an owned `String`. As its
/// documentation states, no word is empty and none holds white space (here:
/// space, tab, line feed or carriage return).
#[verifier::external_body]
fn split_words(s: &str) -> (r: Vec<String>)
    ensures
        r@.map_values(|w: String| w@) == words_of(s@),
        forall|i: int| 0 <= i < r@.len() ==> (#[trigger] r@[i])@.len() > 0,
        forall|i: int, j: int|
            0 <= i < r@.len() && 0 <= j < r@[i]@.len() ==> !is_blank(#[trigger] r@[i]@[j]),
{
    s.split_whitespace().map(String::from).collect()
}

/// Space, tab, line feed or carriage return.
pub open spec fn is_blank(c: char) -> bool {
    c == ' ' || c == '\t' || c == '\n' || c == '\r'
}

/// A non-empty text without blanks.
pub open spec fn word_shaped(w: Seq<char>) -> bool {
    w.len() > 0 && forall|j: int| 0 <= j < w.len() ==> !is_blank(#[trigger] w[j])
}

/// The command that a list of words stands for: `GET <key>`,
/// `SET <key> <value>`, and a no-op for anything else.
pub open spec fn command_of_words(ws: Seq<Seq<char>>) -> CommandView {
    if ws.len() == 2 && ws[0] == "GET"@ {
        CommandView::Get { key: ws[1] }
    } else if ws.len() == 3 && ws[0] == "SET"@ {
        CommandView::Put { key: ws[1], value: ws[2] }
    } else {
        CommandView::Nop
    }
}

/// The command a query line stands for.
pub open spec fn command_of_query(q: Seq<char>) -> CommandView {
    command_of_words(words_of(q))
}

/// Builds the command that a list of words stands for.
pub fn command_from_words(words: &Vec<String>) -> (r: Command)
    ensures
        r@ == command_of_words(words@.map_values(|w: String| w@)),
{
    let get = String::from_str("GET");
    let set = String::from_str("SET");
    if words.len() == 2 && words[0] == get {
        Command::Get { key: words[1].clone() }
    } else if words.len() == 3 && words[0] == set {
        Command::Put { key: words[1].clone(), value: words[2].clone() }
    } else {
        Command::Nop
    }
}

/// Parses a query line; input that is not a well-formed command becomes a no-op.
pub fn parse_query(query: &str) -> (r: Command)
    ensures
        r@ == command_of_query(query@),
        r matches Command::Get { key } ==> word_shaped(key@),
        r matches Command::Put { key, value } ==> word_shaped(key@) && word_shaped(value@),
{
    let words = split_words(query);
    let r = command_from_words(&words);
    proof {
        let ws = words@.map_values(|w: String| w@);
        if ws.len() >= 2 {
            assert(ws[1] == words@[1]@);
            assert(words@[1]@.len() > 0);
        }
        if ws.len() == 3 {
            assert(ws[2] == words@[2]@);
            assert(words@[2]@.len() > 0);
        }
    }
    r
}

} // verus!
