//! The in-memory key-value view, changed only by applying transactions.
use vstd::hash_map::StringHashMap;
use vstd::prelude::*;

use crate::command::{Command, CommandView, Transaction, TransactionView};

verus! {

/// The mapping after a command, and the command's observable result: a
/// `Get` yields the stored value, or the empty text when the key is absent;
/// every other command yields the empty text.
pub open spec fn apply_command(kv: Map<Seq<char>, Seq<char>>, c: CommandView) -> (
    Map<Seq<char>, Seq<char>>,
    Seq<char>,
) {
    match c {
        CommandView::Put { key, value } => (kv.insert(key, value), Seq::empty()),
        CommandView::Get { key } => (kv, if kv.contains_key(key) {
            kv[key]
        } else {
            Seq::empty()
        }),
        CommandView::Nop => (kv, Seq::empty()),
    }
}

/// The mapping obtained by applying `ts` to `kv`, first to last.
pub open spec fn replay_state(kv: Map<Seq<char>, Seq<char>>, ts: Seq<TransactionView>) -> Map<
    Seq<char>,
    Seq<char>,
>
    decreases ts.len(),
{
    if ts.len() == 0 {
        kv
    } else {
        replay_state(apply_command(kv, ts[0].command).0, ts.drop_first())
    }
}

/// Applying one more transaction at the end of a sequence.
pub proof fn lemma_replay_push(
    kv: Map<Seq<char>, Seq<char>>,
    ts: Seq<TransactionView>,
    t: TransactionView,
)
    ensures
        replay_state(kv, ts.push(t)) == apply_command(replay_state(kv, ts), t.command).0,
    decreases ts.len(),
{
    if ts.len() > 0 {
        assert(ts.push(t).drop_first() =~= ts.drop_first().push(t));
        assert(ts.push(t)[0] == ts[0]);
        lemma_replay_push(apply_command(kv, ts[0].command).0, ts.drop_first(), t);
    } else {
        assert(ts.push(t).drop_first() =~= Seq::<TransactionView>::empty());
        assert(ts.push(t)[0] == t);
        assert(replay_state(apply_command(kv, t.command).0, Seq::empty()) == apply_command(
            kv,
            t.command,
        ).0);
    }
}

/// The materialized key-value mapping.
pub struct State {
    kv: StringHashMap<String>,
}

impl View for State {
    type V = Map<Seq<char>, Seq<char>>;

    closed spec fn view(&self) -> Map<Seq<char>, Seq<char>> {
        self.kv@.map_values(|v: String| v@)
    }
}

impl State {
    /// An empty mapping.
    pub fn new() -> (r: State)
        ensures
            r@ == Map::<Seq<char>, Seq<char>>::empty(),
    {
        let r = State { kv: StringHashMap::new() };
        assert(r@ =~= Map::<Seq<char>, Seq<char>>::empty());
        r
    }

    /// Applies a transaction's command and returns its observable result.
    pub fn apply(&mut self, transaction: &Transaction) -> (r: String)
        ensures
            (final(self)@, r@) == apply_command(old(self)@, transaction.command@),
    {
        match &transaction.command {
            Command::Put { key, value } => {
                self.kv.insert(key.clone(), value.clone());
                assert(self@ =~= old(self)@.insert(key@, value@));
                String::new()
            },
            Command::Get { key } => {
                match self.kv.get(key.as_str()) {
                    Some(v) => v.clone(),
                    None => String::new(),
                }
            },
            Command::Nop => String::new(),
        }
    }

    /// The value stored under `key`, if any.
    pub fn get(&self, key: &str) -> (r: Option<String>)
        ensures
            r.is_some() == self@.contains_key(key@),
            r.is_some() ==> r.unwrap()@ == self@[key@],
    {
        match self.kv.get(key) {
            Some(v) => Some(v.clone()),
            None => None,
        }
    }

    /// The number of keys stored.
    pub fn len(&self) -> (r: usize)
        ensures
            r == self@.len(),
    {
        assert(self@.dom() =~= self.kv@.dom());
        self.kv.len()
    }
}

} // verus!
