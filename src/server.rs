//! The server: assigns transaction ids, logs before applying, and rebuilds
//! its state from the log on recovery.
use vstd::prelude::*;

use crate::command::{parse_query, command_of_query, word_shaped, Command, Transaction, TransactionView};
use crate::state::{apply_command, lemma_replay_push, replay_state, State};
use crate::wal::{replay_of, transactions_view, Replay, WalError, WriteAheadLog};

verus! {

/// Recovery from counter `id` and mapping `kv` over the replayed `ts`: the
/// final counter, the final mapping, and the failure that stopped it, if any.
/// A transaction behind the counter is skipped, one at the counter is applied
/// and advances it, and one ahead of it is a sequencing violation.
pub open spec fn recover_run(id: usize, kv: Map<Seq<char>, Seq<char>>, ts: Seq<TransactionView>) -> (
    usize,
    Map<Seq<char>, Seq<char>>,
    Option<WalError>,
)
    decreases ts.len(),
{
    if ts.len() == 0 {
        (id, kv, None)
    } else if ts[0].id < id {
        recover_run(id, kv, ts.drop_first())
    } else if ts[0].id > id {
        (id, kv, Some(WalError::SequencingViolation { found: ts[0].id, expected: id }))
    } else if id == usize::MAX {
        (id, kv, Some(WalError::IdSpaceExhausted))
    } else {
        recover_run((id + 1) as usize, apply_command(kv, ts[0].command).0, ts.drop_first())
    }
}

/// Recovery from counter `id` and mapping `kv` over the whole result of a
/// replay: a replay that could not start fails and changes nothing; else the
/// run over the replayed transactions, whose own failure comes first, then the
/// failure that ended the replay, if any.
pub open spec fn replay_recovery(
    id: usize,
    kv: Map<Seq<char>, Seq<char>>,
    replayed: Result<Replay, WalError>,
) -> (usize, Map<Seq<char>, Seq<char>>, Option<WalError>) {
    match replayed {
        Err(e) => (id, kv, Some(e)),
        Ok(rp) => {
            let out = recover_run(id, kv, transactions_view(rp.transactions@));
            if out.2 is Some {
                out
            } else {
                (out.0, out.1, rp.failure)
            }
        },
    }
}

/// Each transaction's id is its position in the sequence.
pub open spec fn ids_in_order(ts: Seq<TransactionView>) -> bool {
    forall|i: int| 0 <= i < ts.len() ==> #[trigger] ts[i].id == i
}

/// The transaction that executing `query` with counter `id` records.
pub open spec fn executed_transaction(id: usize, query: Seq<char>) -> TransactionView {
    TransactionView { id, command: command_of_query(query) }
}

proof fn lemma_run_in_order(start: usize, kv: Map<Seq<char>, Seq<char>>, ts: Seq<TransactionView>)
    requires
        forall|i: int| 0 <= i < ts.len() ==> #[trigger] ts[i].id == start + i,
        start + ts.len() <= usize::MAX,
    ensures
        recover_run(start, kv, ts) == ((start + ts.len()) as usize, replay_state(kv, ts), None::<
            WalError,
        >),
    decreases ts.len(),
{
    if ts.len() > 0 {
        let rest = ts.drop_first();
        assert forall|i: int| 0 <= i < rest.len() implies #[trigger] rest[i].id == (start + 1) + i by {
            assert(rest[i] == ts[i + 1]);
        }
        lemma_run_in_order((start + 1) as usize, apply_command(kv, ts[0].command).0, rest);
    }
}

proof fn lemma_run_bounds(id: usize, kv: Map<Seq<char>, Seq<char>>, ts: Seq<TransactionView>)
    requires
        recover_run(id, kv, ts).2 is None,
    ensures
        id <= recover_run(id, kv, ts).0,
        forall|i: int| 0 <= i < ts.len() ==> #[trigger] ts[i].id < recover_run(id, kv, ts).0,
    decreases ts.len(),
{
    if ts.len() > 0 {
        let rest = ts.drop_first();
        let next = if ts[0].id < id {
            id
        } else {
            (id + 1) as usize
        };
        let kv2 = if ts[0].id < id {
            kv
        } else {
            apply_command(kv, ts[0].command).0
        };
        lemma_run_bounds(next, kv2, rest);
        assert forall|i: int| 0 <= i < ts.len() implies #[trigger] ts[i].id < recover_run(
            id,
            kv,
            ts,
        ).0 by {
            if i > 0 {
                assert(ts[i] == rest[i - 1]);
            }
        }
    }
}

proof fn lemma_run_skips_all(id: usize, kv: Map<Seq<char>, Seq<char>>, ts: Seq<TransactionView>)
    requires
        forall|i: int| 0 <= i < ts.len() ==> #[trigger] ts[i].id < id,
    ensures
        recover_run(id, kv, ts) == (id, kv, None::<WalError>),
    decreases ts.len(),
{
    if ts.len() > 0 {
        let rest = ts.drop_first();
        assert forall|i: int| 0 <= i < rest.len() implies #[trigger] rest[i].id < id by {
            assert(rest[i] == ts[i + 1]);
        }
        lemma_run_skips_all(id, kv, rest);
    }
}

/// Recovery reproduces state: a fresh server over the log of a server whose
/// log holds exactly what it executed recovers to that server's counter and
/// mapping, without failure; in particular from any replay of that log that
/// ends without failure.
pub proof fn law_recovery_reproduces_state<W: WriteAheadLog>(before: Server<W>, after: Server<W>)
    requires
        before.consistent(),
        after.next_id() == 0,
        after.kv() == Map::<Seq<char>, Seq<char>>::empty(),
        after.log() == before.log(),
    ensures
        recover_run(after.next_id(), after.kv(), after.log()) == (
            before.next_id(),
            before.kv(),
            None::<WalError>,
        ),
        forall|rp: Replay|
            replay_of(rp, after.log()) && rp.failure is None ==> #[trigger] replay_recovery(
                after.next_id(),
                after.kv(),
                Ok(rp),
            ) == (before.next_id(), before.kv(), None::<WalError>),
{
    lemma_run_in_order(0, Map::empty(), before.log());
    assert forall|rp: Replay|
        replay_of(rp, after.log()) && rp.failure is None implies #[trigger] replay_recovery(
            after.next_id(),
            after.kv(),
            Ok(rp),
        ) == (before.next_id(), before.kv(), None::<WalError>) by {
        assert(after.log().take(after.log().len() as int) =~= after.log());
    }
}

/// Recovering a second time over the same replay applies nothing more: the
/// counter and the mapping stay as the first recovery left them.
pub proof fn law_recover_twice(id: usize, kv: Map<Seq<char>, Seq<char>>, ts: Seq<TransactionView>)
    requires
        recover_run(id, kv, ts).2 is None,
    ensures
        recover_run(recover_run(id, kv, ts).0, recover_run(id, kv, ts).1, ts) == recover_run(
            id,
            kv,
            ts,
        ),
{
    lemma_run_bounds(id, kv, ts);
    lemma_run_skips_all(recover_run(id, kv, ts).0, recover_run(id, kv, ts).1, ts);
}

/// A key-value server over a write-ahead log.
pub struct Server<W: WriteAheadLog> {
    transaction_id: usize,
    write_ahead_log: W,
    state: State,
}

impl<W: WriteAheadLog> Server<W> {
    /// The id the next transaction receives.
    pub closed spec fn next_id(&self) -> usize {
        self.transaction_id
    }

    /// The server's key-value mapping.
    pub closed spec fn kv(&self) -> Map<Seq<char>, Seq<char>> {
        self.state@
    }

    /// The history of the server's log.
    pub closed spec fn log(&self) -> Seq<TransactionView> {
        self.write_ahead_log.history()
    }

    /// The log holds exactly the transactions this server executed, with ids
    /// 0, 1, 2, ..., and the mapping is what replaying them produces.
    pub open spec fn consistent(&self) -> bool {
        &&& ids_in_order(self.log())
        &&& self.next_id() == self.log().len()
        &&& self.kv() == replay_state(Map::empty(), self.log())
    }

    /// A server with counter 0 and an empty mapping over `write_ahead_log`.
    pub fn new(write_ahead_log: W) -> (r: Server<W>)
        ensures
            r.next_id() == 0,
            r.kv() == Map::<Seq<char>, Seq<char>>::empty(),
            r.log() == write_ahead_log.history(),
            write_ahead_log.history().len() == 0 ==> r.consistent(),
    {
        let r = Server { transaction_id: 0, write_ahead_log, state: State::new() };
        proof {
            if r.log().len() == 0 {
                assert(replay_state(Map::empty(), r.log()) == Map::<Seq<char>, Seq<char>>::empty());
            }
        }
        r
    }

    /// Parses a query line: `GET <key>`, `SET <key> <value>`, else a no-op.
    pub fn parse(query: &str) -> (r: Command)
        ensures
            r@ == command_of_query(query@),
            r matches Command::Get { key } ==> word_shaped(key@),
            r matches Command::Put { key, value } ==> word_shaped(key@) && word_shaped(value@),
    {
        parse_query(query)
    }

    /// Runs one query: logs it as the next transaction, then applies it.
    /// Nothing is applied and the counter does not move unless the log
    /// accepted the transaction.
    pub fn execute(&mut self, query: &str) -> (r: Result<String, WalError>)
        ensures
            r matches Ok(out) ==> {
                &&& old(self).next_id() < usize::MAX
                &&& final(self).next_id() == old(self).next_id() + 1
                &&& final(self).log() == old(self).log().push(
                    executed_transaction(old(self).next_id(), query@),
                )
                &&& (final(self).kv(), out@) == apply_command(
                    old(self).kv(),
                    command_of_query(query@),
                )
            },
            r is Err ==> {
                &&& final(self).next_id() == old(self).next_id()
                &&& final(self).log() == old(self).log()
                &&& final(self).kv() == old(self).kv()
            },
            old(self).next_id() == usize::MAX ==> r == Err::<String, WalError>(
                WalError::IdSpaceExhausted,
            ),
            old(self).consistent() ==> final(self).consistent(),
    {
        let transaction = match self.next_transaction(query) {
            Ok(t) => t,
            Err(e) => {
                return Err(e);
            },
        };
        match self.write_ahead_log.append(&transaction) {
            Ok(()) => {},
            Err(e) => {
                return Err(e);
            },
        }
        self.transaction_id = self.transaction_id + 1;
        let result = self.state.apply(&transaction);
        proof {
            assert(transaction@ == executed_transaction(old(self).next_id(), query@));
            if old(self).consistent() {
                lemma_replay_push(Map::empty(), old(self).log(), transaction@);
                assert(ids_in_order(self.log())) by {
                    assert forall|i: int| 0 <= i < self.log().len() implies #[trigger] self.log()[i].id
                        == i by {
                        if i < old(self).log().len() {
                            assert(self.log()[i] == old(self).log()[i]);
                        }
                    }
                }
            }
        }
        Ok(result)
    }

    /// Recovers from transactions already replayed from the log: skips those
    /// behind the counter, applies the one at it, and stops at the first one
    /// ahead of it.
    pub fn recover_from(&mut self, transactions: &Vec<Transaction>) -> (r: Result<(), WalError>)
        ensures
            ({
                let out = recover_run(
                    old(self).next_id(),
                    old(self).kv(),
                    transactions_view(transactions@),
                );
                &&& final(self).next_id() == out.0
                &&& final(self).kv() == out.1
                &&& match out.2 {
                    None => r is Ok,
                    Some(e) => r == Err::<(), WalError>(e),
                }
            }),
            final(self).log() == old(self).log(),
    {
        let ghost ts = transactions_view(transactions@);
        let ghost id0 = self.next_id();
        let ghost kv0 = self.kv();
        let ghost log0 = self.log();
        let mut i: usize = 0;
        assert(ts.skip(0) =~= ts);
        while i < transactions.len()
            invariant
                i <= transactions.len(),
                ts == transactions_view(transactions@),
                id0 == old(self).next_id(),
                kv0 == old(self).kv(),
                log0 == old(self).log(),
                self.log() == log0,
                recover_run(id0, kv0, ts) == recover_run(
                    self.next_id(),
                    self.kv(),
                    ts.skip(i as int),
                ),
            decreases transactions.len() - i,
        {
            let t = &transactions[i];
            assert(ts.skip(i as int)[0] == t@);
            assert(ts.skip(i as int).drop_first() =~= ts.skip(i + 1));
            if t.id < self.transaction_id {
            } else if t.id > self.transaction_id {
                return Err(
                    WalError::SequencingViolation { found: t.id, expected: self.transaction_id },
                );
            } else if self.transaction_id == usize::MAX {
                return Err(WalError::IdSpaceExhausted);
            } else {
                self.state.apply(t);
                self.transaction_id = self.transaction_id + 1;
            }
            i = i + 1;
        }
        assert(ts.skip(i as int) =~= Seq::<TransactionView>::empty());
        Ok(())
    }

    /// Recovers from the whole result of a replay. A replay that could not
    /// start fails recovery and changes nothing. Otherwise the replayed
    /// transactions are recovered from; a sequencing failure among them comes
    /// first, and a failure that ended the replay is passed on after them.
    pub fn recover_from_replay(&mut self, replayed: Result<Replay, WalError>) -> (r: Result<
        (),
        WalError,
    >)
        ensures
            ({
                let out = replay_recovery(old(self).next_id(), old(self).kv(), replayed);
                &&& final(self).next_id() == out.0
                &&& final(self).kv() == out.1
                &&& match out.2 {
                    None => r is Ok,
                    Some(e) => r == Err::<(), WalError>(e),
                }
            }),
            final(self).log() == old(self).log(),
    {
        let rp = match replayed {
            Ok(rp) => rp,
            Err(e) => {
                return Err(e);
            },
        };
        match self.recover_from(&rp.transactions) {
            Ok(()) => {},
            Err(e) => {
                return Err(e);
            },
        }
        match rp.failure {
            Some(e) => Err(e),
            None => Ok(()),
        }
    }

    /// Replays the whole log and recovers from it. On success the state is
    /// recovery over the full history; on failure it is recovery over some
    /// prefix of it.
    pub fn recover(&mut self) -> (r: Result<(), WalError>)
        ensures
            final(self).log() == old(self).log(),
            r is Ok ==> recover_run(old(self).next_id(), old(self).kv(), old(self).log()) == (
                final(self).next_id(),
                final(self).kv(),
                None::<WalError>,
            ),
            r is Err ==> exists|k: int|
                0 <= k <= old(self).log().len() && {
                    let out = recover_run(
                        old(self).next_id(),
                        old(self).kv(),
                        #[trigger] old(self).log().take(k),
                    );
                    out.0 == final(self).next_id() && out.1 == final(self).kv()
                },
    {
        let replayed = self.write_ahead_log.replay();
        proof {
            if replayed is Ok {
                let rp = replayed->Ok_0;
                let k = rp.transactions@.len() as int;
                assert(transactions_view(rp.transactions@) == old(self).log().take(k));
                if rp.failure is None {
                    assert(old(self).log().take(k) =~= old(self).log());
                }
            } else {
                assert(old(self).log().take(0) =~= Seq::<TransactionView>::empty());
            }
        }
        self.recover_from_replay(replayed)
    }

    /// The transaction that executing `query` would record next; fails when
    /// the counter cannot advance.
    pub fn next_transaction(&self, query: &str) -> (r: Result<Transaction, WalError>)
        ensures
            self.next_id() == usize::MAX ==> r == Err::<Transaction, WalError>(
                WalError::IdSpaceExhausted,
            ),
            self.next_id() < usize::MAX ==> (r matches Ok(t) && t@ == executed_transaction(
                self.next_id(),
                query@,
            )),
    {
        if self.transaction_id == usize::MAX {
            return Err(WalError::IdSpaceExhausted);
        }
        Ok(Transaction { id: self.transaction_id, command: Self::parse(query) })
    }

    /// The id the next transaction receives.
    pub fn next_transaction_id(&self) -> (r: usize)
        ensures
            r == self.next_id(),
    {
        self.transaction_id
    }

    /// The server's key-value state.
    pub fn state(&self) -> (r: &State)
        ensures
            r@ == self.kv(),
    {
        &self.state
    }

    /// Gives back the log, ending the server.
    pub fn into_write_ahead_log(self) -> (r: W)
        ensures
            r.history() == self.log(),
    {
        self.write_ahead_log
    }
}

} // verus!
