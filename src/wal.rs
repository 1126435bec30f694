//! The write-ahead log interface, its volatile backend, and the decisions that
//! drive replay of a line-oriented persistent log.
use vstd::prelude::*;

use crate::command::{Transaction, TransactionView};

verus! {

/// Failures of the log and of recovery.
#[derive(PartialEq, Eq, Structural, Clone, Copy, Debug)]
pub enum WalError {
    /// Reading, writing or flushing the backing storage failed.
    IoFailure,
    /// A stored record could not be decoded.
    DecodeFailure,
    /// A replayed transaction's id is ahead of the id expected next.
    SequencingViolation { found: usize, expected: usize },
    /// The id counter has reached the largest value it can hold.
    IdSpaceExhausted,
}

/// The meaning of each transaction of a sequence.
pub open spec fn transactions_view(ts: Seq<Transaction>) -> Seq<TransactionView> {
    ts.map_values(|t: Transaction| t@)
}

/// What one replay produced: the transactions read in order, and the failure
/// that ended the sequence early, if any.
pub struct Replay {
    pub transactions: Vec<Transaction>,
    pub failure: Option<WalError>,
}

/// `r` is a replay of history `h`: it yields a prefix of `h` in order, and all
/// of it when no failure ended it.
pub open spec fn replay_of(r: Replay, h: Seq<TransactionView>) -> bool {
    let ts = transactions_view(r.transactions@);
    &&& ts.len() <= h.len()
    &&& ts == h.take(ts.len() as int)
    &&& r.failure is None ==> ts.len() == h.len()
}

/// The history obtained from `h` by appending each of `ts`, first to last.
pub open spec fn history_after_appends(h: Seq<TransactionView>, ts: Seq<TransactionView>) -> Seq<
    TransactionView,
>
    decreases ts.len(),
{
    if ts.len() == 0 {
        h
    } else {
        history_after_appends(h.push(ts[0]), ts.drop_first())
    }
}

proof fn lemma_history_after_appends(h: Seq<TransactionView>, ts: Seq<TransactionView>)
    ensures
        history_after_appends(h, ts) == h + ts,
    decreases ts.len(),
{
    if ts.len() == 0 {
        assert(h + ts =~= h);
    } else {
        lemma_history_after_appends(h.push(ts[0]), ts.drop_first());
        assert(h.push(ts[0]) + ts.drop_first() =~= h + ts);
    }
}

/// Transactions appended one after another to an empty log come back from a
/// replay that ends without failure exactly as appended: the same
/// transactions, in the same order, with the same fields.
pub proof fn law_append_then_replay(ts: Seq<TransactionView>, rp: Replay)
    requires
        replay_of(rp, history_after_appends(Seq::empty(), ts)),
        rp.failure is None,
    ensures
        transactions_view(rp.transactions@) == ts,
{
    lemma_history_after_appends(Seq::empty(), ts);
    assert(Seq::<TransactionView>::empty() + ts =~= ts);
    assert(ts.take(ts.len() as int) =~= ts);
}

/// A durable, append-only log of transactions.
pub trait WriteAheadLog: Sized {
    /// Every transaction held by the log, in append order.
    spec fn history(&self) -> Seq<TransactionView>;

    /// Persists a transaction; on success it is the last entry of the history,
    /// on failure the history is unchanged.
    fn append(&mut self, transaction: &Transaction) -> (r: Result<(), WalError>)
        ensures
            r is Ok ==> final(self).history() == old(self).history().push(transaction@),
            r is Err ==> final(self).history() == old(self).history(),
    ;

    /// Reads the log again from its first entry.
    fn replay(&mut self) -> (r: Result<Replay, WalError>)
        ensures
            final(self).history() == old(self).history(),
            r matches Ok(rp) ==> replay_of(rp, final(self).history()),
    ;
}

/// A log kept in process memory only. Its appends can be made to fail, to
/// stand for a storage fault.
pub struct InMemoryWriteAheadLog {
    data: Vec<Transaction>,
    failing: bool,
}

impl InMemoryWriteAheadLog {
    /// An empty log.
    pub fn new() -> (r: InMemoryWriteAheadLog)
        ensures
            r.history() == Seq::<TransactionView>::empty(),
            !r.fails_appends(),
    {
        let r = InMemoryWriteAheadLog { data: Vec::new(), failing: false };
        assert(r.history() =~= Seq::<TransactionView>::empty());
        r
    }

    /// Whether appends currently fail.
    pub closed spec fn fails_appends(&self) -> bool {
        self.failing
    }

    /// Makes every later append fail with an I/O failure (`on`), or succeed.
    pub fn set_failing(&mut self, on: bool)
        ensures
            final(self).history() == old(self).history(),
            final(self).fails_appends() == on,
    {
        self.failing = on;
    }

    /// The number of transactions held.
    pub fn len(&self) -> (r: usize)
        ensures
            r == self.history().len(),
    {
        self.data.len()
    }
}

impl WriteAheadLog for InMemoryWriteAheadLog {
    closed spec fn history(&self) -> Seq<TransactionView> {
        transactions_view(self.data@)
    }

    fn append(&mut self, transaction: &Transaction) -> (r: Result<(), WalError>)
        ensures
            final(self).fails_appends() == old(self).fails_appends(),
            old(self).fails_appends() ==> r == Err::<(), WalError>(WalError::IoFailure),
            !old(self).fails_appends() ==> r is Ok,
    {
        if self.failing {
            return Err(WalError::IoFailure);
        }
        self.data.push(transaction.clone());
        assert(self.history() =~= old(self).history().push(transaction@));
        Ok(())
    }

    fn replay(&mut self) -> (r: Result<Replay, WalError>)
        ensures
            final(self).fails_appends() == old(self).fails_appends(),
            r matches Ok(rp) && rp.failure is None && transactions_view(rp.transactions@)
                == final(self).history(),
    {
        let mut out: Vec<Transaction> = Vec::new();
        let mut i: usize = 0;
        while i < self.data.len()
            invariant
                i <= self.data.len(),
                out@ == self.data@.take(i as int),
            decreases self.data.len() - i,
        {
            out.push(self.data[i].clone());
            assert(out@ =~= self.data@.take(i + 1));
            i = i + 1;
        }
        assert(out@ =~= self.data@);
        let rp = Replay { transactions: out, failure: None };
        assert(transactions_view(rp.transactions@) =~= self.history().take(
            self.history().len() as int,
        ));
        Ok(rp)
    }
}

/// The outcome of reading one line of a persistent log.
pub enum ReadEvent {
    /// Nothing was left to read.
    EndOfStream,
    /// A line was read and decoded into a transaction.
    Record(Transaction),
    /// A line was read but could not be decoded.
    Malformed,
    /// Reading failed.
    ReadFailed,
}

/// The replay position of a line-oriented persistent log: it yields one
/// element per line read and stops for good after the first failure.
pub struct OnDiskReplayIterator {
    error: bool,
}

impl OnDiskReplayIterator {
    /// True once a failure has been yielded: no further element follows.
    pub closed spec fn stopped(&self) -> bool {
        self.error
    }

    /// A replay at the start of the log.
    pub fn new() -> (r: OnDiskReplayIterator)
        ensures
            !r.stopped(),
    {
        OnDiskReplayIterator { error: false }
    }

    /// Whether the replay has stopped, so that no further line need be read.
    pub fn is_exhausted(&self) -> (r: bool)
        ensures
            r == self.stopped(),
    {
        self.error
    }

    /// The next element of the replay, given what reading the next line gave.
    pub fn next_from(&mut self, event: ReadEvent) -> (r: Option<Result<Transaction, WalError>>)
        ensures
            old(self).stopped() ==> r is None && final(self).stopped(),
            !old(self).stopped() ==> match event {
                ReadEvent::EndOfStream => r is None && !final(self).stopped(),
                ReadEvent::Record(t) => r == Some(Ok::<Transaction, WalError>(t))
                    && !final(self).stopped(),
                ReadEvent::Malformed => r == Some(Err::<Transaction, WalError>(
                    WalError::DecodeFailure,
                )) && final(self).stopped(),
                ReadEvent::ReadFailed => r == Some(Err::<Transaction, WalError>(
                    WalError::IoFailure,
                )) && final(self).stopped(),
            },
    {
        if self.error {
            return None;
        }
        match event {
            ReadEvent::EndOfStream => None,
            ReadEvent::Record(t) => Some(Ok(t)),
            ReadEvent::Malformed => {
                self.error = true;
                Some(Err(WalError::DecodeFailure))
            },
            ReadEvent::ReadFailed => {
                self.error = true;
                Some(Err(WalError::IoFailure))
            },
        }
    }
}

} // verus!
