//! The incremental updater's logic: what each mempool notification asks
//! for, and how the store changes once the asked-for data is in hand. The
//! fetching itself is plain node I/O and happens outside; every decision
//! and every store mutation is made here.

use vstd::prelude::*;

use crate::store::Mempool;
use crate::store::MempoolView;
use crate::store::add_tx_spec;
use crate::store::remove_tx_spec;

verus! {

/// A mempool notification, as the sequence listener delivers it.
pub enum MempoolSequence {
    /// A new block has arrived with `block_hash`.
    BlockConnection { block_hash: String, zmq_seq: u32 },
    /// A block with `block_hash` has been undone by a reorg.
    BlockDisconnection { block_hash: String, zmq_seq: u32 },
    /// The transaction `txid` has left the node's mempool.
    TxRemoved { txid: String, mp_seq_num: u64, zmq_seq: u32 },
    /// The transaction `txid` has entered the node's mempool.
    TxAdded { txid: String, mp_seq_num: u64, zmq_seq: u32 },
    /// The event stream failed.
    SeqError { error: String },
    /// The first message of a session; tells whether the node was already
    /// working when it arrived.
    SeqStart { bitcoind_already_working: bool },
}

/// What one notification asks of the updater.
pub enum UpdateAction {
    /// Nothing to do: the session opened against a working node.
    Proceed,
    /// Fatal: the session opened against a node that was not yet working.
    FatalNotWorking,
    /// Fatal: the event stream reported an error.
    FatalStreamError { error: String },
    /// Fetch this transaction's bytes and insert them if found.
    FetchAndAdd { txid: String },
    /// Remove this transaction.
    RemoveOne { txid: String },
    /// Fetch this block's transaction list and remove every one of them.
    RemoveBlock { block_hash: String },
    /// Fetch this block's transaction list and re-insert every transaction
    /// that can still be fetched.
    AddBlock { block_hash: String },
}

/// The action each notification calls for, exactly as the event dispatch
/// table of the updater has it.
pub fn update_plan(mps: &MempoolSequence) -> (a: UpdateAction)
    ensures
        match mps {
            MempoolSequence::SeqStart { bitcoind_already_working } => if *bitcoind_already_working {
                a is Proceed
            } else {
                a is FatalNotWorking
            },
            MempoolSequence::SeqError { error } => a matches UpdateAction::FatalStreamError {
                error: e,
            } && e@ == error@,
            MempoolSequence::TxAdded { txid, .. } => a matches UpdateAction::FetchAndAdd {
                txid: t,
            } && t@ == txid@,
            MempoolSequence::TxRemoved { txid, .. } => a matches UpdateAction::RemoveOne {
                txid: t,
            } && t@ == txid@,
            MempoolSequence::BlockConnection { block_hash, .. } => a
                matches UpdateAction::RemoveBlock { block_hash: h } && h@ == block_hash@,
            MempoolSequence::BlockDisconnection { block_hash, .. } => a
                matches UpdateAction::AddBlock { block_hash: h } && h@ == block_hash@,
        },
{
    match mps {
        MempoolSequence::SeqStart { bitcoind_already_working } => {
            if *bitcoind_already_working {
                UpdateAction::Proceed
            } else {
                UpdateAction::FatalNotWorking
            }
        },
        MempoolSequence::SeqError { error } => UpdateAction::FatalStreamError {
            error: error.clone(),
        },
        MempoolSequence::TxAdded { txid, .. } => UpdateAction::FetchAndAdd { txid: txid.clone() },
        MempoolSequence::TxRemoved { txid, .. } => UpdateAction::RemoveOne { txid: txid.clone() },
        MempoolSequence::BlockConnection { block_hash, .. } => UpdateAction::RemoveBlock {
            block_hash: block_hash.clone(),
        },
        MempoolSequence::BlockDisconnection { block_hash, .. } => UpdateAction::AddBlock {
            block_hash: block_hash.clone(),
        },
    }
}

/// Apply an added transaction: insert the fetched bytes, or nothing at all
/// when the transaction had already vanished again.
pub fn apply_tx_added(mp: &mut Mempool, txid: String, fetched: Option<Vec<u8>>)
    requires
        old(mp).wf(),
        old(mp)@.counter < u64::MAX,
    ensures
        final(mp).wf(),
        match fetched {
            Some(bytes) => final(mp)@ == add_tx_spec(old(mp)@, txid@, bytes@),
            None => final(mp)@ == old(mp)@,
        },
{
    match fetched {
        Some(bytes) => mp.add_tx(txid, bytes),
        None => {},
    }
}

/// Removing a list of transactions, first to last.
pub open spec fn remove_all_spec(m: MempoolView, ids: Seq<Seq<char>>) -> MempoolView
    decreases ids.len(),
{
    if ids.len() == 0 {
        m
    } else {
        remove_all_spec(remove_tx_spec(m, ids[0]), ids.drop_first())
    }
}

/// Apply a connected block: every transaction the block holds leaves the
/// pool; ones the pool never held are passed over.
pub fn apply_block_connection(mp: &mut Mempool, block_txids: &Vec<String>)
    requires
        old(mp).wf(),
    ensures
        final(mp).wf(),
        final(mp)@ == remove_all_spec(old(mp)@, block_txids@.map_values(|s: String| s@)),
{
    let ghost ids = block_txids@.map_values(|s: String| s@);
    let ghost target = remove_all_spec(old(mp)@, ids);
    proof {
        assert(ids.skip(0) =~= ids);
    }
    let mut i: usize = 0;
    while i < block_txids.len()
        invariant
            i <= block_txids@.len(),
            ids == block_txids@.map_values(|s: String| s@),
            ids.len() == block_txids@.len(),
            mp.wf(),
            remove_all_spec(mp@, ids.skip(i as int)) == target,
        decreases block_txids@.len() - i,
    {
        mp.remove_tx(&block_txids[i]);
        proof {
            let rem = ids.skip(i as int);
            assert(rem[0] == ids[i as int]);
            assert(rem.drop_first() =~= ids.skip(i + 1));
        }
        i = i + 1;
    }
    proof {
        assert(ids.skip(ids.len() as int).len() == 0);
    }
}

/// Re-inserting the fetched transactions of a disconnected block, first to
/// last; ones that could no longer be fetched are passed over.
pub open spec fn add_found_spec(m: MempoolView, txs: Seq<(String, Option<Vec<u8>>)>) -> MempoolView
    decreases txs.len(),
{
    if txs.len() == 0 {
        m
    } else {
        let m1 = match txs[0].1 {
            Some(b) => add_tx_spec(m, txs[0].0@, b@),
            None => m,
        };
        add_found_spec(m1, txs.drop_first())
    }
}

/// Apply a disconnected block: its transactions re-enter the pool in the
/// order the block lists them, each under a fresh arrival index; ones whose
/// bytes could not be fetched again are passed over.
pub fn apply_block_disconnection(mp: &mut Mempool, fetched: Vec<(String, Option<Vec<u8>>)>)
    requires
        old(mp).wf(),
        old(mp)@.counter + fetched@.len() <= u64::MAX,
    ensures
        final(mp).wf(),
        final(mp)@ == add_found_spec(old(mp)@, fetched@),
{
    let ghost target = add_found_spec(old(mp)@, fetched@);
    let mut fetched = fetched;
    while fetched.len() > 0
        invariant
            mp.wf(),
            mp@.counter + fetched@.len() <= u64::MAX,
            add_found_spec(mp@, fetched@) == target,
        decreases fetched@.len(),
    {
        let ghost f0 = fetched@;
        let (txid, bytes_opt) = fetched.remove(0);
        proof {
            assert(f0.remove(0) =~= f0.drop_first());
            assert(f0[0] == (txid, bytes_opt));
        }
        match bytes_opt {
            Some(bytes) => mp.add_tx(txid, bytes),
            None => {},
        }
    }
}

/// The updater's lifecycle: it comes up, runs, drains once told to stop or
/// once something fatal happens, and stops. Events that arrive after the
/// stop are discarded.
#[derive(Clone, Copy, Debug, PartialEq, Eq, Structural)]
pub enum UpdaterPhase {
    Init,
    Running,
    Draining,
    Stopped,
}

/// What reaches the updater between two receives.
#[derive(Clone, Copy, Debug, PartialEq, Eq, Structural)]
pub enum UpdaterSignal {
    /// The session opened against a working node.
    StartWorking,
    /// The session opened against a node that was not yet working.
    StartNotWorking,
    /// The event stream reported an error.
    StreamError,
    /// An ordinary event was received and applied.
    Ordinary,
    /// The stop flag was found set.
    StopFlag,
    /// No event arrived within the receive timeout.
    Timeout,
    /// The drain finished.
    Drained,
}

/// Where the updater goes next.
pub open spec fn updater_step_spec(phase: UpdaterPhase, signal: UpdaterSignal) -> UpdaterPhase {
    match phase {
        UpdaterPhase::Init => match signal {
            UpdaterSignal::StartWorking => UpdaterPhase::Running,
            UpdaterSignal::Ordinary => UpdaterPhase::Init,
            _ => UpdaterPhase::Draining,
        },
        UpdaterPhase::Running => match signal {
            UpdaterSignal::StartWorking | UpdaterSignal::Ordinary => UpdaterPhase::Running,
            _ => UpdaterPhase::Draining,
        },
        UpdaterPhase::Draining => match signal {
            UpdaterSignal::Drained => UpdaterPhase::Stopped,
            _ => UpdaterPhase::Draining,
        },
        UpdaterPhase::Stopped => UpdaterPhase::Stopped,
    }
}

/// One step of the updater's lifecycle.
pub fn updater_step(phase: UpdaterPhase, signal: UpdaterSignal) -> (next: UpdaterPhase)
    ensures
        next == updater_step_spec(phase, signal),
{
    match phase {
        UpdaterPhase::Init => match signal {
            UpdaterSignal::StartWorking => UpdaterPhase::Running,
            UpdaterSignal::Ordinary => UpdaterPhase::Init,
            _ => UpdaterPhase::Draining,
        },
        UpdaterPhase::Running => match signal {
            UpdaterSignal::StartWorking | UpdaterSignal::Ordinary => UpdaterPhase::Running,
            _ => UpdaterPhase::Draining,
        },
        UpdaterPhase::Draining => match signal {
            UpdaterSignal::Drained => UpdaterPhase::Stopped,
            _ => UpdaterPhase::Draining,
        },
        UpdaterPhase::Stopped => UpdaterPhase::Stopped,
    }
}

} // verus!
