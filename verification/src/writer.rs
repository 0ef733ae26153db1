//! The idempotent writer: the decisions that persist one normalized block,
//! as a machine that asks for one store operation at a time.
//!
//! The writer must not run concurrently with itself: the id of a new row is
//! the greatest id of its table plus one, read right before the insert.

use crate::decompose::{
    BlockSummary, NormalizedBlock, NormalizedInput, NormalizedOutput, NormalizedTransaction,
};
use crate::error::SyncError;
use crate::model::{BlockInfo, Transaction, TransactionInput, TransactionOutput};
use crate::store::{greatest, StoreCommand, StoreReply, Table};
use vstd::prelude::*;

verus! {

/// The id that follows `latest`, the greatest id of a table: one more, 1 for
/// an empty table, and none where the ids are used up.
pub open spec fn next_id(latest: Option<i32>) -> Option<i32> {
    match latest {
        None => Some(1i32),
        Some(m) => if m < i32::MAX {
            Some((m + 1) as i32)
        } else {
            None
        },
    }
}

/// Computes the id that follows `latest`.
pub fn reserve_id(latest: Option<i32>) -> (r: Option<i32>)
    ensures
        r == next_id(latest),
{
    match latest {
        None => Some(1),
        Some(m) => if m < i32::MAX {
            Some(m + 1)
        } else {
            None
        },
    }
}

/// The greatest id bounds every id, so that the id after it is not taken.
pub proof fn lemma_next_id_is_free(taken: Seq<i32>)
    ensures
        greatest(taken) is None <==> taken.len() == 0,
        forall|i: int| 0 <= i < taken.len() ==> #[trigger] taken[i] <= greatest(taken)->0,
        next_id(greatest(taken)) matches Some(n) ==> !taken.contains(n),
    decreases taken.len(),
{
    if taken.len() > 0 {
        lemma_next_id_is_free(taken.drop_last());
        assert forall|i: int| 0 <= i < taken.len() implies #[trigger] taken[i] <= greatest(
            taken,
        )->0 by {
            if i < taken.len() - 1 {
                assert(taken[i] == taken.drop_last()[i]);
            }
        }
    }
}

/// The block row for `b` under the id `id`.
pub open spec fn block_row(b: BlockSummary, id: i32) -> BlockInfo {
    BlockInfo {
        id,
        height: b.height,
        avg_tx_count: b.tx_count,
        difficulty: b.difficulty,
        block_time: b.block_time,
        timestamp: b.timestamp,
        size: b.size,
        weight: b.weight,
    }
}

/// The transaction row for `t` in the block at `height`, under the id `id`.
pub open spec fn transaction_row(t: NormalizedTransaction, height: i32, id: i32) -> Transaction {
    Transaction { id, block_height: height, hash: t.hash, btc: t.btc, fee: t.fee, time: t.time }
}

/// The input row for `n` of the transaction `parent`, under the id `id`.
pub open spec fn input_row(n: NormalizedInput, parent: i32, id: i32) -> TransactionInput {
    TransactionInput {
        id,
        transaction_id: parent,
        previous_output: n.previous_output,
        value: n.value,
    }
}

/// The output row for `n` of the transaction `parent`, under the id `id`.
pub open spec fn output_row(n: NormalizedOutput, parent: i32, id: i32) -> TransactionOutput {
    TransactionOutput { id, transaction_id: parent, address: n.address, value: n.value }
}

/// Builds the block row for `b` under the id `id`.
pub fn make_block_row(b: &BlockSummary, id: i32) -> (r: BlockInfo)
    ensures
        r == block_row(*b, id),
{
    BlockInfo {
        id,
        height: b.height,
        avg_tx_count: b.tx_count,
        difficulty: b.difficulty,
        block_time: b.block_time,
        timestamp: b.timestamp,
        size: b.size,
        weight: b.weight,
    }
}

/// Builds the transaction row for `t` in the block at `height`.
pub fn make_transaction_row(t: &NormalizedTransaction, height: i32, id: i32) -> (r: Transaction)
    ensures
        r == transaction_row(*t, height, id),
{
    Transaction {
        id,
        block_height: height,
        hash: t.hash.clone(),
        btc: t.btc,
        fee: t.fee,
        time: t.time,
    }
}

/// Builds the input row for `n` of the transaction `parent`.
pub fn make_input_row(n: &NormalizedInput, parent: i32, id: i32) -> (r: TransactionInput)
    ensures
        r == input_row(*n, parent, id),
{
    TransactionInput {
        id,
        transaction_id: parent,
        previous_output: n.previous_output.clone(),
        value: n.value,
    }
}

/// Builds the output row for `n` of the transaction `parent`.
pub fn make_output_row(n: &NormalizedOutput, parent: i32, id: i32) -> (r: TransactionOutput)
    ensures
        r == output_row(*n, parent, id),
{
    TransactionOutput { id, transaction_id: parent, address: n.address.clone(), value: n.value }
}

/// The record that the writer is busy with.
#[derive(Clone, Copy, Debug, PartialEq, Eq, Structural)]
pub enum Stage {
    /// The block summary.
    Summary,
    /// The transaction `tx` of the block.
    Transaction { tx: usize },
    /// The input `at` of the transaction `tx`.
    Input { tx: usize, at: usize },
    /// The output `at` of the transaction `tx`.
    Output { tx: usize, at: usize },
    /// Nothing is left to write.
    Finished,
}

/// The store operation that is outstanding for the record.
#[derive(Clone, Copy, Debug, PartialEq, Eq, Structural)]
pub enum Phase {
    /// The lookup of a row that may exist already.
    Lookup,
    /// The read of the table's greatest id.
    Latest,
    /// The insert of the row under the id `id`.
    Insert { id: i32 },
}

/// Where the writer stands.
#[derive(Clone, Copy, Debug, PartialEq, Eq, Structural)]
pub struct Cursor {
    pub stage: Stage,
    pub phase: Phase,
    /// The id reserved for the transaction row that the current inputs and
    /// outputs belong to, whether its insert was carried out or refused.
    pub parent: i32,
    /// The block summary was inserted in this run.
    pub summary_inserted: bool,
    /// At least one row was skipped because an operation failed.
    pub skipped: bool,
    /// The store was found unavailable, and the rows that were left were
    /// given up.
    pub unavailable: bool,
}

/// The stage for the transaction `tx`, or the end where there is none.
pub open spec fn transaction_stage(block: NormalizedBlock, tx: int) -> Stage {
    if tx < block.transactions@.len() {
        Stage::Transaction { tx: tx as usize }
    } else {
        Stage::Finished
    }
}

/// The stage for the output `at` of the transaction `tx`, or what follows
/// the transaction where it has no such output.
pub open spec fn output_stage(block: NormalizedBlock, tx: int, at: int) -> Stage {
    if at < block.transactions@[tx].outputs@.len() {
        Stage::Output { tx: tx as usize, at: at as usize }
    } else {
        transaction_stage(block, tx + 1)
    }
}

/// The stage for the input `at` of the transaction `tx`, or the first output
/// where it has no such input.
pub open spec fn input_stage(block: NormalizedBlock, tx: int, at: int) -> Stage {
    if at < block.transactions@[tx].inputs@.len() {
        Stage::Input { tx: tx as usize, at: at as usize }
    } else {
        output_stage(block, tx, 0)
    }
}

/// The stage names a record of `block`, in lists whose lengths a machine
/// word holds.
pub open spec fn stage_in_bounds(block: NormalizedBlock, stage: Stage) -> bool {
    match stage {
        Stage::Summary => true,
        Stage::Transaction { tx } => tx < block.transactions@.len() <= usize::MAX,
        Stage::Input { tx, at } => tx < block.transactions@.len() <= usize::MAX && at
            < block.transactions@[tx as int].inputs@.len() <= usize::MAX,
        Stage::Output { tx, at } => tx < block.transactions@.len() <= usize::MAX && at
            < block.transactions@[tx as int].outputs@.len() <= usize::MAX,
        Stage::Finished => true,
    }
}

/// The stage names a record of `block`, and a lookup is outstanding for the
/// summary only.
pub open spec fn in_bounds(block: NormalizedBlock, c: Cursor) -> bool {
    &&& stage_in_bounds(block, c.stage)
    &&& c.phase is Lookup ==> c.stage is Summary
}

/// Where a writer starts: at the lookup of the block summary.
pub open spec fn start() -> Cursor {
    Cursor {
        stage: Stage::Summary,
        phase: Phase::Lookup,
        parent: 0,
        summary_inserted: false,
        skipped: false,
        unavailable: false,
    }
}

/// The store operation that a writer at `c` asks for, none at the end.
pub open spec fn command_at(block: NormalizedBlock, c: Cursor) -> Option<StoreCommand> {
    match c.stage {
        Stage::Finished => None,
        Stage::Summary => Some(
            match c.phase {
                Phase::Lookup => StoreCommand::FindBlock { height: block.summary.height },
                Phase::Latest => StoreCommand::LatestId { table: Table::Blocks },
                Phase::Insert { id } => StoreCommand::InsertBlock {
                    row: block_row(block.summary, id),
                },
            },
        ),
        Stage::Transaction { tx } => Some(
            match c.phase {
                Phase::Insert { id } => StoreCommand::InsertTransaction {
                    row: transaction_row(block.transactions@[tx as int], block.summary.height, id),
                },
                _ => StoreCommand::LatestId { table: Table::Transactions },
            },
        ),
        Stage::Input { tx, at } => Some(
            match c.phase {
                Phase::Insert { id } => StoreCommand::InsertInput {
                    row: input_row(block.transactions@[tx as int].inputs@[at as int], c.parent, id),
                },
                _ => StoreCommand::LatestId { table: Table::Inputs },
            },
        ),
        Stage::Output { tx, at } => Some(
            match c.phase {
                Phase::Insert { id } => StoreCommand::InsertOutput {
                    row: output_row(
                        block.transactions@[tx as int].outputs@[at as int],
                        c.parent,
                        id,
                    ),
                },
                _ => StoreCommand::LatestId { table: Table::Outputs },
            },
        ),
    }
}

/// The stage that follows the record at `stage` once it is written or
/// skipped. The inputs and outputs of a transaction follow it.
pub open spec fn following(block: NormalizedBlock, stage: Stage) -> Stage {
    match stage {
        Stage::Summary => transaction_stage(block, 0),
        Stage::Transaction { tx } => input_stage(block, tx as int, 0),
        Stage::Input { tx, at } => input_stage(block, tx as int, at + 1),
        Stage::Output { tx, at } => output_stage(block, tx as int, at + 1),
        Stage::Finished => Stage::Finished,
    }
}

/// The stage that follows the record at `stage` where no id could be had
/// for it. A transaction without an id takes its inputs and outputs with
/// it: they have no transaction id to carry.
pub open spec fn following_skip(block: NormalizedBlock, stage: Stage) -> Stage {
    match stage {
        Stage::Transaction { tx } => transaction_stage(block, tx + 1),
        _ => following(block, stage),
    }
}

/// The cursor after the record at `c` was given up before an id was
/// reserved for it.
pub open spec fn skipped_from(block: NormalizedBlock, c: Cursor) -> Cursor {
    Cursor { stage: following_skip(block, c.stage), phase: Phase::Latest, skipped: true, ..c }
}

/// The cursor after the insert of the record at `c` under the id `id` was
/// refused: that single row is skipped. The inputs and outputs of a refused
/// transaction row are still written, under the id reserved for it.
pub open spec fn refused_from(block: NormalizedBlock, c: Cursor, id: i32) -> Cursor {
    Cursor {
        stage: following(block, c.stage),
        phase: Phase::Latest,
        parent: if c.stage is Transaction {
            id
        } else {
            c.parent
        },
        skipped: true,
        ..c
    }
}

/// The cursor after the store has answered `reply` to the operation that the
/// writer at `c` asked for.
///
/// A summary whose height is found is left alone. A row whose insert fails
/// or is answered out of turn is skipped, that row alone: every row after it
/// is still attempted, the inputs and outputs of a refused transaction row
/// included. A row for which no id can be had, because its table has none
/// left or the lookup or the read of the greatest id fails, is skipped too,
/// and with a transaction its inputs and outputs. Where the store is
/// unavailable, the row and all that are left are given up.
pub open spec fn advanced(block: NormalizedBlock, c: Cursor, reply: StoreReply) -> Cursor {
    match c.stage {
        Stage::Finished => c,
        _ => match (c.phase, reply) {
            (_, StoreReply::Failed { error: SyncError::StoreUnavailable }) => Cursor {
                stage: Stage::Finished,
                phase: Phase::Latest,
                skipped: true,
                unavailable: true,
                ..c
            },
            (Phase::Lookup, StoreReply::Found { id: Some(_) }) => Cursor {
                stage: following(block, c.stage),
                phase: Phase::Latest,
                ..c
            },
            (Phase::Lookup, StoreReply::Found { id: None }) => Cursor { phase: Phase::Latest, ..c },
            (Phase::Latest, StoreReply::Latest { id }) => match next_id(id) {
                Some(n) => Cursor { phase: Phase::Insert { id: n }, ..c },
                None => skipped_from(block, c),
            },
            (Phase::Insert { id }, StoreReply::Done) => Cursor {
                stage: following(block, c.stage),
                phase: Phase::Latest,
                parent: if c.stage is Transaction {
                    id
                } else {
                    c.parent
                },
                summary_inserted: c.summary_inserted || c.stage is Summary,
                ..c
            },
            (Phase::Insert { id }, _) => refused_from(block, c, id),
            _ => skipped_from(block, c),
        },
    }
}

/// A cursor that names a record of the block names one still after any
/// reply.
pub proof fn lemma_replies_keep_in_bounds(block: NormalizedBlock, c: Cursor, reply: StoreReply)
    requires
        in_bounds(block, c),
    ensures
        in_bounds(block, advanced(block, c, reply)),
{
    let txs = block.transactions;
    assert(txs.len() == txs@.len());
    assert forall|i: int| 0 <= i < txs@.len() implies (#[trigger] txs@[i]).inputs@.len()
        <= usize::MAX && txs@[i].outputs@.len() <= usize::MAX by {
        assert(txs@[i].inputs.len() == txs@[i].inputs@.len());
        assert(txs@[i].outputs.len() == txs@[i].outputs@.len());
    }
}

/// A refused insert skips that single row: the writer goes on with the
/// record that follows, and under a refused transaction row its inputs and
/// outputs carry the id that was reserved for it.
pub proof fn law_refused_insert_skips_one_row(
    block: NormalizedBlock,
    c: Cursor,
    id: i32,
    reply: StoreReply,
)
    requires
        !(c.stage is Finished),
        c.phase == (Phase::Insert { id }),
        !(reply is Done),
        reply != (StoreReply::Failed { error: SyncError::StoreUnavailable }),
    ensures
        advanced(block, c, reply).stage == following(block, c.stage),
        advanced(block, c, reply).skipped,
        !advanced(block, c, reply).unavailable || c.unavailable,
        advanced(block, c, reply).summary_inserted == c.summary_inserted,
        c.stage is Transaction ==> advanced(block, c, reply).parent == id,
        !(c.stage is Transaction) ==> advanced(block, c, reply).parent == c.parent,
{
}

/// The writer of one normalized block.
pub struct BlockWriter {
    block: NormalizedBlock,
    cursor: Cursor,
}

impl BlockWriter {
    #[verifier::type_invariant]
    spec fn consistent(self) -> bool {
        in_bounds(self.block, self.cursor)
    }

    /// The block that is written.
    pub closed spec fn block(&self) -> NormalizedBlock {
        self.block
    }

    /// Where the writer stands.
    pub closed spec fn cursor(&self) -> Cursor {
        self.cursor
    }

    /// A writer for `block`, before its first operation.
    pub fn new(block: NormalizedBlock) -> (w: BlockWriter)
        ensures
            w.block() == block,
            w.cursor() == start(),
            in_bounds(w.block(), w.cursor()),
    {
        BlockWriter {
            block,
            cursor: Cursor {
                stage: Stage::Summary,
                phase: Phase::Lookup,
                parent: 0,
                summary_inserted: false,
                skipped: false,
                unavailable: false,
            },
        }
    }

    /// Where the writer stands.
    pub fn position(&self) -> (c: Cursor)
        ensures
            c == self.cursor(),
            in_bounds(self.block(), c),
    {
        proof {
            use_type_invariant(self);
        }
        self.cursor
    }

    /// Whether nothing is left to write.
    pub fn is_finished(&self) -> (r: bool)
        ensures
            r == (self.cursor().stage is Finished),
    {
        match self.cursor.stage {
            Stage::Finished => true,
            _ => false,
        }
    }

    /// The store operation to carry out next, none at the end.
    pub fn command(&self) -> (r: Option<StoreCommand>)
        ensures
            r == command_at(self.block(), self.cursor()),
    {
        proof {
            use_type_invariant(self);
        }
        let height = self.block.summary.height;
        match self.cursor.stage {
            Stage::Finished => None,
            Stage::Summary => Some(
                match self.cursor.phase {
                    Phase::Lookup => StoreCommand::FindBlock { height },
                    Phase::Latest => StoreCommand::LatestId { table: Table::Blocks },
                    Phase::Insert { id } => StoreCommand::InsertBlock {
                        row: make_block_row(&self.block.summary, id),
                    },
                },
            ),
            Stage::Transaction { tx } => Some(
                match self.cursor.phase {
                    Phase::Insert { id } => StoreCommand::InsertTransaction {
                        row: make_transaction_row(&self.block.transactions[tx], height, id),
                    },
                    _ => StoreCommand::LatestId { table: Table::Transactions },
                },
            ),
            Stage::Input { tx, at } => Some(
                match self.cursor.phase {
                    Phase::Insert { id } => StoreCommand::InsertInput {
                        row: make_input_row(
                            &self.block.transactions[tx].inputs[at],
                            self.cursor.parent,
                            id,
                        ),
                    },
                    _ => StoreCommand::LatestId { table: Table::Inputs },
                },
            ),
            Stage::Output { tx, at } => Some(
                match self.cursor.phase {
                    Phase::Insert { id } => StoreCommand::InsertOutput {
                        row: make_output_row(
                            &self.block.transactions[tx].outputs[at],
                            self.cursor.parent,
                            id,
                        ),
                    },
                    _ => StoreCommand::LatestId { table: Table::Outputs },
                },
            ),
        }
    }

    /// The stage of the transaction after `tx`.
    fn after_transaction(&self, tx: usize) -> (s: Stage)
        requires
            tx < self.block.transactions@.len(),
        ensures
            s == transaction_stage(self.block, tx + 1),
            stage_in_bounds(self.block, s),
    {
        if tx < self.block.transactions.len() - 1 {
            Stage::Transaction { tx: tx + 1 }
        } else {
            Stage::Finished
        }
    }

    /// The stage of the first output of `tx`.
    fn first_output(&self, tx: usize) -> (s: Stage)
        requires
            tx < self.block.transactions@.len() <= usize::MAX,
        ensures
            s == output_stage(self.block, tx as int, 0),
            stage_in_bounds(self.block, s),
    {
        if 0 < self.block.transactions[tx].outputs.len() {
            Stage::Output { tx, at: 0 }
        } else {
            self.after_transaction(tx)
        }
    }

    /// The stage of the first input of `tx`.
    fn first_input(&self, tx: usize) -> (s: Stage)
        requires
            tx < self.block.transactions@.len() <= usize::MAX,
        ensures
            s == input_stage(self.block, tx as int, 0),
            stage_in_bounds(self.block, s),
    {
        if 0 < self.block.transactions[tx].inputs.len() {
            Stage::Input { tx, at: 0 }
        } else {
            self.first_output(tx)
        }
    }

    fn following(&self) -> (s: Stage)
        ensures
            s == following(self.block, self.cursor.stage),
            stage_in_bounds(self.block, s),
    {
        proof {
            use_type_invariant(self);
        }
        match self.cursor.stage {
            Stage::Summary => if 0 < self.block.transactions.len() {
                Stage::Transaction { tx: 0 }
            } else {
                Stage::Finished
            },
            Stage::Transaction { tx } => self.first_input(tx),
            Stage::Input { tx, at } => if at < self.block.transactions[tx].inputs.len() - 1 {
                Stage::Input { tx, at: at + 1 }
            } else {
                self.first_output(tx)
            },
            Stage::Output { tx, at } => if at < self.block.transactions[tx].outputs.len() - 1 {
                Stage::Output { tx, at: at + 1 }
            } else {
                self.after_transaction(tx)
            },
            Stage::Finished => Stage::Finished,
        }
    }

    fn following_skip(&self) -> (s: Stage)
        ensures
            s == following_skip(self.block, self.cursor.stage),
            stage_in_bounds(self.block, s),
    {
        proof {
            use_type_invariant(self);
        }
        match self.cursor.stage {
            Stage::Transaction { tx } => self.after_transaction(tx),
            _ => self.following(),
        }
    }

    /// Takes the store's answer to the operation that `command` gave.
    pub fn on_reply(&mut self, reply: StoreReply)
        ensures
            final(self).block() == old(self).block(),
            final(self).cursor() == advanced(old(self).block(), old(self).cursor(), reply),
            in_bounds(final(self).block(), final(self).cursor()),
    {
        proof {
            use_type_invariant(&*self);
        }
        let c = self.cursor;
        let next = match c.stage {
            Stage::Finished => c,
            _ => match (c.phase, reply) {
                (_, StoreReply::Failed { error: SyncError::StoreUnavailable }) => Cursor {
                    stage: Stage::Finished,
                    phase: Phase::Latest,
                    skipped: true,
                    unavailable: true,
                    ..c
                },
                (Phase::Lookup, StoreReply::Found { id: Some(_) }) => Cursor {
                    stage: self.following(),
                    phase: Phase::Latest,
                    ..c
                },
                (Phase::Lookup, StoreReply::Found { id: None }) => Cursor {
                    phase: Phase::Latest,
                    ..c
                },
                (Phase::Latest, StoreReply::Latest { id }) => match reserve_id(id) {
                    Some(n) => Cursor { phase: Phase::Insert { id: n }, ..c },
                    None => Cursor {
                        stage: self.following_skip(),
                        phase: Phase::Latest,
                        skipped: true,
                        ..c
                    },
                },
                (Phase::Insert { id }, StoreReply::Done) => Cursor {
                    stage: self.following(),
                    phase: Phase::Latest,
                    parent: match c.stage {
                        Stage::Transaction { .. } => id,
                        _ => c.parent,
                    },
                    summary_inserted: c.summary_inserted || matches!(c.stage, Stage::Summary),
                    ..c
                },
                (Phase::Insert { id }, _) => Cursor {
                    stage: self.following(),
                    phase: Phase::Latest,
                    parent: match c.stage {
                        Stage::Transaction { .. } => id,
                        _ => c.parent,
                    },
                    skipped: true,
                    ..c
                },
                _ => Cursor {
                    stage: self.following_skip(),
                    phase: Phase::Latest,
                    skipped: true,
                    ..c
                },
            },
        };
        self.cursor = next;
    }
}

} // verus!
