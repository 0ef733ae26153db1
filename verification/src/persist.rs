//! What persisting a block does to a store, stated directly, and the run of
//! the writer against the in-memory store.

use crate::decompose::{
    BlockSummary, NormalizedBlock, NormalizedInput, NormalizedOutput, NormalizedTransaction,
};
use crate::model::BlockInfo;
use crate::store::{
    applied, find_block, greatest, ids, lemma_push_keeps_keys_unique, primary_keys_hold, reply_to,
    Store, StoreContents, StoreReply,
};
use crate::writer::{
    advanced, block_row, command_at, in_bounds, input_row, input_stage, lemma_next_id_is_free,
    lemma_replies_keep_in_bounds,
    next_id, output_row, output_stage, start, transaction_row, transaction_stage, BlockWriter,
    Cursor, Phase, Stage,
};
use vstd::prelude::*;

verus! {

/// The contents of a store while rows are added, and whether a row had to be
/// skipped on the way.
pub ghost struct Progress {
    pub store: StoreContents,
    pub skipped: bool,
}

/// Adds the block summary unless a row of its height exists. The row is
/// skipped where the table has no id left.
pub open spec fn put_summary(p: Progress, b: BlockSummary) -> Progress {
    if find_block(p.store.blocks, b.height) is Some {
        p
    } else {
        match next_id(greatest(ids(p.store.blocks))) {
            Some(id) => Progress {
                store: StoreContents { blocks: p.store.blocks.push(block_row(b, id)), ..p.store },
                ..p
            },
            None => Progress { skipped: true, ..p },
        }
    }
}

/// Adds one input row of the transaction `parent`.
pub open spec fn put_input(p: Progress, parent: i32, n: NormalizedInput) -> Progress {
    match next_id(greatest(ids(p.store.inputs))) {
        Some(id) => Progress {
            store: StoreContents {
                inputs: p.store.inputs.push(input_row(n, parent, id)),
                ..p.store
            },
            ..p
        },
        None => Progress { skipped: true, ..p },
    }
}

/// Adds the input rows of the transaction `parent`, in order.
pub open spec fn put_inputs(p: Progress, parent: i32, inputs: Seq<NormalizedInput>) -> Progress
    decreases inputs.len(),
{
    if inputs.len() == 0 {
        p
    } else {
        put_inputs(put_input(p, parent, inputs.first()), parent, inputs.drop_first())
    }
}

/// Adds one output row of the transaction `parent`.
pub open spec fn put_output(p: Progress, parent: i32, n: NormalizedOutput) -> Progress {
    match next_id(greatest(ids(p.store.outputs))) {
        Some(id) => Progress {
            store: StoreContents {
                outputs: p.store.outputs.push(output_row(n, parent, id)),
                ..p.store
            },
            ..p
        },
        None => Progress { skipped: true, ..p },
    }
}

/// Adds the output rows of the transaction `parent`, in order.
pub open spec fn put_outputs(p: Progress, parent: i32, outputs: Seq<NormalizedOutput>) -> Progress
    decreases outputs.len(),
{
    if outputs.len() == 0 {
        p
    } else {
        put_outputs(put_output(p, parent, outputs.first()), parent, outputs.drop_first())
    }
}

/// Adds one transaction of the block at `height`: its row, then its inputs,
/// then its outputs, each linked to the id that the row was given. Where the
/// transaction table has no id left, the transaction is skipped with its
/// inputs and outputs.
pub open spec fn put_transaction(p: Progress, height: i32, t: NormalizedTransaction) -> Progress {
    match next_id(greatest(ids(p.store.transactions))) {
        Some(id) => put_outputs(
            put_inputs(
                Progress {
                    store: StoreContents {
                        transactions: p.store.transactions.push(transaction_row(t, height, id)),
                        ..p.store
                    },
                    ..p
                },
                id,
                t.inputs@,
            ),
            id,
            t.outputs@,
        ),
        None => Progress { skipped: true, ..p },
    }
}

/// Adds the transactions of the block at `height`, in order.
pub open spec fn put_transactions(
    p: Progress,
    height: i32,
    transactions: Seq<NormalizedTransaction>,
) -> Progress
    decreases transactions.len(),
{
    if transactions.len() == 0 {
        p
    } else {
        put_transactions(
            put_transaction(p, height, transactions.first()),
            height,
            transactions.drop_first(),
        )
    }
}

/// The store after `block` was persisted into the contents `s`: the summary
/// unless its height is present, then every transaction with its inputs and
/// outputs, whether or not the summary was new.
pub open spec fn persisted(s: StoreContents, block: NormalizedBlock) -> Progress {
    put_transactions(
        put_summary(Progress { store: s, skipped: false }, block.summary),
        block.summary.height,
        block.transactions@,
    )
}

/// Persisting `b` into `s` inserts a summary row: no row of its height
/// exists, and the block table has an id left.
pub open spec fn summary_is_new(s: StoreContents, b: BlockSummary) -> bool {
    find_block(s.blocks, b.height) is None && next_id(greatest(ids(s.blocks))) is Some
}

/// How a run of the writer ended.
#[derive(Clone, Copy, Debug, PartialEq, Eq, Structural)]
pub struct PersistReport {
    /// The block summary was inserted.
    pub summary_inserted: bool,
    /// At least one row was skipped.
    pub skipped: bool,
}

/// What is left to do from `stage` on, applied to `p`.
spec fn rest_from(block: NormalizedBlock, stage: Stage, parent: i32, p: Progress) -> Progress {
    let height = block.summary.height;
    let txs = block.transactions@;
    match stage {
        Stage::Summary => put_transactions(put_summary(p, block.summary), height, txs),
        Stage::Transaction { tx } => put_transactions(p, height, txs.skip(tx as int)),
        Stage::Input { tx, at } => put_transactions(
            put_outputs(
                put_inputs(p, parent, txs[tx as int].inputs@.skip(at as int)),
                parent,
                txs[tx as int].outputs@,
            ),
            height,
            txs.skip(tx + 1),
        ),
        Stage::Output { tx, at } => put_transactions(
            put_outputs(p, parent, txs[tx as int].outputs@.skip(at as int)),
            height,
            txs.skip(tx + 1),
        ),
        Stage::Finished => p,
    }
}

/// What is left to do for a writer at `c` on the contents `s`.
spec fn rest(block: NormalizedBlock, c: Cursor, s: StoreContents) -> Progress {
    rest_from(block, c.stage, c.parent, Progress { store: s, skipped: c.skipped })
}

/// What the writer has learnt in the phases before `c.phase` still holds of
/// the contents `s`.
spec fn coherent(block: NormalizedBlock, c: Cursor, s: StoreContents) -> bool {
    &&& c.stage is Summary && !(c.phase is Lookup) ==> find_block(
        s.blocks,
        block.summary.height,
    ) is None
    &&& c.phase matches Phase::Insert { id } ==> match c.stage {
        Stage::Summary => next_id(greatest(ids(s.blocks))) == Some(id),
        Stage::Transaction { .. } => next_id(greatest(ids(s.transactions))) == Some(id),
        Stage::Input { .. } => next_id(greatest(ids(s.inputs))) == Some(id),
        Stage::Output { .. } => next_id(greatest(ids(s.outputs))) == Some(id),
        Stage::Finished => true,
    }
}

/// The transactions that are not finished yet, the summary counted as one more.
pub open spec fn pending_transactions(block: NormalizedBlock, stage: Stage) -> int {
    match stage {
        Stage::Summary => block.transactions@.len() as int + 1,
        Stage::Transaction { tx } => block.transactions@.len() - tx,
        Stage::Input { tx, .. } => block.transactions@.len() - tx,
        Stage::Output { tx, .. } => block.transactions@.len() - tx,
        Stage::Finished => 0,
    }
}

/// The part of a transaction that the stage is in: row, inputs, outputs.
pub open spec fn pending_part(stage: Stage) -> int {
    match stage {
        Stage::Transaction { .. } => 3,
        Stage::Input { .. } => 2,
        Stage::Output { .. } => 1,
        _ => 0,
    }
}

/// The records of the current part that are not finished yet.
pub open spec fn pending_records(block: NormalizedBlock, stage: Stage) -> int {
    match stage {
        Stage::Input { tx, at } => block.transactions@[tx as int].inputs@.len() - at,
        Stage::Output { tx, at } => block.transactions@[tx as int].outputs@.len() - at,
        _ => 0,
    }
}

/// The operations that the current record may still need.
pub open spec fn pending_operations(phase: Phase) -> int {
    match phase {
        Phase::Lookup => 3,
        Phase::Latest => 2,
        Phase::Insert { .. } => 1,
    }
}

/// The writer at `c2` is strictly closer to its end than the writer at `c`:
/// it has fewer transactions left, or else fewer parts of the transaction,
/// or else fewer records of the part, or else fewer operations of the record.
pub open spec fn closer(block: NormalizedBlock, c2: Cursor, c: Cursor) -> bool {
    let a2 = pending_transactions(block, c2.stage);
    let a = pending_transactions(block, c.stage);
    let b2 = pending_part(c2.stage);
    let b = pending_part(c.stage);
    let r2 = pending_records(block, c2.stage);
    let r = pending_records(block, c.stage);
    let o2 = pending_operations(c2.phase);
    let o = pending_operations(c.phase);
    a2 < a || (a2 == a && (b2 < b || (b2 == b && (r2 < r || (r2 == r && o2 < o)))))
}

proof fn lemma_transaction_stage(block: NormalizedBlock, tx: int, parent: i32, p: Progress)
    requires
        0 <= tx <= block.transactions@.len(),
        tx <= usize::MAX,
    ensures
        rest_from(block, transaction_stage(block, tx), parent, p) == put_transactions(
            p,
            block.summary.height,
            block.transactions@.skip(tx),
        ),
{
}

proof fn lemma_output_stage(block: NormalizedBlock, tx: int, at: int, parent: i32, p: Progress)
    requires
        0 <= tx < block.transactions@.len() <= usize::MAX,
        0 <= at <= block.transactions@[tx].outputs@.len(),
        at <= usize::MAX,
    ensures
        rest_from(block, output_stage(block, tx, at), parent, p) == put_transactions(
            put_outputs(p, parent, block.transactions@[tx].outputs@.skip(at)),
            block.summary.height,
            block.transactions@.skip(tx + 1),
        ),
{
    lemma_transaction_stage(block, tx + 1, parent, p);
}

proof fn lemma_input_stage(block: NormalizedBlock, tx: int, at: int, parent: i32, p: Progress)
    requires
        0 <= tx < block.transactions@.len() <= usize::MAX,
        0 <= at <= block.transactions@[tx].inputs@.len(),
        at <= usize::MAX,
    ensures
        rest_from(block, input_stage(block, tx, at), parent, p) == put_transactions(
            put_outputs(
                put_inputs(p, parent, block.transactions@[tx].inputs@.skip(at)),
                parent,
                block.transactions@[tx].outputs@,
            ),
            block.summary.height,
            block.transactions@.skip(tx + 1),
        ),
{
    lemma_output_stage(block, tx, 0, parent, p);
    assert(block.transactions@[tx].outputs@.skip(0) == block.transactions@[tx].outputs@);
}

/// Whatever the store answers, the answer brings a writer that has not ended
/// strictly closer to its end: no failure can make it ask for ever.
pub proof fn law_every_reply_moves_the_writer(
    block: NormalizedBlock,
    c: Cursor,
    reply: StoreReply,
)
    requires
        in_bounds(block, c),
        !(c.stage is Finished),
    ensures
        closer(block, advanced(block, c, reply), c),
{
}

/// One exchange with the in-memory store leaves the result of the whole run
/// unchanged.
proof fn lemma_step(block: NormalizedBlock, c: Cursor, s: StoreContents)
    requires
        in_bounds(block, c),
        coherent(block, c, s),
        !(c.stage is Finished),
    ensures
        ({
            let command = command_at(block, c)->0;
            let c2 = advanced(block, c, reply_to(s, command));
            let s2 = applied(s, command);
            &&& command_at(block, c) is Some
            &&& coherent(block, c2, s2)
            &&& rest(block, c2, s2) == rest(block, c, s)
            &&& c.stage is Summary && c2.stage is Summary ==> s2 == s && c2.summary_inserted
                == c.summary_inserted && c2.skipped == c.skipped
            &&& c.stage is Summary && !(c2.stage is Summary) ==> c2.summary_inserted == (
            c.summary_inserted || summary_is_new(s, block.summary))
            &&& !(c.stage is Summary) ==> !(c2.stage is Summary) && c2.summary_inserted
                == c.summary_inserted
            &&& c2.unavailable == c.unavailable
        }),
{
    let command = command_at(block, c)->0;
    let reply = reply_to(s, command);
    let c2 = advanced(block, c, reply);
    let s2 = applied(s, command);
    let p = Progress { store: s, skipped: c.skipped };
    let p2 = Progress { store: s2, skipped: c2.skipped };
    let txs = block.transactions@;
    lemma_next_id_is_free(ids(s.blocks));
    lemma_next_id_is_free(ids(s.transactions));
    lemma_next_id_is_free(ids(s.inputs));
    lemma_next_id_is_free(ids(s.outputs));
    match c.stage {
        Stage::Summary => {
            lemma_transaction_stage(block, 0, c2.parent, p2);
            assert(txs.skip(0) == txs);
        },
        Stage::Transaction { tx } => {
            assert(txs.skip(tx as int).first() == txs[tx as int]);
            assert(txs.skip(tx as int).drop_first() == txs.skip(tx + 1));
            lemma_transaction_stage(block, tx + 1, c2.parent, p2);
            lemma_input_stage(block, tx as int, 0, c2.parent, p2);
            assert(txs[tx as int].inputs@.skip(0) == txs[tx as int].inputs@);
        },
        Stage::Input { tx, at } => {
            let inputs = txs[tx as int].inputs@;
            assert(inputs.skip(at as int).first() == inputs[at as int]);
            assert(inputs.skip(at as int).drop_first() == inputs.skip(at + 1));
            lemma_input_stage(block, tx as int, at + 1, c2.parent, p2);
        },
        Stage::Output { tx, at } => {
            let outputs = txs[tx as int].outputs@;
            assert(outputs.skip(at as int).first() == outputs[at as int]);
            assert(outputs.skip(at as int).drop_first() == outputs.skip(at + 1));
            lemma_output_stage(block, tx as int, at + 1, c2.parent, p2);
        },
        Stage::Finished => {},
    }
}

/// A writer of `block` that stands at `c`, run on the in-memory store from
/// the contents `initial` and now at the contents `s`, is on its way to
/// what persisting `block` into `initial` gives.
pub closed spec fn on_track(
    block: NormalizedBlock,
    c: Cursor,
    s: StoreContents,
    initial: StoreContents,
) -> bool {
    &&& coherent(block, c, s)
    &&& rest(block, c, s) == persisted(initial, block)
    &&& !c.unavailable
    &&& c.stage is Summary ==> s == initial && !c.summary_inserted
    &&& !(c.stage is Summary) ==> c.summary_inserted == summary_is_new(initial, block.summary)
}

/// A writer that has not begun is on its way.
pub proof fn lemma_run_starts(block: NormalizedBlock, initial: StoreContents)
    ensures
        on_track(block, start(), initial, initial),
{
}

/// A writer on its way asks for an operation, and is on its way still when
/// the in-memory store has carried it out and answered.
pub proof fn lemma_run_goes_on(
    block: NormalizedBlock,
    c: Cursor,
    s: StoreContents,
    initial: StoreContents,
)
    requires
        in_bounds(block, c),
        on_track(block, c, s, initial),
        !(c.stage is Finished),
    ensures
        command_at(block, c) is Some,
        on_track(
            block,
            advanced(block, c, reply_to(s, command_at(block, c)->0)),
            applied(s, command_at(block, c)->0),
            initial,
        ),
{
    lemma_step(block, c, s);
}

/// A writer on its way that has ended has arrived.
pub proof fn lemma_run_ends(
    block: NormalizedBlock,
    c: Cursor,
    s: StoreContents,
    initial: StoreContents,
)
    requires
        on_track(block, c, s, initial),
        c.stage is Finished,
    ensures
        s == persisted(initial, block).store,
        c.skipped == persisted(initial, block).skipped,
        c.summary_inserted == summary_is_new(initial, block.summary),
        !c.unavailable,
{
}

/// Where a run of the writer has ended, and on what contents.
pub ghost struct Ended {
    pub cursor: Cursor,
    pub store: StoreContents,
}

/// Where a writer of `block` that stands at `c` ends when the in-memory
/// store with the contents `s` carries out each operation that it asks for.
pub open spec fn run(block: NormalizedBlock, c: Cursor, s: StoreContents) -> Ended
    decreases
        pending_transactions(block, c.stage),
        pending_part(c.stage),
        pending_records(block, c.stage),
        pending_operations(c.phase),
{
    match command_at(block, c) {
        Some(command) if in_bounds(block, c) => run(
            block,
            advanced(block, c, reply_to(s, command)),
            applied(s, command),
        ),
        _ => Ended { cursor: c, store: s },
    }
}

/// A writer on its way runs to its end, and there it has arrived.
pub proof fn lemma_run_arrives(
    block: NormalizedBlock,
    c: Cursor,
    s: StoreContents,
    initial: StoreContents,
)
    requires
        in_bounds(block, c),
        on_track(block, c, s, initial),
    ensures
        run(block, c, s).cursor.stage is Finished,
        run(block, c, s).store == persisted(initial, block).store,
        run(block, c, s).cursor.skipped == persisted(initial, block).skipped,
        run(block, c, s).cursor.summary_inserted == summary_is_new(initial, block.summary),
        !run(block, c, s).cursor.unavailable,
    decreases
        pending_transactions(block, c.stage),
        pending_part(c.stage),
        pending_records(block, c.stage),
        pending_operations(c.phase),
{
    if c.stage is Finished {
        lemma_run_ends(block, c, s, initial);
    } else {
        let command = command_at(block, c)->0;
        let reply = reply_to(s, command);
        lemma_run_goes_on(block, c, s, initial);
        lemma_replies_keep_in_bounds(block, c, reply);
        law_every_reply_moves_the_writer(block, c, reply);
        lemma_run_arrives(block, advanced(block, c, reply), applied(s, command), initial);
    }
}

/// Run from its start, the writer leaves the store as persisting the block
/// does.
pub proof fn law_run_persists(block: NormalizedBlock, s: StoreContents)
    ensures
        run(block, start(), s).cursor.stage is Finished,
        run(block, start(), s).store == persisted(s, block).store,
        run(block, start(), s).cursor.skipped == persisted(s, block).skipped,
        run(block, start(), s).cursor.summary_inserted == summary_is_new(s, block.summary),
        !run(block, start(), s).cursor.unavailable,
{
    lemma_run_starts(block, s);
    lemma_run_arrives(block, start(), s, s);
}

/// Persists `block` into the in-memory store: runs a writer to its end, each
/// of its operations carried out by the store.
pub fn persist(store: &mut Store, block: NormalizedBlock) -> (report: PersistReport)
    ensures
        final(store)@ == persisted(old(store)@, block).store,
        report.skipped == persisted(old(store)@, block).skipped,
        report.summary_inserted == summary_is_new(old(store)@, block.summary),
{
    let ghost initial = store@;
    let mut writer = BlockWriter::new(block);
    proof {
        lemma_run_starts(block, initial);
    }
    loop
        invariant
            writer.block() == block,
            in_bounds(block, writer.cursor()),
            on_track(block, writer.cursor(), store@, initial),
        ensures
            writer.cursor().stage is Finished,
            on_track(block, writer.cursor(), store@, initial),
        decreases
            pending_transactions(block, writer.cursor().stage),
            pending_part(writer.cursor().stage),
            pending_records(block, writer.cursor().stage),
            pending_operations(writer.cursor().phase),
    {
        proof {
            if !(writer.cursor().stage is Finished) {
                let command = command_at(block, writer.cursor())->0;
                lemma_run_goes_on(block, writer.cursor(), store@, initial);
                law_every_reply_moves_the_writer(
                    block,
                    writer.cursor(),
                    reply_to(store@, command),
                );
            }
        }
        match writer.command() {
            Some(command) => {
                let reply = store.execute(command);
                writer.on_reply(reply);
            },
            None => {
                break ;
            },
        }
    }
    let at = writer.position();
    proof {
        lemma_run_ends(block, at, store@, initial);
    }
    PersistReport { summary_inserted: at.summary_inserted, skipped: at.skipped }
}

/// The number of block rows at `height`.
pub open spec fn rows_at_height(rows: Seq<BlockInfo>, height: i32) -> nat
    decreases rows.len(),
{
    if rows.len() == 0 {
        0
    } else {
        rows_at_height(rows.drop_last(), height) + if rows.last().height == height {
            1nat
        } else {
            0nat
        }
    }
}

/// A lookup finds a block row exactly where the table holds one of that height.
pub proof fn lemma_found_iff_present(rows: Seq<BlockInfo>, height: i32)
    ensures
        find_block(rows, height) is Some <==> rows_at_height(rows, height) > 0,
    decreases rows.len(),
{
    if rows.len() > 0 {
        lemma_found_iff_present(rows.drop_last(), height);
    }
}

proof fn lemma_inputs_keep_blocks(p: Progress, parent: i32, inputs: Seq<NormalizedInput>)
    ensures
        put_inputs(p, parent, inputs).store.blocks == p.store.blocks,
        put_inputs(p, parent, inputs).store.samples == p.store.samples,
        put_inputs(p, parent, inputs).store.transactions == p.store.transactions,
        put_inputs(p, parent, inputs).store.outputs == p.store.outputs,
    decreases inputs.len(),
{
    if inputs.len() > 0 {
        lemma_inputs_keep_blocks(put_input(p, parent, inputs.first()), parent, inputs.drop_first());
    }
}

proof fn lemma_outputs_keep_blocks(p: Progress, parent: i32, outputs: Seq<NormalizedOutput>)
    ensures
        put_outputs(p, parent, outputs).store.blocks == p.store.blocks,
        put_outputs(p, parent, outputs).store.samples == p.store.samples,
        put_outputs(p, parent, outputs).store.transactions == p.store.transactions,
        put_outputs(p, parent, outputs).store.inputs == p.store.inputs,
    decreases outputs.len(),
{
    if outputs.len() > 0 {
        lemma_outputs_keep_blocks(
            put_output(p, parent, outputs.first()),
            parent,
            outputs.drop_first(),
        );
    }
}

/// Writing transactions touches neither the block table nor the samples.
pub proof fn lemma_transactions_keep_blocks(
    p: Progress,
    height: i32,
    transactions: Seq<NormalizedTransaction>,
)
    ensures
        put_transactions(p, height, transactions).store.blocks == p.store.blocks,
        put_transactions(p, height, transactions).store.samples == p.store.samples,
    decreases transactions.len(),
{
    if transactions.len() > 0 {
        let t = transactions.first();
        match next_id(greatest(ids(p.store.transactions))) {
            Some(id) => {
                let with_row = Progress {
                    store: StoreContents {
                        transactions: p.store.transactions.push(transaction_row(t, height, id)),
                        ..p.store
                    },
                    ..p
                };
                lemma_inputs_keep_blocks(with_row, id, t.inputs@);
                lemma_outputs_keep_blocks(put_inputs(with_row, id, t.inputs@), id, t.outputs@);
            },
            None => {},
        }
        lemma_transactions_keep_blocks(
            put_transaction(p, height, t),
            height,
            transactions.drop_first(),
        );
    }
}

/// The block table after `block` was persisted into `s` is the block table
/// after its summary alone was.
pub proof fn lemma_persisted_blocks(s: StoreContents, block: NormalizedBlock)
    ensures
        persisted(s, block).store.blocks == put_summary(
            Progress { store: s, skipped: false },
            block.summary,
        ).store.blocks,
{
    lemma_transactions_keep_blocks(
        put_summary(Progress { store: s, skipped: false }, block.summary),
        block.summary.height,
        block.transactions@,
    );
}

/// A block whose height the store holds no row of leaves exactly one summary
/// row of that height, and that row carries the block's summary, provided
/// the block table has an id left.
pub proof fn law_first_observation_adds_one_summary(s: StoreContents, block: NormalizedBlock)
    requires
        rows_at_height(s.blocks, block.summary.height) == 0,
        next_id(greatest(ids(s.blocks))) is Some,
    ensures
        rows_at_height(persisted(s, block).store.blocks, block.summary.height) == 1,
        persisted(s, block).store.blocks == s.blocks.push(
            block_row(block.summary, next_id(greatest(ids(s.blocks)))->0),
        ),
{
    lemma_persisted_blocks(s, block);
    lemma_found_iff_present(s.blocks, block.summary.height);
    let row = block_row(block.summary, next_id(greatest(ids(s.blocks)))->0);
    assert(s.blocks.push(row).drop_last() == s.blocks);
}

/// A block whose height the store holds a row of adds no summary row.
pub proof fn law_known_height_adds_no_summary(s: StoreContents, block: NormalizedBlock)
    requires
        rows_at_height(s.blocks, block.summary.height) > 0,
    ensures
        persisted(s, block).store.blocks == s.blocks,
{
    lemma_persisted_blocks(s, block);
    lemma_found_iff_present(s.blocks, block.summary.height);
}

/// Persisting the same block a second time leaves the block table as the
/// first time left it.
pub proof fn law_summary_is_idempotent(s: StoreContents, block: NormalizedBlock)
    ensures
        persisted(persisted(s, block).store, block).store.blocks == persisted(
            s,
            block,
        ).store.blocks,
{
    let once = persisted(s, block).store;
    lemma_persisted_blocks(s, block);
    lemma_persisted_blocks(once, block);
    lemma_found_iff_present(s.blocks, block.summary.height);
    lemma_found_iff_present(once.blocks, block.summary.height);
    if find_block(s.blocks, block.summary.height) is None {
        match next_id(greatest(ids(s.blocks))) {
            Some(id) => {
                let row = block_row(block.summary, id);
                assert(s.blocks.push(row).drop_last() == s.blocks);
            },
            None => {},
        }
    }
}

/// Persisting a block keeps the heights of the block table unique.
pub proof fn law_one_row_per_height(s: StoreContents, block: NormalizedBlock, height: i32)
    requires
        rows_at_height(s.blocks, height) <= 1,
    ensures
        rows_at_height(persisted(s, block).store.blocks, height) <= 1,
{
    lemma_persisted_blocks(s, block);
    lemma_found_iff_present(s.blocks, block.summary.height);
    if find_block(s.blocks, block.summary.height) is None {
        match next_id(greatest(ids(s.blocks))) {
            Some(id) => {
                let row = block_row(block.summary, id);
                assert(s.blocks.push(row).drop_last() == s.blocks);
            },
            None => {},
        }
    }
}

/// Two writes to one table, one after the other, are given the ids `n` and
/// `n + 1`, and `n` is greater than every id that the table held.
pub proof fn law_sequential_ids(taken: Seq<i32>, n: i32)
    requires
        next_id(greatest(taken)) == Some(n),
        n < i32::MAX,
    ensures
        forall|i: int| 0 <= i < taken.len() ==> #[trigger] taken[i] < n,
        next_id(greatest(taken.push(n))) == Some((n + 1) as i32),
{
    lemma_next_id_is_free(taken);
    assert(taken.push(n).drop_last() == taken);
}

proof fn lemma_inputs_keep_primary_keys(p: Progress, parent: i32, inputs: Seq<NormalizedInput>)
    requires
        primary_keys_hold(p.store),
    ensures
        primary_keys_hold(put_inputs(p, parent, inputs).store),
    decreases inputs.len(),
{
    if inputs.len() > 0 {
        lemma_next_id_is_free(ids(p.store.inputs));
        match next_id(greatest(ids(p.store.inputs))) {
            Some(id) => {
                lemma_push_keeps_keys_unique(
                    p.store.inputs,
                    input_row(inputs.first(), parent, id),
                );
            },
            None => {},
        }
        lemma_inputs_keep_primary_keys(
            put_input(p, parent, inputs.first()),
            parent,
            inputs.drop_first(),
        );
    }
}

proof fn lemma_outputs_keep_primary_keys(p: Progress, parent: i32, outputs: Seq<NormalizedOutput>)
    requires
        primary_keys_hold(p.store),
    ensures
        primary_keys_hold(put_outputs(p, parent, outputs).store),
    decreases outputs.len(),
{
    if outputs.len() > 0 {
        lemma_next_id_is_free(ids(p.store.outputs));
        match next_id(greatest(ids(p.store.outputs))) {
            Some(id) => {
                lemma_push_keeps_keys_unique(
                    p.store.outputs,
                    output_row(outputs.first(), parent, id),
                );
            },
            None => {},
        }
        lemma_outputs_keep_primary_keys(
            put_output(p, parent, outputs.first()),
            parent,
            outputs.drop_first(),
        );
    }
}

proof fn lemma_transactions_keep_primary_keys(
    p: Progress,
    height: i32,
    transactions: Seq<NormalizedTransaction>,
)
    requires
        primary_keys_hold(p.store),
    ensures
        primary_keys_hold(put_transactions(p, height, transactions).store),
    decreases transactions.len(),
{
    if transactions.len() > 0 {
        let t = transactions.first();
        lemma_next_id_is_free(ids(p.store.transactions));
        match next_id(greatest(ids(p.store.transactions))) {
            Some(id) => {
                let row = transaction_row(t, height, id);
                lemma_push_keeps_keys_unique(p.store.transactions, row);
                let with_row = Progress {
                    store: StoreContents {
                        transactions: p.store.transactions.push(row),
                        ..p.store
                    },
                    ..p
                };
                lemma_inputs_keep_primary_keys(with_row, id, t.inputs@);
                lemma_outputs_keep_primary_keys(
                    put_inputs(with_row, id, t.inputs@),
                    id,
                    t.outputs@,
                );
            },
            None => {},
        }
        lemma_transactions_keep_primary_keys(
            put_transaction(p, height, t),
            height,
            transactions.drop_first(),
        );
    }
}

/// Persisting a block keeps the ids of every table unique.
pub proof fn law_persisting_keeps_primary_keys(s: StoreContents, block: NormalizedBlock)
    requires
        primary_keys_hold(s),
    ensures
        primary_keys_hold(persisted(s, block).store),
{
    let p = Progress { store: s, skipped: false };
    lemma_next_id_is_free(ids(s.blocks));
    if find_block(s.blocks, block.summary.height) is None {
        match next_id(greatest(ids(s.blocks))) {
            Some(id) => {
                lemma_push_keeps_keys_unique(s.blocks, block_row(block.summary, id));
            },
            None => {},
        }
    }
    lemma_transactions_keep_primary_keys(
        put_summary(p, block.summary),
        block.summary.height,
        block.transactions@,
    );
}

/// Every input row and every output row belongs to a transaction row of
/// the store.
pub open spec fn children_are_owned(s: StoreContents) -> bool {
    &&& forall|i: int|
        0 <= i < s.inputs.len() ==> ids(s.transactions).contains(
            (#[trigger] s.inputs[i]).transaction_id,
        )
    &&& forall|i: int|
        0 <= i < s.outputs.len() ==> ids(s.transactions).contains(
            (#[trigger] s.outputs[i]).transaction_id,
        )
}

proof fn lemma_inputs_stay_owned(p: Progress, parent: i32, inputs: Seq<NormalizedInput>)
    requires
        children_are_owned(p.store),
        ids(p.store.transactions).contains(parent),
    ensures
        children_are_owned(put_inputs(p, parent, inputs).store),
    decreases inputs.len(),
{
    if inputs.len() > 0 {
        lemma_inputs_stay_owned(put_input(p, parent, inputs.first()), parent, inputs.drop_first());
    }
}

proof fn lemma_outputs_stay_owned(p: Progress, parent: i32, outputs: Seq<NormalizedOutput>)
    requires
        children_are_owned(p.store),
        ids(p.store.transactions).contains(parent),
    ensures
        children_are_owned(put_outputs(p, parent, outputs).store),
    decreases outputs.len(),
{
    if outputs.len() > 0 {
        lemma_outputs_stay_owned(
            put_output(p, parent, outputs.first()),
            parent,
            outputs.drop_first(),
        );
    }
}

proof fn lemma_transactions_stay_owned(
    p: Progress,
    height: i32,
    transactions: Seq<NormalizedTransaction>,
)
    requires
        children_are_owned(p.store),
    ensures
        children_are_owned(put_transactions(p, height, transactions).store),
    decreases transactions.len(),
{
    if transactions.len() > 0 {
        let t = transactions.first();
        match next_id(greatest(ids(p.store.transactions))) {
            Some(id) => {
                let row = transaction_row(t, height, id);
                let rows = p.store.transactions.push(row);
                let with_row = Progress {
                    store: StoreContents { transactions: rows, ..p.store },
                    ..p
                };
                assert forall|owner: i32| ids(p.store.transactions).contains(owner) implies ids(
                    rows,
                ).contains(owner) by {
                    let k = choose|k: int|
                        0 <= k < ids(p.store.transactions).len() && ids(p.store.transactions)[k]
                            == owner;
                    assert(ids(rows)[k] == owner);
                }
                assert(ids(rows)[rows.len() - 1] == id);
                lemma_inputs_stay_owned(with_row, id, t.inputs@);
                lemma_inputs_keep_blocks(with_row, id, t.inputs@);
                lemma_outputs_stay_owned(put_inputs(with_row, id, t.inputs@), id, t.outputs@);
            },
            None => {},
        }
        lemma_transactions_stay_owned(
            put_transaction(p, height, t),
            height,
            transactions.drop_first(),
        );
    }
}

/// Persisting a block keeps every input and output row linked to a
/// transaction row of the store.
pub proof fn law_persisting_keeps_children_owned(s: StoreContents, block: NormalizedBlock)
    requires
        children_are_owned(s),
    ensures
        children_are_owned(persisted(s, block).store),
{
    lemma_transactions_stay_owned(
        put_summary(Progress { store: s, skipped: false }, block.summary),
        block.summary.height,
        block.transactions@,
    );
}

/// The input rows that are added for a transaction come behind the rows
/// that were there, and each carries the id of the transaction.
proof fn lemma_added_inputs_are_linked(p: Progress, parent: i32, inputs: Seq<NormalizedInput>)
    ensures
        put_inputs(p, parent, inputs).store.inputs.len() >= p.store.inputs.len(),
        put_inputs(p, parent, inputs).store.inputs.take(p.store.inputs.len() as int)
            == p.store.inputs,
        forall|k: int|
            p.store.inputs.len() <= k < put_inputs(p, parent, inputs).store.inputs.len() ==> (
            #[trigger] put_inputs(p, parent, inputs).store.inputs[k]).transaction_id == parent,
    decreases inputs.len(),
{
    let before = p.store.inputs;
    if inputs.len() > 0 {
        let q = put_input(p, parent, inputs.first());
        lemma_added_inputs_are_linked(q, parent, inputs.drop_first());
        let after = put_inputs(p, parent, inputs).store.inputs;
        assert(after.take(q.store.inputs.len() as int).take(before.len() as int) == after.take(
            before.len() as int,
        ));
        assert(q.store.inputs.take(before.len() as int) == before);
        assert forall|k: int| before.len() <= k < after.len() implies (
        #[trigger] after[k]).transaction_id == parent by {
            if k < q.store.inputs.len() {
                assert(after.take(q.store.inputs.len() as int)[k] == after[k]);
            }
        }
    } else {
        assert(before.take(before.len() as int) == before);
    }
}

/// The same for output rows.
proof fn lemma_added_outputs_are_linked(p: Progress, parent: i32, outputs: Seq<NormalizedOutput>)
    ensures
        put_outputs(p, parent, outputs).store.outputs.len() >= p.store.outputs.len(),
        put_outputs(p, parent, outputs).store.outputs.take(p.store.outputs.len() as int)
            == p.store.outputs,
        forall|k: int|
            p.store.outputs.len() <= k < put_outputs(p, parent, outputs).store.outputs.len() ==> (
            #[trigger] put_outputs(p, parent, outputs).store.outputs[k]).transaction_id == parent,
    decreases outputs.len(),
{
    let before = p.store.outputs;
    if outputs.len() > 0 {
        let q = put_output(p, parent, outputs.first());
        lemma_added_outputs_are_linked(q, parent, outputs.drop_first());
        let after = put_outputs(p, parent, outputs).store.outputs;
        assert(after.take(q.store.outputs.len() as int).take(before.len() as int) == after.take(
            before.len() as int,
        ));
        assert(q.store.outputs.take(before.len() as int) == before);
        assert forall|k: int| before.len() <= k < after.len() implies (
        #[trigger] after[k]).transaction_id == parent by {
            if k < q.store.outputs.len() {
                assert(after.take(q.store.outputs.len() as int)[k] == after[k]);
            }
        }
    } else {
        assert(before.take(before.len() as int) == before);
    }
}

/// A transaction that is written adds one transaction row under the next
/// id, and every input row and output row that is added with it carries
/// that id. The rows that were there stay as they were.
pub proof fn law_children_carry_the_id_of_their_transaction(
    p: Progress,
    height: i32,
    t: NormalizedTransaction,
)
    requires
        next_id(greatest(ids(p.store.transactions))) is Some,
    ensures
        ({
            let id = next_id(greatest(ids(p.store.transactions)))->0;
            let after = put_transaction(p, height, t).store;
            &&& after.transactions == p.store.transactions.push(transaction_row(t, height, id))
            &&& after.inputs.len() >= p.store.inputs.len()
            &&& after.inputs.take(p.store.inputs.len() as int) == p.store.inputs
            &&& forall|k: int|
                p.store.inputs.len() <= k < after.inputs.len() ==> (
                #[trigger] after.inputs[k]).transaction_id == id
            &&& after.outputs.len() >= p.store.outputs.len()
            &&& after.outputs.take(p.store.outputs.len() as int) == p.store.outputs
            &&& forall|k: int|
                p.store.outputs.len() <= k < after.outputs.len() ==> (
                #[trigger] after.outputs[k]).transaction_id == id
        }),
{
    let id = next_id(greatest(ids(p.store.transactions)))->0;
    let with_row = Progress {
        store: StoreContents {
            transactions: p.store.transactions.push(transaction_row(t, height, id)),
            ..p.store
        },
        ..p
    };
    let with_inputs = put_inputs(with_row, id, t.inputs@);
    lemma_added_inputs_are_linked(with_row, id, t.inputs@);
    lemma_inputs_keep_blocks(with_row, id, t.inputs@);
    lemma_added_outputs_are_linked(with_inputs, id, t.outputs@);
    lemma_outputs_keep_blocks(with_inputs, id, t.outputs@);
}

} // verus!
