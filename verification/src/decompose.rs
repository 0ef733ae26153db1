//! The ledger decomposer: from a fetched block to the records that the
//! writer persists. No identities are assigned here.

use crate::calendar::{utc_calendar, utc_fields, CalendarTime};
use crate::error::SyncError;
use crate::payload::{BlockHeader, BlockPayload, InputPayload, OutputPayload, TransactionPayload};
use crate::text::{join, joined};
use vstd::prelude::*;

verus! {

/// Header-level facts of one block, before the store gives it an id.
#[derive(Clone, Copy, Debug, PartialEq, Eq, Structural)]
pub struct BlockSummary {
    pub height: i32,
    pub tx_count: i32,
    pub difficulty: i64,
    pub block_time: i32,
    pub timestamp: CalendarTime,
    pub size: i32,
    pub weight: i32,
}

/// One consumed prior output of a transaction.
#[derive(Debug, PartialEq, Eq)]
pub struct NormalizedInput {
    pub previous_output: String,
    pub value: i64,
}

/// One produced output of a transaction.
#[derive(Debug, PartialEq, Eq)]
pub struct NormalizedOutput {
    pub address: String,
    pub value: i64,
}

/// One transaction with its inputs and outputs. `btc` is the total of the
/// output values.
#[derive(Debug, PartialEq, Eq)]
pub struct NormalizedTransaction {
    pub hash: String,
    pub btc: i128,
    pub fee: i64,
    pub time: i64,
    pub inputs: Vec<NormalizedInput>,
    pub outputs: Vec<NormalizedOutput>,
}

/// One block, normalized: its summary and its transactions in upstream order.
#[derive(Debug, PartialEq, Eq)]
pub struct NormalizedBlock {
    pub summary: BlockSummary,
    pub transactions: Vec<NormalizedTransaction>,
}

/// The separator between the destination addresses of one output.
pub const ADDRESS_SEPARATOR: &'static str = ", ";

/// The sum of the values of `outputs`.
pub open spec fn total_value(outputs: Seq<NormalizedOutput>) -> int
    decreases outputs.len(),
{
    if outputs.len() == 0 {
        0
    } else {
        total_value(outputs.drop_last()) + outputs.last().value
    }
}

/// The summary that a header gives, with `timestamp` as its calendar time.
pub open spec fn summary_of(header: BlockHeader, timestamp: CalendarTime) -> BlockSummary {
    BlockSummary {
        height: header.height,
        tx_count: header.tx_count,
        difficulty: header.difficulty,
        block_time: header.mediantime as i32,
        timestamp,
        size: header.size,
        weight: header.weight,
    }
}

/// `n` is the record of the upstream input `p`: it names the spent
/// transaction and carries the spent output's value, 0 where none is given.
pub open spec fn is_input_of(p: InputPayload, n: NormalizedInput) -> bool {
    &&& n.previous_output@ == p.txid@
    &&& n.value == match p.prevout_value {
        Some(v) => v,
        None => 0,
    }
}

/// `n` is the record of the upstream output `p`: the value is carried
/// through, and the address is the joined destination addresses, empty where
/// the output has no destination script.
pub open spec fn is_output_of(p: OutputPayload, n: NormalizedOutput) -> bool {
    &&& n.value == p.value
    &&& n.address@ == match p.addresses {
        Some(a) => joined(a@, ADDRESS_SEPARATOR@),
        None => Seq::<char>::empty(),
    }
}

/// `n` is the record of the upstream transaction `p` in a block stamped
/// `time`: one input record per input, one output record per output, in
/// order, and the total of the output values.
pub open spec fn is_transaction_of(
    p: TransactionPayload,
    time: i64,
    n: NormalizedTransaction,
) -> bool {
    &&& n.hash@ == p.txid@
    &&& n.fee == p.fee
    &&& n.time == time
    &&& n.btc == total_value(n.outputs@)
    &&& n.inputs@.len() == p.vin@.len()
    &&& forall|i: int| 0 <= i < p.vin@.len() ==> is_input_of(#[trigger] p.vin@[i], n.inputs@[i])
    &&& n.outputs@.len() == p.vout@.len()
    &&& forall|i: int| 0 <= i < p.vout@.len() ==> is_output_of(#[trigger] p.vout@[i], n.outputs@[i])
}

/// `n` is the normalized form of `p`, with `timestamp` as the calendar time
/// of the block.
pub open spec fn is_decomposition(
    p: BlockPayload,
    timestamp: CalendarTime,
    n: NormalizedBlock,
) -> bool {
    &&& n.summary == summary_of(p.header, timestamp)
    &&& n.transactions@.len() == p.transactions@.len()
    &&& forall|i: int|
        0 <= i < p.transactions@.len() ==> is_transaction_of(
            #[trigger] p.transactions@[i],
            p.header.timestamp,
            n.transactions@[i],
        )
}

/// The sum of the output values never leaves this range.
proof fn lemma_total_value_bounds(outputs: Seq<NormalizedOutput>)
    ensures
        -(outputs.len() * 0x8000_0000_0000_0000) <= total_value(outputs) <= outputs.len()
            * 0x8000_0000_0000_0000,
    decreases outputs.len(),
{
    if outputs.len() > 0 {
        lemma_total_value_bounds(outputs.drop_last());
    }
}

/// Adds up the values of `outputs`.
pub fn sum_values(outputs: &Vec<NormalizedOutput>) -> (total: i128)
    ensures
        total == total_value(outputs@),
{
    let mut total: i128 = 0;
    let mut i: usize = 0;
    while i < outputs.len()
        invariant
            i <= outputs.len(),
            total == total_value(outputs@.take(i as int)),
        decreases outputs.len() - i,
    {
        proof {
            let next = outputs@.take(i + 1);
            assert(next.drop_last() == outputs@.take(i as int));
            lemma_total_value_bounds(next);
            lemma_total_value_bounds(outputs@.take(i as int));
        }
        total = total + outputs[i].value as i128;
        i += 1;
    }
    proof {
        assert(outputs@.take(outputs.len() as int) == outputs@);
    }
    total
}

/// Normalizes one upstream input.
pub fn decompose_input(p: &InputPayload) -> (n: NormalizedInput)
    ensures
        is_input_of(*p, n),
{
    let value = match p.prevout_value {
        Some(v) => v,
        None => 0,
    };
    NormalizedInput { previous_output: p.txid.clone(), value }
}

/// Normalizes one upstream output.
pub fn decompose_output(p: &OutputPayload) -> (n: NormalizedOutput)
    ensures
        is_output_of(*p, n),
{
    let address = match &p.addresses {
        Some(a) => join(a, ADDRESS_SEPARATOR),
        None => String::new(),
    };
    NormalizedOutput { address, value: p.value }
}

/// Normalizes one upstream transaction of a block stamped `time`.
pub fn decompose_transaction(p: &TransactionPayload, time: i64) -> (n: NormalizedTransaction)
    ensures
        is_transaction_of(*p, time, n),
{
    let mut inputs: Vec<NormalizedInput> = Vec::new();
    let mut i: usize = 0;
    while i < p.vin.len()
        invariant
            i <= p.vin.len(),
            inputs@.len() == i,
            forall|k: int| 0 <= k < i ==> is_input_of(#[trigger] p.vin@[k], inputs@[k]),
        decreases p.vin.len() - i,
    {
        inputs.push(decompose_input(&p.vin[i]));
        i += 1;
    }
    let mut outputs: Vec<NormalizedOutput> = Vec::new();
    let mut j: usize = 0;
    while j < p.vout.len()
        invariant
            j <= p.vout.len(),
            outputs@.len() == j,
            forall|k: int| 0 <= k < j ==> is_output_of(#[trigger] p.vout@[k], outputs@[k]),
        decreases p.vout.len() - j,
    {
        outputs.push(decompose_output(&p.vout[j]));
        j += 1;
    }
    let btc = sum_values(&outputs);
    NormalizedTransaction { hash: p.txid.clone(), btc, fee: p.fee, time, inputs, outputs }
}

/// Normalizes a fetched block whose calendar time is already known.
pub fn decompose_at(p: &BlockPayload, timestamp: CalendarTime) -> (n: NormalizedBlock)
    ensures
        is_decomposition(*p, timestamp, n),
{
    let summary = BlockSummary {
        height: p.header.height,
        tx_count: p.header.tx_count,
        difficulty: p.header.difficulty,
        block_time: #[verifier::truncate] (p.header.mediantime as i32),
        timestamp,
        size: p.header.size,
        weight: p.header.weight,
    };
    let mut transactions: Vec<NormalizedTransaction> = Vec::new();
    let mut i: usize = 0;
    while i < p.transactions.len()
        invariant
            i <= p.transactions.len(),
            transactions@.len() == i,
            forall|k: int|
                0 <= k < i ==> is_transaction_of(
                    #[trigger] p.transactions@[k],
                    p.header.timestamp,
                    transactions@[k],
                ),
        decreases p.transactions.len() - i,
    {
        transactions.push(decompose_transaction(&p.transactions[i], p.header.timestamp));
        i += 1;
    }
    NormalizedBlock { summary, transactions }
}

/// Normalizes a fetched block. The block's epoch seconds are converted to a
/// calendar time; a block whose seconds the calendar cannot represent is
/// malformed.
pub fn decompose(p: &BlockPayload) -> (r: Result<NormalizedBlock, SyncError>)
    ensures
        match utc_calendar(p.header.timestamp as int) {
            Some(timestamp) => r is Ok && is_decomposition(*p, timestamp, r->Ok_0),
            None => r == Err::<NormalizedBlock, SyncError>(SyncError::MalformedResponse),
        },
{
    match utc_fields(p.header.timestamp) {
        Some(timestamp) => Ok(decompose_at(p, timestamp)),
        None => Err(SyncError::MalformedResponse),
    }
}

} // verus!
