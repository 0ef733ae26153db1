//! What the upstream APIs report, reduced to the fields
//! that the pipeline reads.

use vstd::prelude::*;

verus! {

/// One output of an upstream transaction. `addresses` is present where the
/// output carries a destination script.
#[derive(Debug, PartialEq, Eq)]
pub struct OutputPayload {
    pub value: i64,
    pub addresses: Option<Vec<String>>,
}

/// One input of an upstream transaction. `prevout_value` is the value of the
/// output it spends, where the upstream reports that output.
#[derive(Debug, PartialEq, Eq)]
pub struct InputPayload {
    pub txid: String,
    pub prevout_value: Option<i64>,
}

/// One upstream transaction.
#[derive(Debug, PartialEq, Eq)]
pub struct TransactionPayload {
    pub txid: String,
    pub fee: i64,
    pub vin: Vec<InputPayload>,
    pub vout: Vec<OutputPayload>,
}

/// The header fields of an upstream block. `timestamp` and `mediantime` are
/// seconds since the epoch; `difficulty` is a measurement key.
#[derive(Clone, Copy, Debug, PartialEq, Eq, Structural)]
pub struct BlockHeader {
    pub height: i32,
    pub timestamp: i64,
    pub tx_count: i32,
    pub size: i32,
    pub weight: i32,
    pub mediantime: i64,
    pub difficulty: i64,
}

/// A block detail as the upstream answers it: the header, and the
/// transactions where the answer embeds them.
#[derive(Debug, PartialEq, Eq)]
pub struct BlockDetail {
    pub header: BlockHeader,
    pub tx: Option<Vec<TransactionPayload>>,
}

/// A fully fetched block: header and transactions.
#[derive(Debug, PartialEq, Eq)]
pub struct BlockPayload {
    pub header: BlockHeader,
    pub transactions: Vec<TransactionPayload>,
}

/// The series of a market chart. Each series is absent where the source
/// does not report it as a list; each entry is the measurement of one point
/// in time, absent where the source does not report a number for it.
#[derive(Debug, PartialEq, Eq)]
pub struct MarketSeries {
    pub prices: Option<Vec<Option<i64>>>,
    pub market_caps: Option<Vec<Option<i64>>>,
    pub total_volumes: Option<Vec<Option<i64>>>,
}

} // verus!
