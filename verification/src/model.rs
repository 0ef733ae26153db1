//! The rows of the relational store.
//!
//! Real-valued measurements (price, difficulty, volume and the like) are held
//! as `i64` keys: a one-to-one image of the measurement whose integer order is
//! the order of the measurements, with key 0 for zero. Two measurements are
//! the same exactly when their keys are equal. Amounts of coin are whole
//! numbers of the smallest unit.

use crate::calendar::CalendarTime;
use vstd::prelude::*;

verus! {

/// Header-level facts of one block. At most one row per height.
#[derive(Clone, Copy, Debug, PartialEq, Eq, Structural)]
pub struct BlockInfo {
    pub id: i32,
    pub height: i32,
    pub avg_tx_count: i32,
    pub difficulty: i64,
    pub block_time: i32,
    pub timestamp: CalendarTime,
    pub size: i32,
    pub weight: i32,
}

/// One on-chain transaction, owned by the block at `block_height`.
#[derive(Debug, PartialEq, Eq)]
pub struct Transaction {
    pub id: i32,
    pub block_height: i32,
    pub hash: String,
    pub btc: i128,
    pub fee: i64,
    pub time: i64,
}

/// One consumed prior output, owned by the transaction `transaction_id`.
#[derive(Debug, PartialEq, Eq)]
pub struct TransactionInput {
    pub id: i32,
    pub transaction_id: i32,
    pub previous_output: String,
    pub value: i64,
}

/// One produced output, owned by the transaction `transaction_id`.
#[derive(Debug, PartialEq, Eq)]
pub struct TransactionOutput {
    pub id: i32,
    pub transaction_id: i32,
    pub address: String,
    pub value: i64,
}

/// One market snapshot tied to a block height. The pair of height and price
/// is the key of a sample; the other fields may be updated in place.
#[derive(Clone, Copy, Debug, PartialEq, Eq, Structural)]
pub struct OffchainData {
    pub id: i32,
    pub block_height: i32,
    pub btc_price: i64,
    pub market_sentiment: Option<i64>,
    pub volume: Option<i64>,
    pub high: Option<i64>,
    pub low: Option<i64>,
    pub timestamp: CalendarTime,
}

impl Clone for Transaction {
    fn clone(&self) -> (r: Self)
        ensures
            r == *self,
    {
        Transaction {
            id: self.id,
            block_height: self.block_height,
            hash: self.hash.clone(),
            btc: self.btc,
            fee: self.fee,
            time: self.time,
        }
    }
}

impl Clone for TransactionInput {
    fn clone(&self) -> (r: Self)
        ensures
            r == *self,
    {
        TransactionInput {
            id: self.id,
            transaction_id: self.transaction_id,
            previous_output: self.previous_output.clone(),
            value: self.value,
        }
    }
}

impl Clone for TransactionOutput {
    fn clone(&self) -> (r: Self)
        ensures
            r == *self,
    {
        TransactionOutput {
            id: self.id,
            transaction_id: self.transaction_id,
            address: self.address.clone(),
            value: self.value,
        }
    }
}

} // verus!
