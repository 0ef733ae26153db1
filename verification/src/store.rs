//! The relational store as the pipeline sees it: the commands it accepts, the
//! replies it gives, and an in-memory store that answers them.

use crate::error::SyncError;
use crate::model::{BlockInfo, OffchainData, Transaction, TransactionInput, TransactionOutput};
use vstd::prelude::*;

verus! {

/// A row with a surrogate id.
pub trait Keyed {
    /// The surrogate id of the row.
    spec fn key(&self) -> i32;

    /// The surrogate id of the row.
    fn id(&self) -> (r: i32)
        ensures
            r == self.key(),
    ;
}

impl Keyed for BlockInfo {
    open spec fn key(&self) -> i32 {
        self.id
    }

    fn id(&self) -> (r: i32) {
        self.id
    }
}

impl Keyed for Transaction {
    open spec fn key(&self) -> i32 {
        self.id
    }

    fn id(&self) -> (r: i32) {
        self.id
    }
}

impl Keyed for TransactionInput {
    open spec fn key(&self) -> i32 {
        self.id
    }

    fn id(&self) -> (r: i32) {
        self.id
    }
}

impl Keyed for TransactionOutput {
    open spec fn key(&self) -> i32 {
        self.id
    }

    fn id(&self) -> (r: i32) {
        self.id
    }
}

impl Keyed for OffchainData {
    open spec fn key(&self) -> i32 {
        self.id
    }

    fn id(&self) -> (r: i32) {
        self.id
    }
}

/// The ids of `rows`, in row order.
pub open spec fn ids<R: Keyed>(rows: Seq<R>) -> Seq<i32> {
    Seq::new(rows.len(), |i: int| rows[i].key())
}

/// The greatest of `ids`, or `None` where there is none.
pub open spec fn greatest(ids: Seq<i32>) -> Option<i32>
    decreases ids.len(),
{
    if ids.len() == 0 {
        None
    } else {
        match greatest(ids.drop_last()) {
            Some(m) if m >= ids.last() => Some(m),
            _ => Some(ids.last()),
        }
    }
}

/// No two rows of `rows` share an id.
pub open spec fn keys_unique<R: Keyed>(rows: Seq<R>) -> bool {
    forall|i: int, j: int|
        0 <= i < j < rows.len() ==> (#[trigger] rows[i]).key() != (#[trigger] rows[j]).key()
}

/// The id of the first block row at `height`.
pub open spec fn find_block(rows: Seq<BlockInfo>, height: i32) -> Option<i32>
    decreases rows.len(),
{
    if rows.len() == 0 {
        None
    } else {
        match find_block(rows.drop_last(), height) {
            Some(id) => Some(id),
            None => if rows.last().height == height {
                Some(rows.last().id)
            } else {
                None
            },
        }
    }
}

/// The id of the first sample row with the key `(block_height, btc_price)`.
pub open spec fn find_sample(
    rows: Seq<OffchainData>,
    block_height: i32,
    btc_price: i64,
) -> Option<i32>
    decreases rows.len(),
{
    if rows.len() == 0 {
        None
    } else {
        match find_sample(rows.drop_last(), block_height, btc_price) {
            Some(id) => Some(id),
            None => if rows.last().block_height == block_height && rows.last().btc_price
                == btc_price {
                Some(rows.last().id)
            } else {
                None
            },
        }
    }
}

/// `row` with the fields of `fresh` that do not belong to a sample's key.
pub open spec fn refreshed(row: OffchainData, fresh: OffchainData) -> OffchainData {
    OffchainData {
        id: row.id,
        block_height: row.block_height,
        btc_price: row.btc_price,
        market_sentiment: fresh.market_sentiment,
        volume: fresh.volume,
        high: fresh.high,
        low: fresh.low,
        timestamp: fresh.timestamp,
    }
}

/// `rows` after every row with the id of `fresh` has taken its non-key fields.
pub open spec fn refreshed_rows(rows: Seq<OffchainData>, fresh: OffchainData) -> Seq<OffchainData> {
    Seq::new(
        rows.len(),
        |i: int|
            if rows[i].id == fresh.id {
                refreshed(rows[i], fresh)
            } else {
                rows[i]
            },
    )
}

/// The tables of the store.
#[derive(Clone, Copy, Debug, PartialEq, Eq, Structural)]
pub enum Table {
    Blocks,
    Transactions,
    Inputs,
    Outputs,
    Samples,
}

/// One operation on the store.
#[allow(inconsistent_fields)]
#[derive(Debug, PartialEq, Eq)]
pub enum StoreCommand {
    /// Look up the block row at `height`.
    FindBlock { height: i32 },
    /// Look up the sample row with the key `(block_height, btc_price)`.
    FindSample { block_height: i32, btc_price: i64 },
    /// Read the greatest id of `table`.
    LatestId { table: Table },
    InsertBlock { row: BlockInfo },
    InsertTransaction { row: Transaction },
    InsertInput { row: TransactionInput },
    InsertOutput { row: TransactionOutput },
    InsertSample { row: OffchainData },
    /// Give the sample rows with the id of `row` its non-key fields.
    UpdateSample { row: OffchainData },
}

/// What the store answers to one command.
#[derive(Clone, Copy, Debug, PartialEq, Eq, Structural)]
pub enum StoreReply {
    /// The answer to a lookup: the id of the first matching row.
    Found { id: Option<i32> },
    /// The answer to `LatestId`.
    Latest { id: Option<i32> },
    /// The insert or update was carried out.
    Done,
    /// The command failed.
    Failed { error: SyncError },
}

/// The contents of a store: its tables, each in insertion order.
pub ghost struct StoreContents {
    pub blocks: Seq<BlockInfo>,
    pub transactions: Seq<Transaction>,
    pub inputs: Seq<TransactionInput>,
    pub outputs: Seq<TransactionOutput>,
    pub samples: Seq<OffchainData>,
}

/// The contents of a store with empty tables.
pub open spec fn empty_store() -> StoreContents {
    StoreContents {
        blocks: Seq::empty(),
        transactions: Seq::empty(),
        inputs: Seq::empty(),
        outputs: Seq::empty(),
        samples: Seq::empty(),
    }
}

/// What a store with the contents `s` answers to `c`. An insert is refused
/// where the row's id is already taken.
pub open spec fn reply_to(s: StoreContents, c: StoreCommand) -> StoreReply {
    match c {
        StoreCommand::FindBlock { height } => StoreReply::Found { id: find_block(s.blocks, height) },
        StoreCommand::FindSample { block_height, btc_price } => StoreReply::Found {
            id: find_sample(s.samples, block_height, btc_price),
        },
        StoreCommand::LatestId { table } => StoreReply::Latest {
            id: match table {
                Table::Blocks => greatest(ids(s.blocks)),
                Table::Transactions => greatest(ids(s.transactions)),
                Table::Inputs => greatest(ids(s.inputs)),
                Table::Outputs => greatest(ids(s.outputs)),
                Table::Samples => greatest(ids(s.samples)),
            },
        },
        StoreCommand::InsertBlock { row } => insert_reply(ids(s.blocks), row.id),
        StoreCommand::InsertTransaction { row } => insert_reply(ids(s.transactions), row.id),
        StoreCommand::InsertInput { row } => insert_reply(ids(s.inputs), row.id),
        StoreCommand::InsertOutput { row } => insert_reply(ids(s.outputs), row.id),
        StoreCommand::InsertSample { row } => insert_reply(ids(s.samples), row.id),
        StoreCommand::UpdateSample { row } => StoreReply::Done,
    }
}

/// The answer to an insert of a row with the id `id` into a table that holds
/// the ids `taken`.
pub open spec fn insert_reply(taken: Seq<i32>, id: i32) -> StoreReply {
    if taken.contains(id) {
        StoreReply::Failed { error: SyncError::StoreWriteError }
    } else {
        StoreReply::Done
    }
}

/// The contents of a store after it has carried out `c` on the contents `s`.
pub open spec fn applied(s: StoreContents, c: StoreCommand) -> StoreContents {
    match c {
        StoreCommand::InsertBlock { row } => if ids(s.blocks).contains(row.id) {
            s
        } else {
            StoreContents { blocks: s.blocks.push(row), ..s }
        },
        StoreCommand::InsertTransaction { row } => if ids(s.transactions).contains(row.id) {
            s
        } else {
            StoreContents { transactions: s.transactions.push(row), ..s }
        },
        StoreCommand::InsertInput { row } => if ids(s.inputs).contains(row.id) {
            s
        } else {
            StoreContents { inputs: s.inputs.push(row), ..s }
        },
        StoreCommand::InsertOutput { row } => if ids(s.outputs).contains(row.id) {
            s
        } else {
            StoreContents { outputs: s.outputs.push(row), ..s }
        },
        StoreCommand::InsertSample { row } => if ids(s.samples).contains(row.id) {
            s
        } else {
            StoreContents { samples: s.samples.push(row), ..s }
        },
        StoreCommand::UpdateSample { row } => StoreContents {
            samples: refreshed_rows(s.samples, row),
            ..s
        },
        _ => s,
    }
}

/// Every table of `s` has unique ids.
pub open spec fn primary_keys_hold(s: StoreContents) -> bool {
    &&& keys_unique(s.blocks)
    &&& keys_unique(s.transactions)
    &&& keys_unique(s.inputs)
    &&& keys_unique(s.outputs)
    &&& keys_unique(s.samples)
}

/// The greatest id of `rows`.
pub fn latest_id<R: Keyed>(rows: &Vec<R>) -> (r: Option<i32>)
    ensures
        r == greatest(ids(rows@)),
{
    let mut best: Option<i32> = None;
    let mut i: usize = 0;
    while i < rows.len()
        invariant
            i <= rows.len(),
            best == greatest(ids(rows@.take(i as int))),
        decreases rows.len() - i,
    {
        let id = rows[i].id();
        proof {
            let next = ids(rows@.take(i + 1));
            assert(next.drop_last() == ids(rows@.take(i as int)));
            assert(next.last() == id);
        }
        best = match best {
            Some(m) if m >= id => Some(m),
            _ => Some(id),
        };
        i += 1;
    }
    proof {
        assert(rows@.take(rows.len() as int) == rows@);
    }
    best
}

/// Whether a row of `rows` has the id `id`.
pub fn holds_id<R: Keyed>(rows: &Vec<R>, id: i32) -> (r: bool)
    ensures
        r == ids(rows@).contains(id),
{
    let mut i: usize = 0;
    while i < rows.len()
        invariant
            i <= rows.len(),
            forall|k: int| 0 <= k < i ==> ids(rows@)[k] != id,
        decreases rows.len() - i,
    {
        if rows[i].id() == id {
            assert(ids(rows@)[i as int] == id);
            return true;
        }
        i += 1;
    }
    false
}

/// An in-memory store: five tables, each a list of rows in insertion order.
/// It enforces the primary key of each table and nothing else.
#[derive(Debug, PartialEq, Eq)]
pub struct Store {
    blocks: Vec<BlockInfo>,
    transactions: Vec<Transaction>,
    inputs: Vec<TransactionInput>,
    outputs: Vec<TransactionOutput>,
    samples: Vec<OffchainData>,
}

impl View for Store {
    type V = StoreContents;

    closed spec fn view(&self) -> StoreContents {
        StoreContents {
            blocks: self.blocks@,
            transactions: self.transactions@,
            inputs: self.inputs@,
            outputs: self.outputs@,
            samples: self.samples@,
        }
    }
}

impl Store {
    /// A store with empty tables.
    pub fn new() -> (s: Store)
        ensures
            s@ == empty_store(),
    {
        Store {
            blocks: Vec::new(),
            transactions: Vec::new(),
            inputs: Vec::new(),
            outputs: Vec::new(),
            samples: Vec::new(),
        }
    }

    /// The block rows, in insertion order.
    pub fn blocks(&self) -> (r: &Vec<BlockInfo>)
        ensures
            r@ == self@.blocks,
    {
        &self.blocks
    }

    /// The transaction rows, in insertion order.
    pub fn transactions(&self) -> (r: &Vec<Transaction>)
        ensures
            r@ == self@.transactions,
    {
        &self.transactions
    }

    /// The input rows, in insertion order.
    pub fn inputs(&self) -> (r: &Vec<TransactionInput>)
        ensures
            r@ == self@.inputs,
    {
        &self.inputs
    }

    /// The output rows, in insertion order.
    pub fn outputs(&self) -> (r: &Vec<TransactionOutput>)
        ensures
            r@ == self@.outputs,
    {
        &self.outputs
    }

    /// The sample rows, in insertion order.
    pub fn samples(&self) -> (r: &Vec<OffchainData>)
        ensures
            r@ == self@.samples,
    {
        &self.samples
    }

    /// Looks up the first block row at `height`.
    fn lookup_block(&self, height: i32) -> (r: Option<i32>)
        ensures
            r == find_block(self@.blocks, height),
    {
        let mut i: usize = 0;
        while i < self.blocks.len()
            invariant
                i <= self.blocks.len(),
                find_block(self.blocks@.take(i as int), height) is None,
            decreases self.blocks.len() - i,
        {
            proof {
                lemma_find_block_extends(self.blocks@, i as int, height);
            }
            if self.blocks[i].height == height {
                return Some(self.blocks[i].id);
            }
            i += 1;
        }
        proof {
            assert(self.blocks@.take(self.blocks.len() as int) == self.blocks@);
        }
        None
    }

    /// Looks up the first sample row with the key `(block_height, btc_price)`.
    fn lookup_sample(&self, block_height: i32, btc_price: i64) -> (r: Option<i32>)
        ensures
            r == find_sample(self@.samples, block_height, btc_price),
    {
        let mut i: usize = 0;
        while i < self.samples.len()
            invariant
                i <= self.samples.len(),
                find_sample(self.samples@.take(i as int), block_height, btc_price) is None,
            decreases self.samples.len() - i,
        {
            proof {
                lemma_find_sample_extends(self.samples@, i as int, block_height, btc_price);
            }
            if self.samples[i].block_height == block_height && self.samples[i].btc_price
                == btc_price {
                return Some(self.samples[i].id);
            }
            i += 1;
        }
        proof {
            assert(self.samples@.take(self.samples.len() as int) == self.samples@);
        }
        None
    }

    /// Gives every sample row with the id of `fresh` its non-key fields.
    fn refresh_samples(&mut self, fresh: OffchainData)
        ensures
            final(self)@ == (StoreContents {
                samples: refreshed_rows(old(self)@.samples, fresh),
                ..old(self)@
            }),
    {
        let mut i: usize = 0;
        while i < self.samples.len()
            invariant
                i <= self.samples.len(),
                self.samples@.len() == old(self).samples@.len(),
                self.blocks == old(self).blocks,
                self.transactions == old(self).transactions,
                self.inputs == old(self).inputs,
                self.outputs == old(self).outputs,
                forall|k: int|
                    0 <= k < i ==> self.samples@[k] == refreshed_rows(old(self).samples@, fresh)[k],
                forall|k: int|
                    i <= k < self.samples@.len() ==> self.samples@[k] == old(self).samples@[k],
            decreases self.samples.len() - i,
        {
            let row = self.samples[i];
            if row.id == fresh.id {
                self.samples.set(
                    i,
                    OffchainData {
                        id: row.id,
                        block_height: row.block_height,
                        btc_price: row.btc_price,
                        market_sentiment: fresh.market_sentiment,
                        volume: fresh.volume,
                        high: fresh.high,
                        low: fresh.low,
                        timestamp: fresh.timestamp,
                    },
                );
            }
            i += 1;
        }
        proof {
            assert(self.samples@ =~= refreshed_rows(old(self).samples@, fresh));
        }
    }

    /// Carries out one command and answers it.
    pub fn execute(&mut self, command: StoreCommand) -> (reply: StoreReply)
        ensures
            reply == reply_to(old(self)@, command),
            final(self)@ == applied(old(self)@, command),
    {
        match command {
            StoreCommand::FindBlock { height } => StoreReply::Found { id: self.lookup_block(height) },
            StoreCommand::FindSample { block_height, btc_price } => StoreReply::Found {
                id: self.lookup_sample(block_height, btc_price),
            },
            StoreCommand::LatestId { table } => StoreReply::Latest {
                id: match table {
                    Table::Blocks => latest_id(&self.blocks),
                    Table::Transactions => latest_id(&self.transactions),
                    Table::Inputs => latest_id(&self.inputs),
                    Table::Outputs => latest_id(&self.outputs),
                    Table::Samples => latest_id(&self.samples),
                },
            },
            StoreCommand::InsertBlock { row } => {
                if holds_id(&self.blocks, row.id) {
                    StoreReply::Failed { error: SyncError::StoreWriteError }
                } else {
                    self.blocks.push(row);
                    StoreReply::Done
                }
            },
            StoreCommand::InsertTransaction { row } => {
                if holds_id(&self.transactions, row.id) {
                    StoreReply::Failed { error: SyncError::StoreWriteError }
                } else {
                    self.transactions.push(row);
                    StoreReply::Done
                }
            },
            StoreCommand::InsertInput { row } => {
                if holds_id(&self.inputs, row.id) {
                    StoreReply::Failed { error: SyncError::StoreWriteError }
                } else {
                    self.inputs.push(row);
                    StoreReply::Done
                }
            },
            StoreCommand::InsertOutput { row } => {
                if holds_id(&self.outputs, row.id) {
                    StoreReply::Failed { error: SyncError::StoreWriteError }
                } else {
                    self.outputs.push(row);
                    StoreReply::Done
                }
            },
            StoreCommand::InsertSample { row } => {
                if holds_id(&self.samples, row.id) {
                    StoreReply::Failed { error: SyncError::StoreWriteError }
                } else {
                    self.samples.push(row);
                    StoreReply::Done
                }
            },
            StoreCommand::UpdateSample { row } => {
                self.refresh_samples(row);
                StoreReply::Done
            },
        }
    }
}

/// A table that holds no match among its first `i` rows finds its first
/// match at row `i` or not among its first `i + 1` rows.
proof fn lemma_find_block_extends(rows: Seq<BlockInfo>, i: int, height: i32)
    requires
        0 <= i < rows.len(),
        find_block(rows.take(i), height) is None,
    ensures
        rows[i].height == height ==> find_block(rows, height) == Some(rows[i].id),
        rows[i].height != height ==> find_block(rows.take(i + 1), height) is None,
    decreases rows.len(),
{
    assert(rows.take(i + 1).drop_last() == rows.take(i));
    if rows[i].height == height {
        if i + 1 < rows.len() {
            assert(rows.drop_last().take(i) == rows.take(i));
            lemma_find_block_extends(rows.drop_last(), i, height);
        } else {
            assert(rows.drop_last() == rows.take(i));
        }
    }
}

/// The same for samples.
proof fn lemma_find_sample_extends(
    rows: Seq<OffchainData>,
    i: int,
    block_height: i32,
    btc_price: i64,
)
    requires
        0 <= i < rows.len(),
        find_sample(rows.take(i), block_height, btc_price) is None,
    ensures
        rows[i].block_height == block_height && rows[i].btc_price == btc_price ==> find_sample(
            rows,
            block_height,
            btc_price,
        ) == Some(rows[i].id),
        !(rows[i].block_height == block_height && rows[i].btc_price == btc_price) ==> find_sample(
            rows.take(i + 1),
            block_height,
            btc_price,
        ) is None,
    decreases rows.len(),
{
    assert(rows.take(i + 1).drop_last() == rows.take(i));
    if rows[i].block_height == block_height && rows[i].btc_price == btc_price {
        if i + 1 < rows.len() {
            assert(rows.drop_last().take(i) == rows.take(i));
            lemma_find_sample_extends(rows.drop_last(), i, block_height, btc_price);
        } else {
            assert(rows.drop_last() == rows.take(i));
        }
    }
}

/// Whatever command a store carries out, the ids of each table stay unique.
pub proof fn law_primary_keys_are_kept(s: StoreContents, c: StoreCommand)
    requires
        primary_keys_hold(s),
    ensures
        primary_keys_hold(applied(s, c)),
{
    match c {
        StoreCommand::InsertBlock { row } => {
            if !ids(s.blocks).contains(row.id) {
                lemma_push_keeps_keys_unique(s.blocks, row);
            }
        },
        StoreCommand::InsertTransaction { row } => {
            if !ids(s.transactions).contains(row.id) {
                lemma_push_keeps_keys_unique(s.transactions, row);
            }
        },
        StoreCommand::InsertInput { row } => {
            if !ids(s.inputs).contains(row.id) {
                lemma_push_keeps_keys_unique(s.inputs, row);
            }
        },
        StoreCommand::InsertOutput { row } => {
            if !ids(s.outputs).contains(row.id) {
                lemma_push_keeps_keys_unique(s.outputs, row);
            }
        },
        StoreCommand::InsertSample { row } => {
            if !ids(s.samples).contains(row.id) {
                lemma_push_keeps_keys_unique(s.samples, row);
            }
        },
        _ => {},
    }
}

/// A row whose id no row has keeps the ids unique when it is added.
pub proof fn lemma_push_keeps_keys_unique<R: Keyed>(rows: Seq<R>, row: R)
    requires
        keys_unique(rows),
        !ids(rows).contains(row.key()),
    ensures
        keys_unique(rows.push(row)),
{
    let after = rows.push(row);
    assert forall|i: int, j: int| 0 <= i < j < after.len() implies (#[trigger] after[i]).key() != (
    #[trigger] after[j]).key() by {
        if j == rows.len() {
            assert(ids(rows)[i] == rows[i].key());
        }
    }
}

} // verus!
