//! The queries of the read surface, answered from the in-memory store: the
//! rows of a table newest first, and one block with its transactions and
//! their inputs and outputs.

use crate::model::{BlockInfo, OffchainData, Transaction, TransactionInput, TransactionOutput};
use crate::store::{keys_unique, Keyed, Store};
use vstd::prelude::*;
use vstd::seq_lib::{to_multiset_build, to_multiset_contains, to_multiset_insert};

verus! {

/// One block with the rows that belong to it.
#[derive(Debug, PartialEq, Eq)]
pub struct BlockDetailData {
    pub block_info: BlockInfo,
    pub transactions: Vec<Transaction>,
    pub inputs: Vec<TransactionInput>,
    pub outputs: Vec<TransactionOutput>,
}

/// The first block row at `height`.
pub open spec fn block_at(rows: Seq<BlockInfo>, height: i32) -> Option<BlockInfo>
    decreases rows.len(),
{
    if rows.len() == 0 {
        None
    } else {
        match block_at(rows.drop_last(), height) {
            Some(row) => Some(row),
            None => if rows.last().height == height {
                Some(rows.last())
            } else {
                None
            },
        }
    }
}

/// The transaction rows of the block at `height`, in table order.
pub open spec fn transactions_at(rows: Seq<Transaction>, height: i32) -> Seq<Transaction>
    decreases rows.len(),
{
    if rows.len() == 0 {
        Seq::empty()
    } else if rows.last().block_height == height {
        transactions_at(rows.drop_last(), height).push(rows.last())
    } else {
        transactions_at(rows.drop_last(), height)
    }
}

/// Whether one of `owners` has the id `id`.
pub open spec fn owned_by(owners: Seq<Transaction>, id: i32) -> bool {
    exists|i: int| 0 <= i < owners.len() && (#[trigger] owners[i]).id == id
}

/// The input rows that belong to one of `owners`, in table order.
pub open spec fn inputs_of(rows: Seq<TransactionInput>, owners: Seq<Transaction>) -> Seq<
    TransactionInput,
>
    decreases rows.len(),
{
    if rows.len() == 0 {
        Seq::empty()
    } else if owned_by(owners, rows.last().transaction_id) {
        inputs_of(rows.drop_last(), owners).push(rows.last())
    } else {
        inputs_of(rows.drop_last(), owners)
    }
}

/// The output rows that belong to one of `owners`, in table order.
pub open spec fn outputs_of(rows: Seq<TransactionOutput>, owners: Seq<Transaction>) -> Seq<
    TransactionOutput,
>
    decreases rows.len(),
{
    if rows.len() == 0 {
        Seq::empty()
    } else if owned_by(owners, rows.last().transaction_id) {
        outputs_of(rows.drop_last(), owners).push(rows.last())
    } else {
        outputs_of(rows.drop_last(), owners)
    }
}

fn first_block_at(rows: &Vec<BlockInfo>, height: i32) -> (r: Option<BlockInfo>)
    ensures
        r == block_at(rows@, height),
{
    let mut i: usize = 0;
    while i < rows.len()
        invariant
            i <= rows.len(),
            block_at(rows@.take(i as int), height) is None,
        decreases rows.len() - i,
    {
        proof {
            lemma_block_at_extends(rows@, i as int, height);
        }
        if rows[i].height == height {
            return Some(rows[i]);
        }
        i += 1;
    }
    proof {
        assert(rows@.take(rows.len() as int) == rows@);
    }
    None
}

proof fn lemma_block_at_extends(rows: Seq<BlockInfo>, i: int, height: i32)
    requires
        0 <= i < rows.len(),
        block_at(rows.take(i), height) is None,
    ensures
        rows[i].height == height ==> block_at(rows, height) == Some(rows[i]),
        rows[i].height != height ==> block_at(rows.take(i + 1), height) is None,
    decreases rows.len(),
{
    assert(rows.take(i + 1).drop_last() == rows.take(i));
    if rows[i].height == height {
        if i + 1 < rows.len() {
            assert(rows.drop_last().take(i) == rows.take(i));
            lemma_block_at_extends(rows.drop_last(), i, height);
        } else {
            assert(rows.drop_last() == rows.take(i));
        }
    }
}

fn owns(owners: &Vec<Transaction>, id: i32) -> (r: bool)
    ensures
        r == owned_by(owners@, id),
{
    let mut i: usize = 0;
    while i < owners.len()
        invariant
            i <= owners.len(),
            forall|k: int| 0 <= k < i ==> (#[trigger] owners@[k]).id != id,
        decreases owners.len() - i,
    {
        if owners[i].id == id {
            return true;
        }
        i += 1;
    }
    false
}

/// The block at `height` with its transactions and their inputs and
/// outputs, or none where the store holds no block of that height.
pub fn block_detail(store: &Store, height: i32) -> (r: Option<BlockDetailData>)
    ensures
        match block_at(store@.blocks, height) {
            None => r is None,
            Some(block_info) => {
                &&& r is Some
                &&& r->0.block_info == block_info
                &&& r->0.transactions@ == transactions_at(store@.transactions, height)
                &&& r->0.inputs@ == inputs_of(store@.inputs, r->0.transactions@)
                &&& r->0.outputs@ == outputs_of(store@.outputs, r->0.transactions@)
            },
        },
{
    let block_info = match first_block_at(store.blocks(), height) {
        Some(row) => row,
        None => {
            return None;
        },
    };
    let all = store.transactions();
    let mut transactions: Vec<Transaction> = Vec::new();
    let mut i: usize = 0;
    while i < all.len()
        invariant
            i <= all.len(),
            transactions@ == transactions_at(all@.take(i as int), height),
        decreases all.len() - i,
    {
        proof {
            assert(all@.take(i + 1).drop_last() == all@.take(i as int));
        }
        if all[i].block_height == height {
            transactions.push(all[i].clone());
        }
        i += 1;
    }
    proof {
        assert(all@.take(all.len() as int) == all@);
    }
    let all_inputs = store.inputs();
    let mut inputs: Vec<TransactionInput> = Vec::new();
    let mut j: usize = 0;
    while j < all_inputs.len()
        invariant
            j <= all_inputs.len(),
            inputs@ == inputs_of(all_inputs@.take(j as int), transactions@),
        decreases all_inputs.len() - j,
    {
        proof {
            assert(all_inputs@.take(j + 1).drop_last() == all_inputs@.take(j as int));
        }
        if owns(&transactions, all_inputs[j].transaction_id) {
            inputs.push(all_inputs[j].clone());
        }
        j += 1;
    }
    proof {
        assert(all_inputs@.take(all_inputs.len() as int) == all_inputs@);
    }
    let all_outputs = store.outputs();
    let mut outputs: Vec<TransactionOutput> = Vec::new();
    let mut k: usize = 0;
    while k < all_outputs.len()
        invariant
            k <= all_outputs.len(),
            outputs@ == outputs_of(all_outputs@.take(k as int), transactions@),
        decreases all_outputs.len() - k,
    {
        proof {
            assert(all_outputs@.take(k + 1).drop_last() == all_outputs@.take(k as int));
        }
        if owns(&transactions, all_outputs[k].transaction_id) {
            outputs.push(all_outputs[k].clone());
        }
        k += 1;
    }
    proof {
        assert(all_outputs@.take(all_outputs.len() as int) == all_outputs@);
    }
    Some(BlockDetailData { block_info, transactions, inputs, outputs })
}

/// Where a row with the id `id` enters rows that are listed from the
/// greatest id down: behind every row whose id is not less.
pub open spec fn entry_point<R: Keyed>(listed: Seq<R>, id: i32) -> int
    decreases listed.len(),
{
    if listed.len() > 0 && listed.last().key() < id {
        entry_point(listed.drop_last(), id)
    } else {
        listed.len() as int
    }
}

/// The rows listed from the greatest id down. Rows that share an id keep
/// their table order.
pub open spec fn newest_first<R: Keyed>(rows: Seq<R>) -> Seq<R>
    decreases rows.len(),
{
    if rows.len() == 0 {
        Seq::empty()
    } else {
        let listed = newest_first(rows.drop_last());
        listed.insert(entry_point(listed, rows.last().key()), rows.last())
    }
}

/// The ids of `rows` never rise from one row to a later one.
pub open spec fn descending<R: Keyed>(rows: Seq<R>) -> bool {
    forall|i: int, j: int|
        0 <= i < j < rows.len() ==> (#[trigger] rows[i]).key() >= (#[trigger] rows[j]).key()
}

/// The entry point parts the rows: every row from it on has a lesser id, and
/// the row before it has not.
proof fn lemma_entry_point_parts<R: Keyed>(listed: Seq<R>, id: i32)
    ensures
        0 <= entry_point(listed, id) <= listed.len(),
        forall|k: int|
            entry_point(listed, id) <= k < listed.len() ==> (#[trigger] listed[k]).key() < id,
        entry_point(listed, id) > 0 ==> listed[entry_point(listed, id) - 1].key() >= id,
    decreases listed.len(),
{
    if listed.len() > 0 && listed.last().key() < id {
        lemma_entry_point_parts(listed.drop_last(), id);
        assert forall|k: int| entry_point(listed, id) <= k < listed.len() implies (
        #[trigger] listed[k]).key() < id by {
            if k < listed.len() - 1 {
                assert(listed.drop_last()[k] == listed[k]);
            }
        }
    }
}

/// Listed newest first, the ids never rise, and the rows are those of the
/// table, each as often as the table holds it.
pub proof fn law_newest_first_sorts<R: Keyed>(rows: Seq<R>)
    ensures
        descending(newest_first(rows)),
        newest_first(rows).to_multiset() == rows.to_multiset(),
        newest_first(rows).len() == rows.len(),
    decreases rows.len(),
{
    if rows.len() > 0 {
        let front = rows.drop_last();
        let row = rows.last();
        let listed = newest_first(front);
        let at = entry_point(listed, row.key());
        let after = listed.insert(at, row);
        law_newest_first_sorts(front);
        lemma_entry_point_parts(listed, row.key());
        assert forall|i: int, j: int| 0 <= i < j < after.len() implies (#[trigger] after[i]).key()
            >= (#[trigger] after[j]).key() by {
            if i < at && j > at {
                assert(after[i] == listed[i]);
                assert(after[j] == listed[j - 1]);
            } else if j < at {
                assert(after[i] == listed[i]);
                assert(after[j] == listed[j]);
            } else if i > at {
                assert(after[i] == listed[i - 1]);
                assert(after[j] == listed[j - 1]);
            } else if i == at {
                assert(after[j] == listed[j - 1]);
            } else {
                assert(after[i] == listed[i]);
                if i < at - 1 {
                    assert(listed[i].key() >= listed[at - 1].key());
                }
            }
        }
        to_multiset_insert(listed, at, row);
        assert(front.push(row) == rows);
        to_multiset_build(front, row);
        assert(newest_first(rows) == after);
        assert(after.to_multiset() == front.to_multiset().insert(row));
    } else {
        assert(rows == Seq::<R>::empty());
    }
}

/// Every row of the listing is a row of the table.
proof fn lemma_listed_rows_are_rows<R: Keyed>(rows: Seq<R>, i: int)
    requires
        0 <= i < newest_first(rows).len(),
    ensures
        rows.contains(newest_first(rows)[i]),
{
    law_newest_first_sorts(rows);
    let listed = newest_first(rows);
    let row = listed[i];
    assert(listed.contains(row));
    to_multiset_contains(listed, row);
    to_multiset_contains(rows, row);
}

/// Where no two rows of the table share an id, the ids of the listing fall
/// strictly from each row to the next.
pub proof fn law_newest_first_of_unique_ids_falls<R: Keyed>(rows: Seq<R>)
    requires
        keys_unique(rows),
    ensures
        forall|i: int, j: int|
            0 <= i < j < newest_first(rows).len() ==> (#[trigger] newest_first(rows)[i]).key() > (
            #[trigger] newest_first(rows)[j]).key(),
    decreases rows.len(),
{
    if rows.len() > 0 {
        let front = rows.drop_last();
        let row = rows.last();
        let listed = newest_first(front);
        let at = entry_point(listed, row.key());
        let after = listed.insert(at, row);
        assert forall|i: int, j: int| 0 <= i < j < front.len() implies (#[trigger] front[i]).key()
            != (#[trigger] front[j]).key() by {
            assert(front[i] == rows[i] && front[j] == rows[j]);
        }
        law_newest_first_of_unique_ids_falls(front);
        law_newest_first_sorts(front);
        law_newest_first_sorts(rows);
        lemma_entry_point_parts(listed, row.key());
        assert forall|k: int| 0 <= k < listed.len() implies (#[trigger] listed[k]).key()
            != row.key() by {
            lemma_listed_rows_are_rows(front, k);
            let m = choose|m: int| 0 <= m < front.len() && front[m] == listed[k];
            assert(front[m] == rows[m]);
            assert(rows[rows.len() - 1] == row);
        }
        assert forall|i: int, j: int| 0 <= i < j < after.len() implies (#[trigger] after[i]).key()
            > (#[trigger] after[j]).key() by {
            if i < at && j > at {
                assert(after[i] == listed[i]);
                assert(after[j] == listed[j - 1]);
            } else if j < at {
                assert(after[i] == listed[i]);
                assert(after[j] == listed[j]);
            } else if i > at {
                assert(after[i] == listed[i - 1]);
                assert(after[j] == listed[j - 1]);
            } else if i == at {
                assert(after[j] == listed[j - 1]);
            } else {
                assert(after[i] == listed[i]);
                if i < at - 1 {
                    assert(listed[i].key() > listed[at - 1].key());
                }
            }
        }
    }
}

/// Lists `rows` from the greatest id down.
pub fn list_newest_first<R: Keyed + Copy>(rows: &Vec<R>) -> (r: Vec<R>)
    ensures
        r@ == newest_first(rows@),
{
    let mut listed: Vec<R> = Vec::new();
    let mut i: usize = 0;
    while i < rows.len()
        invariant
            i <= rows.len(),
            listed@ == newest_first(rows@.take(i as int)),
        decreases rows.len() - i,
    {
        let row = rows[i];
        let id = row.id();
        let mut at: usize = listed.len();
        proof {
            assert(listed@.take(at as int) == listed@);
        }
        while at > 0 && listed[at - 1].id() < id
            invariant
                at <= listed.len(),
                entry_point(listed@, id) == entry_point(listed@.take(at as int), id),
            decreases at,
        {
            proof {
                assert(listed@.take(at as int).drop_last() == listed@.take(at - 1));
            }
            at -= 1;
        }
        proof {
            assert(rows@.take(i + 1).drop_last() == rows@.take(i as int));
            assert(rows@.take(i + 1).last() == row);
        }
        listed.insert(at, row);
        i += 1;
    }
    proof {
        assert(rows@.take(rows.len() as int) == rows@);
    }
    listed
}

/// The block rows of the store, newest first.
pub fn blocks_newest_first(store: &Store) -> (r: Vec<BlockInfo>)
    ensures
        r@ == newest_first(store@.blocks),
{
    list_newest_first(store.blocks())
}

/// The sample rows of the store, newest first.
pub fn samples_newest_first(store: &Store) -> (r: Vec<OffchainData>)
    ensures
        r@ == newest_first(store@.samples),
{
    list_newest_first(store.samples())
}

} // verus!
