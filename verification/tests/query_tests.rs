use ingestion::calendar::CalendarTime;
use ingestion::decompose::{
    BlockSummary, NormalizedBlock, NormalizedInput, NormalizedOutput, NormalizedTransaction,
};
use ingestion::persist::persist;
use ingestion::query::block_detail;
use ingestion::store::Store;

fn block(height: i32, hash: &str) -> NormalizedBlock {
    NormalizedBlock {
        summary: BlockSummary {
            height,
            tx_count: 1,
            difficulty: 0,
            block_time: 0,
            timestamp: CalendarTime {
                year: 2024,
                month: 2,
                day: 3,
                hour: 4,
                minute: 5,
                second: 6,
                nanosecond: 0,
            },
            size: 1,
            weight: 4,
        },
        transactions: vec![NormalizedTransaction {
            hash: hash.to_string(),
            btc: 9,
            fee: 1,
            time: 0,
            inputs: vec![NormalizedInput { previous_output: format!("in-{}", hash), value: 10 }],
            outputs: vec![
                NormalizedOutput { address: format!("out-{}", hash), value: 4 },
                NormalizedOutput { address: "".to_string(), value: 5 },
            ],
        }],
    }
}

#[test]
fn block_detail_of_an_unknown_height_is_none() {
    let mut store = Store::new();
    persist(&mut store, block(10, "a"));
    assert_eq!(block_detail(&store, 11), None);
    assert_eq!(block_detail(&Store::new(), 10), None);
}

#[test]
fn block_detail_nests_the_rows_of_the_block_only() {
    let mut store = Store::new();
    persist(&mut store, block(10, "a"));
    persist(&mut store, block(11, "b"));
    persist(&mut store, block(12, "c"));
    let detail = block_detail(&store, 11).unwrap();
    assert_eq!(detail.block_info, store.blocks()[1]);
    assert_eq!(detail.transactions, vec![store.transactions()[1].clone()]);
    assert_eq!(detail.inputs, vec![store.inputs()[1].clone()]);
    assert_eq!(detail.outputs, vec![store.outputs()[2].clone(), store.outputs()[3].clone()]);
    assert_eq!(detail.transactions[0].hash, "b");
    assert_eq!(detail.inputs[0].transaction_id, detail.transactions[0].id);
    assert_eq!(detail.outputs[1].transaction_id, detail.transactions[0].id);
}

fn block_row(id: i32, height: i32) -> ingestion::model::BlockInfo {
    ingestion::model::BlockInfo {
        id,
        height,
        avg_tx_count: 0,
        difficulty: 0,
        block_time: 0,
        timestamp: CalendarTime {
            year: 2024,
            month: 2,
            day: 3,
            hour: 4,
            minute: 5,
            second: 6,
            nanosecond: 0,
        },
        size: 0,
        weight: 0,
    }
}

#[test]
fn list_newest_first_sorts_by_id_from_the_greatest_down() {
    let rows = vec![block_row(3, 30), block_row(9, 90), block_row(-1, 10), block_row(5, 50)];
    let listed = ingestion::query::list_newest_first(&rows);
    let ids: Vec<i32> = listed.iter().map(|row| row.id).collect();
    assert_eq!(ids, vec![9, 5, 3, -1]);
    assert_eq!(listed[0], block_row(9, 90));
    assert_eq!(ingestion::query::list_newest_first(&Vec::<ingestion::model::BlockInfo>::new()), vec![]);
}

#[test]
fn list_newest_first_keeps_rows_of_one_id_in_table_order() {
    let rows = vec![block_row(2, 1), block_row(7, 2), block_row(2, 3), block_row(7, 4)];
    let listed = ingestion::query::list_newest_first(&rows);
    assert_eq!(listed, vec![block_row(7, 2), block_row(7, 4), block_row(2, 1), block_row(2, 3)]);
}

#[test]
fn stored_rows_are_listed_newest_first() {
    let mut store = Store::new();
    persist(&mut store, block(10, "a"));
    persist(&mut store, block(11, "b"));
    persist(&mut store, block(12, "c"));
    let heights: Vec<i32> =
        ingestion::query::blocks_newest_first(&store).iter().map(|row| row.height).collect();
    assert_eq!(heights, vec![12, 11, 10]);
    assert_eq!(ingestion::query::samples_newest_first(&store), vec![]);
    let sample = ingestion::model::OffchainData {
        id: 0,
        block_height: 10,
        btc_price: 1,
        market_sentiment: None,
        volume: None,
        high: None,
        low: None,
        timestamp: block_row(0, 0).timestamp,
    };
    ingestion::sampler::upsert(&mut store, sample);
    ingestion::sampler::upsert(&mut store, ingestion::model::OffchainData { btc_price: 2, ..sample });
    let ids: Vec<i32> =
        ingestion::query::samples_newest_first(&store).iter().map(|row| row.id).collect();
    assert_eq!(ids, vec![2, 1]);
}
