use ingestion::calendar::CalendarTime;
use ingestion::error::SyncError;
use ingestion::model::{BlockInfo, OffchainData, Transaction, TransactionInput, TransactionOutput};
use ingestion::store::{holds_id, latest_id, Store, StoreCommand, StoreReply, Table};

fn midnight() -> CalendarTime {
    CalendarTime { year: 2024, month: 1, day: 1, hour: 0, minute: 0, second: 0, nanosecond: 0 }
}

fn block(id: i32, height: i32) -> BlockInfo {
    BlockInfo {
        id,
        height,
        avg_tx_count: 1,
        difficulty: 0,
        block_time: 0,
        timestamp: midnight(),
        size: 1,
        weight: 4,
    }
}

fn sample(id: i32, block_height: i32, btc_price: i64, volume: Option<i64>) -> OffchainData {
    OffchainData {
        id,
        block_height,
        btc_price,
        market_sentiment: None,
        volume,
        high: None,
        low: None,
        timestamp: midnight(),
    }
}

#[test]
fn new_store_is_empty() {
    let store = Store::new();
    assert!(store.blocks().is_empty());
    assert!(store.transactions().is_empty());
    assert!(store.inputs().is_empty());
    assert!(store.outputs().is_empty());
    assert!(store.samples().is_empty());
}

#[test]
fn latest_id_is_the_greatest_id_not_the_last() {
    let rows = vec![block(3, 1), block(9, 2), block(-4, 3), block(5, 4)];
    assert_eq!(latest_id(&rows), Some(9));
    assert_eq!(latest_id(&Vec::<BlockInfo>::new()), None);
    assert!(holds_id(&rows, -4));
    assert!(!holds_id(&rows, 4));
}

#[test]
fn latest_id_reads_each_table() {
    let mut store = Store::new();
    for table in [Table::Blocks, Table::Transactions, Table::Inputs, Table::Outputs, Table::Samples] {
        assert_eq!(store.execute(StoreCommand::LatestId { table }), StoreReply::Latest { id: None });
    }
    store.execute(StoreCommand::InsertBlock { row: block(2, 10) });
    store.execute(StoreCommand::InsertTransaction {
        row: Transaction { id: 3, block_height: 10, hash: "h".to_string(), btc: 1, fee: 0, time: 0 },
    });
    store.execute(StoreCommand::InsertInput {
        row: TransactionInput { id: 4, transaction_id: 3, previous_output: "p".to_string(), value: 1 },
    });
    store.execute(StoreCommand::InsertOutput {
        row: TransactionOutput { id: 5, transaction_id: 3, address: "a".to_string(), value: 1 },
    });
    store.execute(StoreCommand::InsertSample { row: sample(6, 10, 100, None) });
    let expected = [
        (Table::Blocks, 2),
        (Table::Transactions, 3),
        (Table::Inputs, 4),
        (Table::Outputs, 5),
        (Table::Samples, 6),
    ];
    for (table, id) in expected {
        assert_eq!(
            store.execute(StoreCommand::LatestId { table }),
            StoreReply::Latest { id: Some(id) }
        );
    }
}

#[test]
fn insert_refuses_a_taken_id() {
    let mut store = Store::new();
    assert_eq!(store.execute(StoreCommand::InsertBlock { row: block(1, 10) }), StoreReply::Done);
    assert_eq!(
        store.execute(StoreCommand::InsertBlock { row: block(1, 11) }),
        StoreReply::Failed { error: SyncError::StoreWriteError }
    );
    assert_eq!(store.blocks(), &vec![block(1, 10)]);
}

#[test]
fn insert_does_not_enforce_unique_heights() {
    let mut store = Store::new();
    assert_eq!(store.execute(StoreCommand::InsertBlock { row: block(1, 10) }), StoreReply::Done);
    assert_eq!(store.execute(StoreCommand::InsertBlock { row: block(2, 10) }), StoreReply::Done);
    assert_eq!(store.blocks().len(), 2);
}

#[test]
fn find_block_answers_the_first_row_of_the_height() {
    let mut store = Store::new();
    store.execute(StoreCommand::InsertBlock { row: block(7, 10) });
    store.execute(StoreCommand::InsertBlock { row: block(8, 11) });
    store.execute(StoreCommand::InsertBlock { row: block(9, 11) });
    assert_eq!(
        store.execute(StoreCommand::FindBlock { height: 11 }),
        StoreReply::Found { id: Some(8) }
    );
    assert_eq!(store.execute(StoreCommand::FindBlock { height: 12 }), StoreReply::Found { id: None });
}

#[test]
fn find_sample_needs_height_and_price() {
    let mut store = Store::new();
    store.execute(StoreCommand::InsertSample { row: sample(1, 10, 100, None) });
    store.execute(StoreCommand::InsertSample { row: sample(2, 10, 200, None) });
    assert_eq!(
        store.execute(StoreCommand::FindSample { block_height: 10, btc_price: 200 }),
        StoreReply::Found { id: Some(2) }
    );
    assert_eq!(
        store.execute(StoreCommand::FindSample { block_height: 11, btc_price: 200 }),
        StoreReply::Found { id: None }
    );
    assert_eq!(
        store.execute(StoreCommand::FindSample { block_height: 10, btc_price: 300 }),
        StoreReply::Found { id: None }
    );
}

#[test]
fn update_sample_changes_the_non_key_fields_of_one_id() {
    let mut store = Store::new();
    store.execute(StoreCommand::InsertSample { row: sample(1, 10, 100, Some(5)) });
    store.execute(StoreCommand::InsertSample { row: sample(2, 11, 200, Some(6)) });
    let fresh = OffchainData {
        id: 2,
        block_height: 99,
        btc_price: 999,
        market_sentiment: Some(1),
        volume: Some(2),
        high: Some(3),
        low: Some(4),
        timestamp: CalendarTime { year: 2025, ..midnight() },
    };
    assert_eq!(store.execute(StoreCommand::UpdateSample { row: fresh }), StoreReply::Done);
    assert_eq!(store.samples()[0], sample(1, 10, 100, Some(5)));
    assert_eq!(
        store.samples()[1],
        OffchainData { id: 2, block_height: 11, btc_price: 200, ..fresh }
    );
}

#[test]
fn update_sample_of_an_unknown_id_changes_nothing() {
    let mut store = Store::new();
    store.execute(StoreCommand::InsertSample { row: sample(1, 10, 100, Some(5)) });
    assert_eq!(
        store.execute(StoreCommand::UpdateSample { row: sample(2, 10, 100, None) }),
        StoreReply::Done
    );
    assert_eq!(store.samples(), &vec![sample(1, 10, 100, Some(5))]);
}
