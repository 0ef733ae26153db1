use ingestion::calendar::CalendarTime;
use ingestion::decompose::{decompose, NormalizedBlock};
use ingestion::error::SyncError;
use ingestion::payload::{BlockHeader, BlockPayload, InputPayload, OutputPayload, TransactionPayload};

fn header(timestamp: i64) -> BlockHeader {
    BlockHeader {
        height: 800000,
        timestamp,
        tx_count: 2,
        size: 1000,
        weight: 4000,
        mediantime: 1700000000,
        difficulty: 1.0f64.to_bits() as i64,
    }
}

#[test]
fn decompose_converts_epoch_seconds_to_calendar_time() {
    let payload = BlockPayload { header: header(1700000000), transactions: vec![] };
    let block: NormalizedBlock = decompose(&payload).unwrap();
    assert_eq!(
        block.summary.timestamp,
        CalendarTime { year: 2023, month: 11, day: 14, hour: 22, minute: 13, second: 20, nanosecond: 0 }
    );
    assert_eq!(block.summary.height, 800000);
    assert_eq!(block.summary.block_time, 1700000000);
}

#[test]
fn decompose_rejects_seconds_outside_the_calendar() {
    let payload = BlockPayload { header: header(i64::MAX), transactions: vec![] };
    assert_eq!(decompose(&payload), Err(SyncError::MalformedResponse));
}

#[test]
fn decompose_sums_outputs_and_joins_addresses() {
    let tx = TransactionPayload {
        txid: "aa".to_string(),
        fee: 100,
        vin: vec![
            InputPayload { txid: "p0".to_string(), prevout_value: Some(7000) },
            InputPayload { txid: "p1".to_string(), prevout_value: None },
        ],
        vout: vec![
            OutputPayload { value: 5000, addresses: Some(vec!["a1".to_string(), "a2".to_string()]) },
            OutputPayload { value: 1900, addresses: None },
        ],
    };
    let payload = BlockPayload { header: header(0), transactions: vec![tx] };
    let block = decompose(&payload).unwrap();
    let t = &block.transactions[0];
    assert_eq!(t.btc, 6900);
    assert_eq!(t.fee, 100);
    assert_eq!(t.time, 0);
    assert_eq!(t.hash, "aa");
    assert_eq!(t.inputs[0].value, 7000);
    assert_eq!(t.inputs[1].value, 0);
    assert_eq!(t.inputs[1].previous_output, "p1");
    assert_eq!(t.outputs[0].address, "a1, a2");
    assert_eq!(t.outputs[1].address, "");
}

#[test]
fn decompose_at_keeps_the_header_and_the_order_of_transactions() {
    let when = CalendarTime { year: 2009, month: 1, day: 3, hour: 18, minute: 15, second: 5, nanosecond: 0 };
    let payload = BlockPayload {
        header: BlockHeader {
            height: 7,
            timestamp: 1231006505,
            tx_count: 3,
            size: 285,
            weight: 1140,
            mediantime: 1231006000,
            difficulty: 55,
        },
        transactions: vec![
            TransactionPayload { txid: "first".to_string(), fee: 1, vin: vec![], vout: vec![] },
            TransactionPayload { txid: "second".to_string(), fee: 2, vin: vec![], vout: vec![] },
        ],
    };
    let block = ingestion::decompose::decompose_at(&payload, when);
    assert_eq!(
        block.summary,
        ingestion::decompose::BlockSummary {
            height: 7,
            tx_count: 3,
            difficulty: 55,
            block_time: 1231006000,
            timestamp: when,
            size: 285,
            weight: 1140,
        }
    );
    assert_eq!(block.transactions.len(), 2);
    assert_eq!(block.transactions[0].hash, "first");
    assert_eq!(block.transactions[1].hash, "second");
    assert_eq!(block.transactions[1].time, 1231006505);
    assert_eq!(block.transactions[0].btc, 0);
    assert_eq!(decompose(&payload).unwrap(), block);
}

#[test]
fn block_time_keeps_the_low_32_bits_of_the_median_time() {
    let when = CalendarTime { year: 2009, month: 1, day: 3, hour: 18, minute: 15, second: 5, nanosecond: 0 };
    let mut payload = BlockPayload { header: header(0), transactions: vec![] };
    payload.header.mediantime = (1i64 << 32) + 5;
    assert_eq!(ingestion::decompose::decompose_at(&payload, when).summary.block_time, 5);
    payload.header.mediantime = 0xffff_ffff;
    assert_eq!(ingestion::decompose::decompose_at(&payload, when).summary.block_time, -1);
}

#[test]
fn transaction_total_is_the_sum_of_its_output_values() {
    let outputs = vec![
        ingestion::decompose::NormalizedOutput { address: "a".to_string(), value: i64::MAX },
        ingestion::decompose::NormalizedOutput { address: "b".to_string(), value: i64::MAX },
        ingestion::decompose::NormalizedOutput { address: "c".to_string(), value: -3 },
    ];
    assert_eq!(ingestion::decompose::sum_values(&outputs), 2 * (i64::MAX as i128) - 3);
    assert_eq!(ingestion::decompose::sum_values(&vec![]), 0);
    let tx = TransactionPayload {
        txid: "t".to_string(),
        fee: 0,
        vin: vec![],
        vout: vec![
            OutputPayload { value: i64::MAX, addresses: None },
            OutputPayload { value: 1, addresses: None },
        ],
    };
    let n = ingestion::decompose::decompose_transaction(&tx, 9);
    assert_eq!(n.btc, n.outputs.iter().map(|o| o.value as i128).sum::<i128>());
    assert_eq!(n.btc, i64::MAX as i128 + 1);
    assert_eq!(n.time, 9);
}

#[test]
fn input_and_output_records_follow_the_upstream_fields() {
    let with = ingestion::decompose::decompose_input(&InputPayload {
        txid: "spent".to_string(),
        prevout_value: Some(-4),
    });
    assert_eq!((with.previous_output.as_str(), with.value), ("spent", -4));
    let without = ingestion::decompose::decompose_input(&InputPayload {
        txid: "coinbase".to_string(),
        prevout_value: None,
    });
    assert_eq!((without.previous_output.as_str(), without.value), ("coinbase", 0));
    let no_addresses = ingestion::decompose::decompose_output(&OutputPayload {
        value: 3,
        addresses: Some(vec![]),
    });
    assert_eq!((no_addresses.address.as_str(), no_addresses.value), ("", 3));
    let one = ingestion::decompose::decompose_output(&OutputPayload {
        value: 4,
        addresses: Some(vec!["bc1q".to_string()]),
    });
    assert_eq!(one.address, "bc1q");
    assert_eq!(ingestion::decompose::ADDRESS_SEPARATOR, ", ");
}
