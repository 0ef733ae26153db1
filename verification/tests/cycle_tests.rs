use ingestion::calendar::CalendarTime;
use ingestion::cycle::{CycleAction, CycleEvent, CycleOutcome, SyncCycle, SyncGuard};
use ingestion::error::SyncError;
use ingestion::model::{BlockInfo, Transaction, TransactionInput, TransactionOutput};
use ingestion::payload::{
    BlockDetail, BlockHeader, InputPayload, OutputPayload, TransactionPayload,
};
use ingestion::resolver::{Body, HttpReply, Request};
use ingestion::store::{Store, StoreCommand, StoreReply};

fn header(timestamp: i64) -> BlockHeader {
    BlockHeader {
        height: 800000,
        timestamp,
        tx_count: 2,
        size: 1000,
        weight: 4000,
        mediantime: 1700000000,
        difficulty: 1.0f64.to_bits() as i64,
    }
}

fn transactions() -> Vec<TransactionPayload> {
    vec![
        TransactionPayload {
            txid: "tx-one".to_string(),
            fee: 100,
            vin: vec![InputPayload { txid: "prev".to_string(), prevout_value: Some(5100) }],
            vout: vec![OutputPayload { value: 5000, addresses: Some(vec!["addr".to_string()]) }],
        },
        TransactionPayload {
            txid: "tx-two".to_string(),
            fee: 0,
            vin: vec![InputPayload { txid: "coinbase".to_string(), prevout_value: None }],
            vout: vec![
                OutputPayload { value: 10, addresses: None },
                OutputPayload { value: 20, addresses: Some(vec!["x".to_string(), "y".to_string()]) },
            ],
        },
    ]
}

fn text(status: u16, body: &str) -> CycleEvent {
    CycleEvent::Fetched {
        reply: HttpReply::Answered { status, body: Body::Text { text: body.to_string() } },
    }
}

fn detail(timestamp: i64, tx: Option<Vec<TransactionPayload>>) -> CycleEvent {
    CycleEvent::Fetched {
        reply: HttpReply::Answered {
            status: 200,
            body: Body::Block { detail: BlockDetail { header: header(timestamp), tx } },
        },
    }
}

fn listed(transactions: Vec<TransactionPayload>) -> CycleEvent {
    CycleEvent::Fetched {
        reply: HttpReply::Answered { status: 200, body: Body::Transactions { transactions } },
    }
}

fn run_store(cycle: &mut SyncCycle, store: &mut Store, first: CycleAction) -> CycleOutcome {
    let mut action = first;
    loop {
        match action {
            CycleAction::Store { command } => {
                let reply = store.execute(command);
                action = cycle.on_event(CycleEvent::Stored { reply });
            },
            CycleAction::Finish { outcome } => return outcome,
            other => panic!("unexpected action {:?}", other),
        }
    }
}

fn run_cycle(cycle: &mut SyncCycle, store: &mut Store, timestamp: i64) -> CycleOutcome {
    assert_eq!(cycle.on_event(CycleEvent::Tick), CycleAction::Fetch { request: Request::TipHeight });
    assert_eq!(
        cycle.on_event(text(200, "800000")),
        CycleAction::Fetch { request: Request::BlockHash { height: 800000 } }
    );
    assert_eq!(
        cycle.on_event(text(200, "00abc...")),
        CycleAction::Fetch { request: Request::BlockDetail { hash: "00abc...".to_string() } }
    );
    assert_eq!(
        cycle.on_event(detail(timestamp, None)),
        CycleAction::Fetch { request: Request::BlockTransactions { hash: "00abc...".to_string() } }
    );
    let first = cycle.on_event(listed(transactions()));
    assert_eq!(first, CycleAction::Store { command: StoreCommand::FindBlock { height: 800000 } });
    assert!(cycle.in_flight());
    run_store(cycle, store, first)
}

#[test]
fn guard_is_taken_once_and_released() {
    let mut guard = SyncGuard::new();
    assert!(!guard.held());
    assert!(guard.try_acquire());
    assert!(guard.held());
    assert!(!guard.try_acquire());
    assert!(guard.held());
    guard.release();
    assert!(!guard.held());
    assert!(guard.try_acquire());
}

#[test]
fn full_cycle_mirrors_the_tip_block() {
    let mut cycle = SyncCycle::new();
    let mut store = Store::new();
    assert!(!cycle.in_flight());
    let outcome = run_cycle(&mut cycle, &mut store, 1700000600);
    assert_eq!(outcome, CycleOutcome::Success);
    assert!(!cycle.in_flight());
    assert_eq!(
        store.blocks(),
        &vec![BlockInfo {
            id: 1,
            height: 800000,
            avg_tx_count: 2,
            difficulty: 1.0f64.to_bits() as i64,
            block_time: 1700000000,
            timestamp: CalendarTime {
                year: 2023,
                month: 11,
                day: 14,
                hour: 22,
                minute: 23,
                second: 20,
                nanosecond: 0,
            },
            size: 1000,
            weight: 4000,
        }]
    );
    assert_eq!(
        store.transactions(),
        &vec![
            Transaction {
                id: 1,
                block_height: 800000,
                hash: "tx-one".to_string(),
                btc: 5000,
                fee: 100,
                time: 1700000600,
            },
            Transaction {
                id: 2,
                block_height: 800000,
                hash: "tx-two".to_string(),
                btc: 30,
                fee: 0,
                time: 1700000600,
            },
        ]
    );
    assert_eq!(store.transactions()[0].btc as f64, 5000.0);
    assert_eq!(
        store.inputs(),
        &vec![
            TransactionInput {
                id: 1,
                transaction_id: 1,
                previous_output: "prev".to_string(),
                value: 5100,
            },
            TransactionInput {
                id: 2,
                transaction_id: 2,
                previous_output: "coinbase".to_string(),
                value: 0,
            },
        ]
    );
    assert_eq!(
        store.outputs(),
        &vec![
            TransactionOutput { id: 1, transaction_id: 1, address: "addr".to_string(), value: 5000 },
            TransactionOutput { id: 2, transaction_id: 2, address: "".to_string(), value: 10 },
            TransactionOutput { id: 3, transaction_id: 2, address: "x, y".to_string(), value: 20 },
        ]
    );
}

#[test]
fn status_503_on_the_hash_call_aborts_the_cycle_and_frees_the_guard() {
    let mut cycle = SyncCycle::new();
    let store = Store::new();
    assert_eq!(cycle.on_event(CycleEvent::Tick), CycleAction::Fetch { request: Request::TipHeight });
    assert_eq!(
        cycle.on_event(text(200, "800000")),
        CycleAction::Fetch { request: Request::BlockHash { height: 800000 } }
    );
    assert_eq!(
        cycle.on_event(text(503, "Service Unavailable")),
        CycleAction::Finish {
            outcome: CycleOutcome::Error { error: SyncError::UpstreamStatusError { code: 503 } },
        }
    );
    assert!(!cycle.in_flight());
    assert_eq!(store, Store::new());
    assert_eq!(cycle.on_event(CycleEvent::Tick), CycleAction::Fetch { request: Request::TipHeight });
    assert!(cycle.in_flight());
}

#[test]
fn tick_during_a_cycle_is_skipped() {
    let mut cycle = SyncCycle::new();
    cycle.on_event(CycleEvent::Tick);
    assert_eq!(cycle.on_event(CycleEvent::Tick), CycleAction::Skip);
    assert!(cycle.in_flight());
    assert_eq!(
        cycle.on_event(text(200, "800000")),
        CycleAction::Fetch { request: Request::BlockHash { height: 800000 } }
    );
    assert_eq!(cycle.on_event(CycleEvent::Tick), CycleAction::Skip);
    cycle.on_event(text(200, "hash"));
    cycle.on_event(detail(0, Some(vec![])));
    assert_eq!(cycle.on_event(CycleEvent::Tick), CycleAction::Skip);
    assert!(cycle.in_flight());
}

#[test]
fn events_out_of_turn_are_skipped() {
    let mut cycle = SyncCycle::new();
    assert_eq!(cycle.on_event(text(200, "800000")), CycleAction::Skip);
    assert_eq!(cycle.on_event(CycleEvent::Stored { reply: StoreReply::Done }), CycleAction::Skip);
    assert!(!cycle.in_flight());
    cycle.on_event(CycleEvent::Tick);
    assert_eq!(cycle.on_event(CycleEvent::Stored { reply: StoreReply::Done }), CycleAction::Skip);
    assert_eq!(
        cycle.on_event(text(200, "800000")),
        CycleAction::Fetch { request: Request::BlockHash { height: 800000 } }
    );
}

#[test]
fn transport_failure_aborts_the_cycle() {
    let mut cycle = SyncCycle::new();
    cycle.on_event(CycleEvent::Tick);
    assert_eq!(
        cycle.on_event(CycleEvent::Fetched { reply: HttpReply::Unreachable }),
        CycleAction::Finish {
            outcome: CycleOutcome::Error { error: SyncError::UpstreamUnavailable },
        }
    );
    assert!(!cycle.in_flight());
}

#[test]
fn block_with_seconds_outside_the_calendar_is_malformed() {
    let mut cycle = SyncCycle::new();
    cycle.on_event(CycleEvent::Tick);
    cycle.on_event(text(200, "800000"));
    cycle.on_event(text(200, "hash"));
    assert_eq!(
        cycle.on_event(detail(i64::MIN, Some(transactions()))),
        CycleAction::Finish {
            outcome: CycleOutcome::Error { error: SyncError::MalformedResponse },
        }
    );
    assert!(!cycle.in_flight());
}

#[test]
fn embedded_transactions_spare_the_fourth_call() {
    let mut cycle = SyncCycle::new();
    let mut store = Store::new();
    cycle.on_event(CycleEvent::Tick);
    cycle.on_event(text(200, "800000"));
    cycle.on_event(text(200, "hash"));
    let first = cycle.on_event(detail(0, Some(transactions())));
    assert_eq!(first, CycleAction::Store { command: StoreCommand::FindBlock { height: 800000 } });
    assert_eq!(run_store(&mut cycle, &mut store, first), CycleOutcome::Success);
    assert_eq!(store.transactions().len(), 2);
}

#[test]
fn second_cycle_on_the_same_tip_adds_no_summary_row() {
    let mut cycle = SyncCycle::new();
    let mut store = Store::new();
    assert_eq!(run_cycle(&mut cycle, &mut store, 1700000600), CycleOutcome::Success);
    assert_eq!(run_cycle(&mut cycle, &mut store, 1700000600), CycleOutcome::Success);
    assert_eq!(store.blocks().len(), 1);
    assert_eq!(store.blocks()[0].id, 1);
}

#[test]
fn skipped_row_makes_the_cycle_partial() {
    let mut cycle = SyncCycle::new();
    cycle.on_event(CycleEvent::Tick);
    cycle.on_event(text(200, "800000"));
    cycle.on_event(text(200, "hash"));
    cycle.on_event(detail(0, Some(vec![])));
    assert_eq!(
        cycle.on_event(CycleEvent::Stored {
            reply: StoreReply::Failed { error: SyncError::StoreWriteError },
        }),
        CycleAction::Finish { outcome: CycleOutcome::Partial }
    );
    assert!(!cycle.in_flight());
}

#[test]
fn unavailable_store_aborts_the_cycle() {
    let mut cycle = SyncCycle::new();
    cycle.on_event(CycleEvent::Tick);
    cycle.on_event(text(200, "800000"));
    cycle.on_event(text(200, "hash"));
    cycle.on_event(detail(0, Some(transactions())));
    assert_eq!(
        cycle.on_event(CycleEvent::Stored {
            reply: StoreReply::Failed { error: SyncError::StoreUnavailable },
        }),
        CycleAction::Finish {
            outcome: CycleOutcome::Error { error: SyncError::StoreUnavailable },
        }
    );
    assert!(!cycle.in_flight());
    assert_eq!(cycle.on_event(CycleEvent::Tick), CycleAction::Fetch { request: Request::TipHeight });
}

#[test]
fn step_by_value_agrees_with_on_event() {
    let (cycle, action) = SyncCycle::new().step(CycleEvent::Tick);
    assert_eq!(action, CycleAction::Fetch { request: Request::TipHeight });
    assert!(cycle.in_flight());
    let (cycle, action) = cycle.step(CycleEvent::Fetched { reply: HttpReply::Unreachable });
    assert_eq!(
        action,
        CycleAction::Finish {
            outcome: CycleOutcome::Error { error: SyncError::UpstreamUnavailable },
        }
    );
    assert!(!cycle.in_flight());
}

#[test]
fn run_on_store_answers_the_store_operations_until_the_cycle_ends() {
    let mut cycle = SyncCycle::new();
    let mut store = Store::new();
    cycle.on_event(CycleEvent::Tick);
    cycle.on_event(text(200, "800000"));
    cycle.on_event(text(200, "hash"));
    let first = cycle.on_event(detail(1700000600, Some(transactions())));
    let last = cycle.run_on_store(&mut store, first);
    assert_eq!(last, CycleAction::Finish { outcome: CycleOutcome::Success });
    assert!(!cycle.in_flight());
    assert_eq!(store.blocks().len(), 1);
    assert_eq!(store.transactions().len(), 2);
    assert_eq!(store.inputs().len(), 2);
    assert_eq!(store.outputs().len(), 3);
    let mut by_hand = Store::new();
    let mut other = SyncCycle::new();
    assert_eq!(run_cycle(&mut other, &mut by_hand, 1700000600), CycleOutcome::Success);
    assert_eq!(store, by_hand);
}

#[test]
fn run_on_store_hands_back_what_is_no_store_operation() {
    let mut cycle = SyncCycle::new();
    let mut store = Store::new();
    let tick = cycle.on_event(CycleEvent::Tick);
    let last = cycle.run_on_store(&mut store, tick);
    assert_eq!(last, CycleAction::Fetch { request: Request::TipHeight });
    assert!(cycle.in_flight());
    assert_eq!(store, Store::new());
    assert_eq!(cycle.run_on_store(&mut store, CycleAction::Skip), CycleAction::Skip);
}

#[test]
fn run_on_store_out_of_turn_ends_after_one_operation() {
    let mut cycle = SyncCycle::new();
    let mut store = Store::new();
    let stray = CycleAction::Store { command: StoreCommand::FindBlock { height: 1 } };
    assert_eq!(cycle.run_on_store(&mut store, stray), CycleAction::Skip);
    assert!(!cycle.in_flight());
    assert_eq!(store, Store::new());
}

fn is_insert(command: &StoreCommand) -> bool {
    matches!(
        command,
        StoreCommand::InsertBlock { .. }
            | StoreCommand::InsertTransaction { .. }
            | StoreCommand::InsertInput { .. }
            | StoreCommand::InsertOutput { .. }
    )
}

fn run_refusing(store: &mut Store, refused: usize) -> (CycleOutcome, bool, usize) {
    let mut cycle = SyncCycle::new();
    cycle.on_event(CycleEvent::Tick);
    cycle.on_event(text(200, "800000"));
    cycle.on_event(text(200, "hash"));
    let mut action = cycle.on_event(detail(1700000600, Some(transactions())));
    let mut inserts = 0;
    loop {
        match action {
            CycleAction::Store { command } => {
                let reply = if is_insert(&command) {
                    inserts += 1;
                    if inserts == refused {
                        StoreReply::Failed { error: SyncError::StoreWriteError }
                    } else {
                        store.execute(command)
                    }
                } else {
                    store.execute(command)
                };
                action = cycle.on_event(CycleEvent::Stored { reply });
            },
            CycleAction::Finish { outcome } => return (outcome, cycle.in_flight(), inserts),
            other => panic!("unexpected action {:?}", other),
        }
    }
}

#[test]
fn one_refused_insert_skips_that_row_and_no_other() {
    let mut whole = Store::new();
    let (outcome, in_flight, inserts) = run_refusing(&mut whole, 0);
    assert_eq!((outcome, in_flight, inserts), (CycleOutcome::Success, false, 8));
    let rows = |store: &Store| {
        [
            store.blocks().len(),
            store.transactions().len(),
            store.inputs().len(),
            store.outputs().len(),
        ]
    };
    assert_eq!(rows(&whole), [1, 2, 2, 3]);
    let expected = [
        [0, 2, 2, 3],
        [1, 1, 2, 3],
        [1, 2, 1, 3],
        [1, 2, 2, 2],
        [1, 1, 2, 3],
        [1, 2, 1, 3],
        [1, 2, 2, 2],
        [1, 2, 2, 2],
    ];
    for (at, counts) in expected.iter().enumerate() {
        let mut store = Store::new();
        let (outcome, in_flight, inserts) = run_refusing(&mut store, at + 1);
        assert_eq!(outcome, CycleOutcome::Partial, "insert {}", at + 1);
        assert!(!in_flight);
        assert_eq!(inserts, 8, "insert {}", at + 1);
        assert_eq!(&rows(&store), counts, "insert {}", at + 1);
    }
}

#[test]
fn children_of_a_refused_transaction_row_are_written_under_its_reserved_id() {
    let mut store = Store::new();
    let (outcome, _, _) = run_refusing(&mut store, 2);
    assert_eq!(outcome, CycleOutcome::Partial);
    assert_eq!(store.transactions().len(), 1);
    assert_eq!(store.transactions()[0].hash, "tx-two");
    assert_eq!(store.inputs()[0].previous_output, "prev");
    assert_eq!(store.inputs()[0].transaction_id, 1);
    assert_eq!(store.outputs()[0].address, "addr");
    assert_eq!(store.outputs()[0].transaction_id, 1);
    assert_eq!(store.inputs()[1].previous_output, "coinbase");
    assert_eq!(store.outputs().len(), 3);
}

#[test]
fn run_on_store_goes_on_from_any_point_of_the_writer() {
    let mut cycle = SyncCycle::new();
    let mut store = Store::new();
    cycle.on_event(CycleEvent::Tick);
    cycle.on_event(text(200, "800000"));
    cycle.on_event(text(200, "hash"));
    let mut action = cycle.on_event(detail(1700000600, Some(transactions())));
    for _ in 0..5 {
        action = match action {
            CycleAction::Store { command } => {
                let reply = store.execute(command);
                cycle.on_event(CycleEvent::Stored { reply })
            },
            other => panic!("unexpected action {:?}", other),
        };
    }
    let last = cycle.run_on_store(&mut store, action);
    assert_eq!(last, CycleAction::Finish { outcome: CycleOutcome::Success });
    assert!(!cycle.in_flight());
    let mut whole = Store::new();
    let mut other = SyncCycle::new();
    assert_eq!(run_cycle(&mut other, &mut whole, 1700000600), CycleOutcome::Success);
    assert_eq!(store, whole);
}

#[test]
fn run_on_store_with_a_stray_operation_skips_the_row_in_hand() {
    let mut cycle = SyncCycle::new();
    let mut store = Store::new();
    cycle.on_event(CycleEvent::Tick);
    cycle.on_event(text(200, "800000"));
    cycle.on_event(text(200, "hash"));
    cycle.on_event(detail(1700000600, Some(transactions())));
    let stray = CycleAction::Store { command: StoreCommand::FindSample { block_height: 1, btc_price: 1 } };
    let last = cycle.run_on_store(&mut store, stray);
    assert_eq!(last, CycleAction::Finish { outcome: CycleOutcome::Success });
    assert_eq!(store.blocks().len(), 1);
    assert_eq!(store.transactions().len(), 2);
}
