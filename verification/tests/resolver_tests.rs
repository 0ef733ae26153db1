use ingestion::error::SyncError;
use ingestion::payload::{BlockDetail, BlockHeader, BlockPayload, OutputPayload, TransactionPayload};
use ingestion::resolver::{
    classify, status_is_success, Body, HttpReply, Request, Resolver, API_BASE, MARKET_CHART_URL,
};

fn header() -> BlockHeader {
    BlockHeader {
        height: 800000,
        timestamp: 1700000600,
        tx_count: 2,
        size: 1000,
        weight: 4000,
        mediantime: 1700000000,
        difficulty: 1.0f64.to_bits() as i64,
    }
}

fn transactions() -> Vec<TransactionPayload> {
    vec![TransactionPayload {
        txid: "aa".to_string(),
        fee: 100,
        vin: vec![],
        vout: vec![OutputPayload { value: 5000, addresses: None }],
    }]
}

fn text(status: u16, body: &str) -> HttpReply {
    HttpReply::Answered { status, body: Body::Text { text: body.to_string() } }
}

#[test]
fn urls_follow_the_upstream_layout() {
    assert_eq!(API_BASE, "https://blockstream.info/api");
    assert_eq!(Request::TipHeight.url(), "https://blockstream.info/api/blocks/tip/height");
    assert_eq!(
        Request::BlockHash { height: 800000 }.url(),
        "https://blockstream.info/api/block-height/800000"
    );
    assert_eq!(
        Request::BlockDetail { hash: "00abc".to_string() }.url(),
        "https://blockstream.info/api/block/00abc"
    );
    assert_eq!(
        Request::BlockTransactions { hash: "00abc".to_string() }.url(),
        "https://blockstream.info/api/block/00abc/txs"
    );
    assert_eq!(Request::MarketChart.url(), MARKET_CHART_URL);
    assert_eq!(
        MARKET_CHART_URL,
        "https://api.coingecko.com/api/v3/coins/bitcoin/market_chart?vs_currency=usd&days=1&interval=daily"
    );
}

#[test]
fn success_is_any_status_from_200_to_299() {
    assert!(!status_is_success(199));
    assert!(status_is_success(200));
    assert!(status_is_success(204));
    assert!(status_is_success(299));
    assert!(!status_is_success(300));
    assert!(!status_is_success(404));
    assert!(!status_is_success(503));
    assert!(!status_is_success(0));
}

#[test]
fn classify_sorts_replies_into_bodies_and_errors() {
    assert_eq!(classify(HttpReply::Unreachable), Err(SyncError::UpstreamUnavailable));
    assert_eq!(
        classify(text(503, "busy")),
        Err(SyncError::UpstreamStatusError { code: 503 })
    );
    assert_eq!(
        classify(HttpReply::Answered { status: 404, body: Body::Undecodable }),
        Err(SyncError::UpstreamStatusError { code: 404 })
    );
    assert_eq!(classify(text(200, "ok")), Ok(Body::Text { text: "ok".to_string() }));
    assert_eq!(
        classify(HttpReply::Answered { status: 200, body: Body::Undecodable }),
        Ok(Body::Undecodable)
    );
}

#[test]
fn resolution_takes_four_calls_without_embedded_transactions() {
    let state = Resolver::start();
    assert_eq!(state.request(), Some(Request::TipHeight));
    let state = state.on_reply(text(200, "800000\n"));
    assert_eq!(state, Resolver::Hash { height: 800000 });
    assert_eq!(state.request(), Some(Request::BlockHash { height: 800000 }));
    let state = state.on_reply(text(200, " 00abc \n"));
    assert_eq!(state, Resolver::Detail { hash: "00abc".to_string() });
    assert_eq!(state.request(), Some(Request::BlockDetail { hash: "00abc".to_string() }));
    let state = state.on_reply(HttpReply::Answered {
        status: 200,
        body: Body::Block { detail: BlockDetail { header: header(), tx: None } },
    });
    assert_eq!(state, Resolver::Transactions { hash: "00abc".to_string(), header: header() });
    assert_eq!(state.request(), Some(Request::BlockTransactions { hash: "00abc".to_string() }));
    let state = state.on_reply(HttpReply::Answered {
        status: 200,
        body: Body::Transactions { transactions: transactions() },
    });
    assert_eq!(
        state,
        Resolver::Resolved {
            block: BlockPayload { header: header(), transactions: transactions() },
        }
    );
    assert_eq!(state.request(), None);
}

#[test]
fn resolution_takes_three_calls_with_embedded_transactions() {
    let state = Resolver::Detail { hash: "00abc".to_string() }.on_reply(HttpReply::Answered {
        status: 200,
        body: Body::Block { detail: BlockDetail { header: header(), tx: Some(transactions()) } },
    });
    assert_eq!(
        state,
        Resolver::Resolved {
            block: BlockPayload { header: header(), transactions: transactions() },
        }
    );
}

#[test]
fn each_step_fails_with_its_own_error_kind() {
    let steps = [
        Resolver::Tip,
        Resolver::Hash { height: 1 },
        Resolver::Detail { hash: "h".to_string() },
        Resolver::Transactions { hash: "h".to_string(), header: header() },
    ];
    for step in steps {
        let fresh = |s: &Resolver| match s {
            Resolver::Tip => Resolver::Tip,
            Resolver::Hash { height } => Resolver::Hash { height: *height },
            Resolver::Detail { hash } => Resolver::Detail { hash: hash.clone() },
            Resolver::Transactions { hash, header } => {
                Resolver::Transactions { hash: hash.clone(), header: *header }
            },
            _ => unreachable!(),
        };
        assert_eq!(
            fresh(&step).on_reply(HttpReply::Unreachable),
            Resolver::Failed { error: SyncError::UpstreamUnavailable }
        );
        assert_eq!(
            fresh(&step).on_reply(text(503, "800000")),
            Resolver::Failed { error: SyncError::UpstreamStatusError { code: 503 } }
        );
        assert_eq!(
            fresh(&step).on_reply(HttpReply::Answered { status: 200, body: Body::Undecodable }),
            Resolver::Failed { error: SyncError::MalformedResponse }
        );
    }
}

#[test]
fn tip_height_must_be_a_number() {
    for body in ["", "tip", "8e5", "800000 1", "99999999999"] {
        assert_eq!(
            Resolver::Tip.on_reply(text(200, body)),
            Resolver::Failed { error: SyncError::MalformedResponse }
        );
    }
    assert_eq!(Resolver::Tip.on_reply(text(200, "-3")), Resolver::Hash { height: -3 });
}

#[test]
fn body_of_the_wrong_shape_is_malformed() {
    assert_eq!(
        Resolver::Tip.on_reply(HttpReply::Answered {
            status: 200,
            body: Body::Transactions { transactions: vec![] },
        }),
        Resolver::Failed { error: SyncError::MalformedResponse }
    );
    assert_eq!(
        Resolver::Detail { hash: "h".to_string() }.on_reply(text(200, "800000")),
        Resolver::Failed { error: SyncError::MalformedResponse }
    );
    assert_eq!(
        Resolver::Transactions { hash: "h".to_string(), header: header() }.on_reply(
            HttpReply::Answered {
                status: 200,
                body: Body::Block { detail: BlockDetail { header: header(), tx: None } },
            }
        ),
        Resolver::Failed { error: SyncError::MalformedResponse }
    );
}

#[test]
fn ended_resolution_stays_as_it_is() {
    let failed = Resolver::Failed { error: SyncError::UpstreamUnavailable };
    assert_eq!(
        failed.on_reply(text(200, "800000")),
        Resolver::Failed { error: SyncError::UpstreamUnavailable }
    );
    let resolved = Resolver::Resolved {
        block: BlockPayload { header: header(), transactions: vec![] },
    };
    assert_eq!(
        resolved.on_reply(HttpReply::Unreachable),
        Resolver::Resolved { block: BlockPayload { header: header(), transactions: vec![] } }
    );
}
