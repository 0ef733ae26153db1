//! The block resolver: from the chain's tip height to a fully fetched block,
//! in at most four dependent calls to the upstream API. Each call is asked
//! for as a request; the answer to it decides the next.

use crate::error::SyncError;
use crate::payload::{
    BlockDetail, BlockHeader, BlockPayload, MarketSeries, TransactionPayload,
};
use crate::text::{decimal, decimal_of, parse_i32, parsed_i32, trim, trimmed};
use vstd::prelude::*;

verus! {

/// The address that every call to the upstream chain API starts with.
pub const API_BASE: &'static str = "https://blockstream.info/api";

/// The address of the market chart: one day of daily points, in US dollars.
pub const MARKET_CHART_URL: &'static str =
    "https://api.coingecko.com/api/v3/coins/bitcoin/market_chart?vs_currency=usd&days=1&interval=daily";

/// One call to the upstream API.
#[derive(Debug, PartialEq, Eq)]
pub enum Request {
    /// The height of the chain's tip. Answered with text.
    TipHeight,
    /// The hash of the block at `height`. Answered with text.
    BlockHash { height: i32 },
    /// The detail of the block `hash`. Answered with a block detail.
    BlockDetail { hash: String },
    /// The transactions of the block `hash`. Answered with transactions.
    BlockTransactions { hash: String },
    /// The market chart. Answered with market series.
    MarketChart,
}

/// The body of an answer, decoded as the request calls for.
#[derive(Debug, PartialEq, Eq)]
pub enum Body {
    Text { text: String },
    Block { detail: BlockDetail },
    Transactions { transactions: Vec<TransactionPayload> },
    Market { series: MarketSeries },
    /// The body could not be decoded as the request calls for.
    Undecodable,
}

/// What came of one call.
#[derive(Debug, PartialEq, Eq)]
pub enum HttpReply {
    /// The call failed in transport.
    Unreachable,
    /// The upstream answered.
    Answered { status: u16, body: Body },
}

/// Where a resolution stands.
#[derive(Debug, PartialEq, Eq)]
pub enum Resolver {
    /// The tip height is asked for.
    Tip,
    /// The hash of the block at `height` is asked for.
    Hash { height: i32 },
    /// The detail of the block `hash` is asked for.
    Detail { hash: String },
    /// The transactions of the block `hash` are asked for.
    Transactions { hash: String, header: BlockHeader },
    /// The block is fetched.
    Resolved { block: BlockPayload },
    /// The resolution was given up.
    Failed { error: SyncError },
}

/// The address of a request.
pub open spec fn url_of(request: Request) -> Seq<char> {
    match request {
        Request::TipHeight => API_BASE@ + "/blocks/tip/height"@,
        Request::BlockHash { height } => API_BASE@ + "/block-height/"@ + decimal_of(height as int),
        Request::BlockDetail { hash } => API_BASE@ + "/block/"@ + hash@,
        Request::BlockTransactions { hash } => API_BASE@ + "/block/"@ + hash@ + "/txs"@,
        Request::MarketChart => MARKET_CHART_URL@,
    }
}

/// Whether `status` reports success: 200 to 299.
pub open spec fn is_success(status: u16) -> bool {
    200 <= status <= 299
}

/// The body of a successful answer, or the error that the reply stands for:
/// unavailable where the call failed in transport, a status error where the
/// status does not report success.
pub open spec fn classified(reply: HttpReply) -> Result<Body, SyncError> {
    match reply {
        HttpReply::Unreachable => Err(SyncError::UpstreamUnavailable),
        HttpReply::Answered { status, body } => if is_success(status) {
            Ok(body)
        } else {
            Err(SyncError::UpstreamStatusError { code: status })
        },
    }
}

/// The request that a resolution at `state` asks for. The hash is given by
/// its characters.
pub open spec fn asks(state: Resolver, request: Option<Request>) -> bool {
    match state {
        Resolver::Tip => request == Some(Request::TipHeight),
        Resolver::Hash { height } => request == Some(Request::BlockHash { height }),
        Resolver::Detail { hash } => request matches Some(Request::BlockDetail { hash: h }) && h@
            == hash@,
        Resolver::Transactions { hash, .. } => request matches Some(
            Request::BlockTransactions { hash: h },
        ) && h@ == hash@,
        _ => request is None,
    }
}

/// `next` is where a resolution at `state` stands after `reply`.
///
/// A reply that does not report success fails the resolution with the
/// reply's error. The tip height is the number that the trimmed text
/// writes; the hash is the trimmed text. A block detail that embeds its
/// transactions resolves the block at once; one that does not asks for
/// them. A body of the wrong shape is malformed. A resolution that has
/// ended stays as it is.
pub open spec fn resolves_to(state: Resolver, reply: HttpReply, next: Resolver) -> bool {
    match state {
        Resolver::Resolved { .. } => next == state,
        Resolver::Failed { .. } => next == state,
        _ => match classified(reply) {
            Err(error) => next == Resolver::Failed { error },
            Ok(body) => match (state, body) {
                (Resolver::Tip, Body::Text { text }) => match parsed_i32(trimmed(text@)) {
                    Some(height) => next == Resolver::Hash { height },
                    None => next == Resolver::Failed { error: SyncError::MalformedResponse },
                },
                (Resolver::Hash { .. }, Body::Text { text }) => next matches Resolver::Detail {
                    hash,
                } && hash@ == trimmed(text@),
                (Resolver::Detail { hash }, Body::Block { detail }) => match detail.tx {
                    Some(transactions) => next == Resolver::Resolved {
                        block: BlockPayload { header: detail.header, transactions },
                    },
                    None => next == Resolver::Transactions { hash, header: detail.header },
                },
                (
                    Resolver::Transactions { header, .. },
                    Body::Transactions { transactions },
                ) => next == Resolver::Resolved { block: BlockPayload { header, transactions } },
                _ => next == Resolver::Failed { error: SyncError::MalformedResponse },
            },
        },
    }
}

/// Tells whether `status` reports success.
pub fn status_is_success(status: u16) -> (r: bool)
    ensures
        r == is_success(status),
{
    200 <= status && status <= 299
}

/// Sorts a reply into the body of a successful answer and the errors.
pub fn classify(reply: HttpReply) -> (r: Result<Body, SyncError>)
    ensures
        r == classified(reply),
{
    match reply {
        HttpReply::Unreachable => Err(SyncError::UpstreamUnavailable),
        HttpReply::Answered { status, body } => if status_is_success(status) {
            Ok(body)
        } else {
            Err(SyncError::UpstreamStatusError { code: status })
        },
    }
}

impl Request {
    /// The address to fetch.
    pub fn url(&self) -> (r: String)
        ensures
            r@ == url_of(*self),
    {
        let mut out = String::from_str(API_BASE);
        match self {
            Request::MarketChart => {
                out = String::from_str(MARKET_CHART_URL);
            },
            Request::TipHeight => {
                out.append("/blocks/tip/height");
            },
            Request::BlockHash { height } => {
                out.append("/block-height/");
                out.append(decimal(*height).as_str());
            },
            Request::BlockDetail { hash } => {
                out.append("/block/");
                out.append(hash.as_str());
            },
            Request::BlockTransactions { hash } => {
                out.append("/block/");
                out.append(hash.as_str());
                out.append("/txs");
            },
        }
        out
    }
}

impl Resolver {
    /// Where a resolution starts.
    pub fn start() -> (state: Resolver)
        ensures
            state == Resolver::Tip,
    {
        Resolver::Tip
    }

    /// The request to make next, none once the resolution has ended.
    pub fn request(&self) -> (r: Option<Request>)
        ensures
            asks(*self, r),
    {
        match self {
            Resolver::Tip => Some(Request::TipHeight),
            Resolver::Hash { height } => Some(Request::BlockHash { height: *height }),
            Resolver::Detail { hash } => Some(Request::BlockDetail { hash: hash.clone() }),
            Resolver::Transactions { hash, .. } => Some(
                Request::BlockTransactions { hash: hash.clone() },
            ),
            _ => None,
        }
    }

    /// Takes what came of the request that `request` gave.
    pub fn on_reply(self, reply: HttpReply) -> (next: Resolver)
        ensures
            resolves_to(self, reply, next),
    {
        match self {
            Resolver::Resolved { block } => Resolver::Resolved { block },
            Resolver::Failed { error } => Resolver::Failed { error },
            state => match classify(reply) {
                Err(error) => Resolver::Failed { error },
                Ok(body) => match (state, body) {
                    (Resolver::Tip, Body::Text { text }) => {
                        match parse_i32(trim(text.as_str()).as_str()) {
                            Some(height) => Resolver::Hash { height },
                            None => Resolver::Failed { error: SyncError::MalformedResponse },
                        }
                    },
                    (Resolver::Hash { .. }, Body::Text { text }) => Resolver::Detail {
                        hash: trim(text.as_str()),
                    },
                    (Resolver::Detail { hash }, Body::Block { detail }) => match detail.tx {
                        Some(transactions) => Resolver::Resolved {
                            block: BlockPayload { header: detail.header, transactions },
                        },
                        None => Resolver::Transactions { hash, header: detail.header },
                    },
                    (
                        Resolver::Transactions { header, .. },
                        Body::Transactions { transactions },
                    ) => Resolver::Resolved { block: BlockPayload { header, transactions } },
                    _ => Resolver::Failed { error: SyncError::MalformedResponse },
                },
            },
        }
    }
}

/// The calls that a resolution at `state` may still make.
pub open spec fn calls_left(state: Resolver) -> nat {
    match state {
        Resolver::Tip => 4,
        Resolver::Hash { .. } => 3,
        Resolver::Detail { .. } => 2,
        Resolver::Transactions { .. } => 1,
        _ => 0,
    }
}

/// Each reply uses up a call: a resolution makes four calls at most, one
/// after the other, and ends.
pub proof fn law_each_reply_uses_up_a_call(state: Resolver, reply: HttpReply, next: Resolver)
    requires
        resolves_to(state, reply, next),
        calls_left(state) > 0,
    ensures
        calls_left(next) < calls_left(state),
{
}

} // verus!
