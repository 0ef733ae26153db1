//! The off-chain sampler: one market sample per observed height, built from
//! the series that the market source reports and upserted under the key of
//! height and price.

use crate::calendar::CalendarTime;
use crate::error::SyncError;
use crate::model::OffchainData;
use crate::payload::MarketSeries;
use crate::resolver::{classified, classify, Body, HttpReply, Request};
use crate::store::{
    find_sample, greatest, ids, lemma_push_keeps_keys_unique, primary_keys_hold, refreshed_rows,
    Store, StoreCommand, StoreContents, StoreReply, Table,
};
use crate::text::{parse_i32, parsed_i32, trim, trimmed};
use crate::writer::{lemma_next_id_is_free, next_id, reserve_id};
use vstd::prelude::*;

verus! {

/// The measurement of an entry, zero where it has none.
pub open spec fn reading(entry: Option<i64>) -> i64 {
    match entry {
        Some(v) => v,
        None => 0,
    }
}

/// The greatest reading of `entries`.
pub open spec fn highest(entries: Seq<Option<i64>>) -> i64
    decreases entries.len(),
{
    if entries.len() == 0 {
        0
    } else if entries.len() == 1 {
        reading(entries[0])
    } else {
        let rest = highest(entries.drop_last());
        if rest >= reading(entries.last()) {
            rest
        } else {
            reading(entries.last())
        }
    }
}

/// The least reading of `entries`.
pub open spec fn lowest(entries: Seq<Option<i64>>) -> i64
    decreases entries.len(),
{
    if entries.len() == 0 {
        0
    } else if entries.len() == 1 {
        reading(entries[0])
    } else {
        let rest = lowest(entries.drop_last());
        if rest <= reading(entries.last()) {
            rest
        } else {
            reading(entries.last())
        }
    }
}

/// The first entry of a series, where the series is present and the entry
/// is a number.
pub open spec fn first_reading(series: Option<Vec<Option<i64>>>) -> Option<i64> {
    match series {
        Some(entries) => if entries@.len() > 0 {
            entries@[0]
        } else {
            None
        },
        None => None,
    }
}

/// The sample that `series` gives for the height `block_height`, taken at
/// `sampled_at`: none without a first price; else the first price, the
/// first market capitalisation as sentiment, the first volume, and the
/// greatest and least price of the series. The id is left at 0.
pub open spec fn sample_of(
    block_height: i32,
    series: MarketSeries,
    sampled_at: CalendarTime,
) -> Option<OffchainData> {
    match series.prices {
        Some(prices) => if prices@.len() > 0 {
            Some(
                OffchainData {
                    id: 0,
                    block_height,
                    btc_price: reading(prices@[0]),
                    market_sentiment: first_reading(series.market_caps),
                    volume: first_reading(series.total_volumes),
                    high: Some(highest(prices@)),
                    low: Some(lowest(prices@)),
                    timestamp: sampled_at,
                },
            )
        } else {
            None
        },
        None => None,
    }
}

/// The greatest and the least reading of a series bracket every reading,
/// and each is the reading of some entry.
pub proof fn law_high_and_low_bracket(entries: Seq<Option<i64>>)
    requires
        entries.len() > 0,
    ensures
        forall|i: int|
            0 <= i < entries.len() ==> lowest(entries) <= reading(#[trigger] entries[i])
                <= highest(entries),
        exists|i: int| 0 <= i < entries.len() && reading(entries[i]) == highest(entries),
        exists|i: int| 0 <= i < entries.len() && reading(entries[i]) == lowest(entries),
    decreases entries.len(),
{
    if entries.len() > 1 {
        let front = entries.drop_last();
        law_high_and_low_bracket(front);
        assert forall|i: int| 0 <= i < entries.len() implies lowest(entries) <= reading(
            #[trigger] entries[i],
        ) <= highest(entries) by {
            if i < front.len() {
                assert(front[i] == entries[i]);
            }
        }
        let hi = choose|i: int| 0 <= i < front.len() && reading(front[i]) == highest(front);
        let lo = choose|i: int| 0 <= i < front.len() && reading(front[i]) == lowest(front);
        assert(front[hi] == entries[hi]);
        assert(front[lo] == entries[lo]);
        let last = entries.len() - 1;
        assert(reading(entries[hi]) == highest(entries) || reading(entries[last]) == highest(
            entries,
        ));
        assert(reading(entries[lo]) == lowest(entries) || reading(entries[last]) == lowest(
            entries,
        ));
    } else {
        assert(reading(entries[0]) == highest(entries));
        assert(reading(entries[0]) == lowest(entries));
    }
}

fn read(entry: Option<i64>) -> (v: i64)
    ensures
        v == reading(entry),
{
    match entry {
        Some(v) => v,
        None => 0,
    }
}

fn first_of(series: &Option<Vec<Option<i64>>>) -> (r: Option<i64>)
    ensures
        r == first_reading(*series),
{
    match series {
        Some(entries) => if entries.len() > 0 {
            entries[0]
        } else {
            None
        },
        None => None,
    }
}

/// The greatest and the least reading of `entries`.
fn price_range(entries: &Vec<Option<i64>>) -> (r: (i64, i64))
    requires
        entries@.len() > 0,
    ensures
        r.0 == highest(entries@),
        r.1 == lowest(entries@),
{
    let mut high = read(entries[0]);
    let mut low = high;
    let mut i: usize = 1;
    assert(entries@.take(1).len() == 1);
    while i < entries.len()
        invariant
            1 <= i <= entries.len(),
            high == highest(entries@.take(i as int)),
            low == lowest(entries@.take(i as int)),
        decreases entries.len() - i,
    {
        let v = read(entries[i]);
        proof {
            let next = entries@.take(i + 1);
            assert(next.drop_last() == entries@.take(i as int));
            assert(next.last() == entries@[i as int]);
        }
        if v > high {
            high = v;
        }
        if v < low {
            low = v;
        }
        i += 1;
    }
    proof {
        assert(entries@.take(entries.len() as int) == entries@);
    }
    (high, low)
}

/// Builds the sample that `series` gives for the height `block_height`.
pub fn build_sample(block_height: i32, series: &MarketSeries, sampled_at: CalendarTime) -> (r:
    Option<OffchainData>)
    ensures
        r == sample_of(block_height, *series, sampled_at),
{
    match &series.prices {
        Some(prices) => {
            if prices.len() > 0 {
                let (high, low) = price_range(prices);
                Some(
                    OffchainData {
                        id: 0,
                        block_height,
                        btc_price: read(prices[0]),
                        market_sentiment: first_of(&series.market_caps),
                        volume: first_of(&series.total_volumes),
                        high: Some(high),
                        low: Some(low),
                        timestamp: sampled_at,
                    },
                )
            } else {
                None
            }
        },
        None => None,
    }
}

/// Where the upsert of one sample stands.
#[derive(Clone, Copy, Debug, PartialEq, Eq, Structural)]
pub enum Upsert {
    /// The lookup of a row with the sample's key is outstanding.
    Lookup,
    /// The update of the rows with the id `id` is outstanding.
    Update { id: i32 },
    /// The read of the greatest id is outstanding.
    Latest,
    /// The insert of the sample under the id `id` is outstanding.
    Insert { id: i32 },
    /// The sample was inserted under the id `id`.
    Inserted { id: i32 },
    /// The row with the id `id` has taken the sample's non-key fields.
    Updated { id: i32 },
    /// The upsert was given up.
    Failed { error: SyncError },
}

/// `sample` as a row under the id `id`.
pub open spec fn sample_row(sample: OffchainData, id: i32) -> OffchainData {
    OffchainData { id, ..sample }
}

/// The store operation that the upsert of `sample` asks for at `state`,
/// none once it has ended.
pub open spec fn upsert_command_at(sample: OffchainData, state: Upsert) -> Option<StoreCommand> {
    match state {
        Upsert::Lookup => Some(
            StoreCommand::FindSample {
                block_height: sample.block_height,
                btc_price: sample.btc_price,
            },
        ),
        Upsert::Update { id } => Some(StoreCommand::UpdateSample { row: sample_row(sample, id) }),
        Upsert::Latest => Some(StoreCommand::LatestId { table: Table::Samples }),
        Upsert::Insert { id } => Some(StoreCommand::InsertSample { row: sample_row(sample, id) }),
        _ => None,
    }
}

/// The state of an upsert after the store has answered `reply` to the
/// operation asked for at `state`. A failure ends the upsert with the
/// store's error; a table without an id left, or an answer out of turn,
/// ends it with a write error.
pub open spec fn upsert_advanced(state: Upsert, reply: StoreReply) -> Upsert {
    match (state, reply) {
        (Upsert::Inserted { .. }, _) => state,
        (Upsert::Updated { .. }, _) => state,
        (Upsert::Failed { .. }, _) => state,
        (Upsert::Lookup, StoreReply::Found { id: Some(id) }) => Upsert::Update { id },
        (Upsert::Lookup, StoreReply::Found { id: None }) => Upsert::Latest,
        (Upsert::Update { id }, StoreReply::Done) => Upsert::Updated { id },
        (Upsert::Latest, StoreReply::Latest { id }) => match next_id(id) {
            Some(n) => Upsert::Insert { id: n },
            None => Upsert::Failed { error: SyncError::StoreWriteError },
        },
        (Upsert::Insert { id }, StoreReply::Done) => Upsert::Inserted { id },
        (_, StoreReply::Failed { error }) => Upsert::Failed { error },
        _ => Upsert::Failed { error: SyncError::StoreWriteError },
    }
}

impl Upsert {
    /// Where an upsert starts.
    pub fn start() -> (state: Upsert)
        ensures
            state == Upsert::Lookup,
    {
        Upsert::Lookup
    }

    /// The store operation to carry out next for `sample`, none once the
    /// upsert has ended.
    pub fn command(&self, sample: &OffchainData) -> (r: Option<StoreCommand>)
        ensures
            r == upsert_command_at(*sample, *self),
    {
        match self {
            Upsert::Lookup => Some(
                StoreCommand::FindSample {
                    block_height: sample.block_height,
                    btc_price: sample.btc_price,
                },
            ),
            Upsert::Update { id } => Some(
                StoreCommand::UpdateSample { row: with_id(sample, *id) },
            ),
            Upsert::Latest => Some(StoreCommand::LatestId { table: Table::Samples }),
            Upsert::Insert { id } => Some(
                StoreCommand::InsertSample { row: with_id(sample, *id) },
            ),
            _ => None,
        }
    }

    /// Takes the store's answer to the operation that `command` gave.
    pub fn on_reply(self, reply: StoreReply) -> (next: Upsert)
        ensures
            next == upsert_advanced(self, reply),
    {
        match (self, reply) {
            (Upsert::Inserted { .. }, _) => self,
            (Upsert::Updated { .. }, _) => self,
            (Upsert::Failed { .. }, _) => self,
            (Upsert::Lookup, StoreReply::Found { id: Some(id) }) => Upsert::Update { id },
            (Upsert::Lookup, StoreReply::Found { id: None }) => Upsert::Latest,
            (Upsert::Update { id }, StoreReply::Done) => Upsert::Updated { id },
            (Upsert::Latest, StoreReply::Latest { id }) => match reserve_id(id) {
                Some(n) => Upsert::Insert { id: n },
                None => Upsert::Failed { error: SyncError::StoreWriteError },
            },
            (Upsert::Insert { id }, StoreReply::Done) => Upsert::Inserted { id },
            (_, StoreReply::Failed { error }) => Upsert::Failed { error },
            _ => Upsert::Failed { error: SyncError::StoreWriteError },
        }
    }
}

fn with_id(sample: &OffchainData, id: i32) -> (row: OffchainData)
    ensures
        row == sample_row(*sample, id),
{
    OffchainData {
        id,
        block_height: sample.block_height,
        btc_price: sample.btc_price,
        market_sentiment: sample.market_sentiment,
        volume: sample.volume,
        high: sample.high,
        low: sample.low,
        timestamp: sample.timestamp,
    }
}

/// The store after `sample` was upserted into the contents `s`: the first
/// row with its key, and every row that shares that row's id, takes the
/// sample's non-key fields; without such a row the sample is added under the
/// next id, or dropped where the table has no id left.
pub open spec fn upserted(s: StoreContents, sample: OffchainData) -> StoreContents {
    match find_sample(s.samples, sample.block_height, sample.btc_price) {
        Some(id) => StoreContents {
            samples: refreshed_rows(s.samples, sample_row(sample, id)),
            ..s
        },
        None => match next_id(greatest(ids(s.samples))) {
            Some(id) => StoreContents { samples: s.samples.push(sample_row(sample, id)), ..s },
            None => s,
        },
    }
}

/// How the upsert of `sample` into the contents `s` ends.
pub open spec fn upsert_outcome(s: StoreContents, sample: OffchainData) -> Upsert {
    match find_sample(s.samples, sample.block_height, sample.btc_price) {
        Some(id) => Upsert::Updated { id },
        None => match next_id(greatest(ids(s.samples))) {
            Some(id) => Upsert::Inserted { id },
            None => Upsert::Failed { error: SyncError::StoreWriteError },
        },
    }
}

/// What the upsert has learnt before `state` of the contents `s`, or, once
/// it has ended, what it has made of the contents `initial`.
spec fn upsert_on_track(
    initial: StoreContents,
    s: StoreContents,
    sample: OffchainData,
    state: Upsert,
) -> bool {
    let found = find_sample(initial.samples, sample.block_height, sample.btc_price);
    let next = next_id(greatest(ids(initial.samples)));
    match state {
        Upsert::Lookup => s == initial,
        Upsert::Update { id } => s == initial && found == Some(id),
        Upsert::Latest => s == initial && found is None,
        Upsert::Insert { id } => s == initial && found is None && next == Some(id),
        _ => s == upserted(initial, sample) && state == upsert_outcome(initial, sample),
    }
}

/// The operations that an upsert at `state` may still need.
pub open spec fn upsert_pending(state: Upsert) -> int {
    match state {
        Upsert::Lookup => 3,
        Upsert::Latest => 2,
        Upsert::Update { .. } => 1,
        Upsert::Insert { .. } => 1,
        _ => 0,
    }
}

/// Each answer of the store uses up an operation: an upsert asks for three
/// operations at most and ends.
pub proof fn law_each_reply_moves_the_upsert(state: Upsert, reply: StoreReply)
    requires
        upsert_pending(state) > 0,
    ensures
        0 <= upsert_pending(upsert_advanced(state, reply)) < upsert_pending(state),
{
}

/// Upserts `sample` into the in-memory store: runs the upsert to its end,
/// each of its operations carried out by the store.
pub fn upsert(store: &mut Store, sample: OffchainData) -> (outcome: Upsert)
    ensures
        final(store)@ == upserted(old(store)@, sample),
        outcome == upsert_outcome(old(store)@, sample),
{
    let ghost initial = store@;
    let mut state = Upsert::start();
    loop
        invariant
            upsert_on_track(initial, store@, sample, state),
        ensures
            store@ == upserted(initial, sample),
            state == upsert_outcome(initial, sample),
        decreases upsert_pending(state),
    {
        proof {
            lemma_next_id_is_free(ids(store@.samples));
        }
        match state.command(&sample) {
            Some(command) => {
                let reply = store.execute(command);
                state = state.on_reply(reply);
            },
            None => {
                break ;
            },
        }
    }
    state
}

/// The number of sample rows with the key `(block_height, btc_price)`.
pub open spec fn rows_with_key(rows: Seq<OffchainData>, block_height: i32, btc_price: i64) -> nat
    decreases rows.len(),
{
    if rows.len() == 0 {
        0
    } else {
        rows_with_key(rows.drop_last(), block_height, btc_price) + if rows.last().block_height
            == block_height && rows.last().btc_price == btc_price {
            1nat
        } else {
            0nat
        }
    }
}

/// The store after the samples were upserted one after the other.
pub open spec fn upserted_all(s: StoreContents, samples: Seq<OffchainData>) -> StoreContents
    decreases samples.len(),
{
    if samples.len() == 0 {
        s
    } else {
        upserted(upserted_all(s, samples.drop_last()), samples.last())
    }
}

/// A lookup finds a sample row exactly where the table holds one with the key.
pub proof fn lemma_sample_found_iff_present(
    rows: Seq<OffchainData>,
    block_height: i32,
    btc_price: i64,
)
    ensures
        find_sample(rows, block_height, btc_price) is Some <==> rows_with_key(
            rows,
            block_height,
            btc_price,
        ) > 0,
    decreases rows.len(),
{
    if rows.len() > 0 {
        lemma_sample_found_iff_present(rows.drop_last(), block_height, btc_price);
    }
}

/// Tables that agree on the key of each row hold as many rows of each key.
proof fn lemma_same_keys_same_counts(
    a: Seq<OffchainData>,
    b: Seq<OffchainData>,
    block_height: i32,
    btc_price: i64,
)
    requires
        a.len() == b.len(),
        forall|i: int|
            0 <= i < a.len() ==> (#[trigger] a[i]).block_height == b[i].block_height
                && a[i].btc_price == b[i].btc_price,
    ensures
        rows_with_key(a, block_height, btc_price) == rows_with_key(b, block_height, btc_price),
    decreases a.len(),
{
    if a.len() > 0 {
        assert forall|i: int| 0 <= i < a.drop_last().len() implies (#[trigger] a.drop_last()[i]).block_height
            == b.drop_last()[i].block_height && a.drop_last()[i].btc_price
            == b.drop_last()[i].btc_price by {
            assert(a.drop_last()[i] == a[i]);
            assert(b.drop_last()[i] == b[i]);
        }
        lemma_same_keys_same_counts(a.drop_last(), b.drop_last(), block_height, btc_price);
        assert(a.last() == a[a.len() - 1]);
    }
}

/// Samples with one key, upserted one after the other into a store that
/// holds no row of that key, leave exactly one row of it: the row added for
/// the first sample, with the non-key fields of the last. This holds where
/// the sample table has an id left.
pub proof fn law_repeated_upserts_leave_one_row(
    s: StoreContents,
    samples: Seq<OffchainData>,
    block_height: i32,
    btc_price: i64,
)
    requires
        samples.len() > 0,
        forall|i: int|
            0 <= i < samples.len() ==> (#[trigger] samples[i]).block_height == block_height
                && samples[i].btc_price == btc_price,
        rows_with_key(s.samples, block_height, btc_price) == 0,
        next_id(greatest(ids(s.samples))) is Some,
    ensures
        upserted_all(s, samples).samples == s.samples.push(
            sample_row(samples.last(), next_id(greatest(ids(s.samples)))->0),
        ),
        rows_with_key(upserted_all(s, samples).samples, block_height, btc_price) == 1,
    decreases samples.len(),
{
    let id = next_id(greatest(ids(s.samples)))->0;
    let last = samples.last();
    let after = s.samples.push(sample_row(last, id));
    assert(after.drop_last() == s.samples);
    lemma_sample_found_iff_present(s.samples, block_height, btc_price);
    if samples.len() == 1 {
        assert(samples.drop_last().len() == 0);
        assert(upserted_all(s, samples.drop_last()) == s);
    } else {
        let front = samples.drop_last();
        assert forall|i: int| 0 <= i < front.len() implies (#[trigger] front[i]).block_height
            == block_height && front[i].btc_price == btc_price by {
            assert(front[i] == samples[i]);
        }
        law_repeated_upserts_leave_one_row(s, front, block_height, btc_price);
        let before = upserted_all(s, front).samples;
        let row = sample_row(front.last(), id);
        assert(before == s.samples.push(row));
        assert(before.drop_last() == s.samples);
        assert(find_sample(before, block_height, btc_price) == Some(id));
        lemma_next_id_is_free(ids(s.samples));
        assert forall|i: int| 0 <= i < s.samples.len() implies (#[trigger] s.samples[i]).id
            != id by {
            assert(ids(s.samples)[i] == s.samples[i].id);
        }
        assert(refreshed_rows(before, sample_row(last, id)) =~= after);
    }
}

/// An upsert under a key that the store holds a row of changes no key and
/// adds no row, so that each key keeps its number of rows.
pub proof fn law_upsert_of_known_key_adds_no_row(
    s: StoreContents,
    sample: OffchainData,
    block_height: i32,
    btc_price: i64,
)
    requires
        rows_with_key(s.samples, sample.block_height, sample.btc_price) > 0,
    ensures
        upserted(s, sample).samples.len() == s.samples.len(),
        rows_with_key(upserted(s, sample).samples, block_height, btc_price) == rows_with_key(
            s.samples,
            block_height,
            btc_price,
        ),
{
    lemma_sample_found_iff_present(s.samples, sample.block_height, sample.btc_price);
    lemma_same_keys_same_counts(upserted(s, sample).samples, s.samples, block_height, btc_price);
}

/// How a sampling round ended.
#[derive(Clone, Copy, Debug, PartialEq, Eq, Structural)]
pub enum SampleOutcome {
    /// The sample was inserted under the id `id`.
    Inserted { id: i32 },
    /// The row with the id `id` has taken the sample's non-key fields.
    Updated { id: i32 },
    /// The market source reported no price.
    NoSample,
    /// The round was given up.
    Error { error: SyncError },
}

/// Where a sampling round stands.
#[derive(Clone, Copy, Debug, PartialEq, Eq, Structural)]
pub enum Sampling {
    /// The tip height is asked for.
    Height,
    /// The market chart is asked for, to be tagged with `block_height`.
    Market { block_height: i32 },
    /// The sample is being upserted.
    Storing { sample: OffchainData, upsert: Upsert },
    /// The round ended before a sample was stored.
    Ended { outcome: SampleOutcome },
}

/// What a sampling round wants done next.
#[allow(inconsistent_fields)]
#[derive(Debug, PartialEq, Eq)]
pub enum SamplerAction {
    /// Make this request and hand back what came of it.
    Fetch { request: Request },
    /// Carry out this store operation and hand back the answer.
    Store { command: StoreCommand },
    /// The round has ended.
    Finish { outcome: SampleOutcome },
}

/// The outcome that an upsert at `upsert` stands for once it has ended.
pub open spec fn outcome_of(upsert: Upsert) -> SampleOutcome {
    match upsert {
        Upsert::Inserted { id } => SampleOutcome::Inserted { id },
        Upsert::Updated { id } => SampleOutcome::Updated { id },
        Upsert::Failed { error } => SampleOutcome::Error { error },
        _ => SampleOutcome::Error { error: SyncError::StoreWriteError },
    }
}

/// What a round at `state` wants done next.
pub open spec fn sampling_action(state: Sampling) -> SamplerAction {
    match state {
        Sampling::Height => SamplerAction::Fetch { request: Request::TipHeight },
        Sampling::Market { .. } => SamplerAction::Fetch { request: Request::MarketChart },
        Sampling::Storing { sample, upsert } => match upsert_command_at(sample, upsert) {
            Some(command) => SamplerAction::Store { command },
            None => SamplerAction::Finish { outcome: outcome_of(upsert) },
        },
        Sampling::Ended { outcome } => SamplerAction::Finish { outcome },
    }
}

/// Where a round at `state` stands after `reply`, received at `sampled_at`.
///
/// A reply that does not report success ends the round with the reply's
/// error, a body of the wrong shape ends it as malformed. The tip height is
/// the number that the trimmed text writes. The market series give the
/// sample for that height, or end the round where they hold no price. A
/// round that is storing or has ended stays as it is.
pub open spec fn sampling_fetched(
    state: Sampling,
    reply: HttpReply,
    sampled_at: CalendarTime,
) -> Sampling {
    let malformed = Sampling::Ended {
        outcome: SampleOutcome::Error { error: SyncError::MalformedResponse },
    };
    match state {
        Sampling::Height => match classified(reply) {
            Err(error) => Sampling::Ended { outcome: SampleOutcome::Error { error } },
            Ok(Body::Text { text }) => match parsed_i32(trimmed(text@)) {
                Some(block_height) => Sampling::Market { block_height },
                None => malformed,
            },
            Ok(_) => malformed,
        },
        Sampling::Market { block_height } => match classified(reply) {
            Err(error) => Sampling::Ended { outcome: SampleOutcome::Error { error } },
            Ok(Body::Market { series }) => match sample_of(block_height, series, sampled_at) {
                Some(sample) => Sampling::Storing { sample, upsert: Upsert::Lookup },
                None => Sampling::Ended { outcome: SampleOutcome::NoSample },
            },
            Ok(_) => malformed,
        },
        _ => state,
    }
}

/// Where a round at `state` stands after the store has answered `reply`.
/// Only a round that is storing moves.
pub open spec fn sampling_stored(state: Sampling, reply: StoreReply) -> Sampling {
    match state {
        Sampling::Storing { sample, upsert } => Sampling::Storing {
            sample,
            upsert: upsert_advanced(upsert, reply),
        },
        _ => state,
    }
}

impl Sampling {
    /// Where a round starts.
    pub fn start() -> (state: Sampling)
        ensures
            state == Sampling::Height,
    {
        Sampling::Height
    }

    /// What to do next.
    pub fn action(&self) -> (r: SamplerAction)
        ensures
            r == sampling_action(*self),
    {
        match self {
            Sampling::Height => SamplerAction::Fetch { request: Request::TipHeight },
            Sampling::Market { .. } => SamplerAction::Fetch { request: Request::MarketChart },
            Sampling::Storing { sample, upsert } => match upsert.command(sample) {
                Some(command) => SamplerAction::Store { command },
                None => SamplerAction::Finish {
                    outcome: match upsert {
                        Upsert::Inserted { id } => SampleOutcome::Inserted { id: *id },
                        Upsert::Updated { id } => SampleOutcome::Updated { id: *id },
                        Upsert::Failed { error } => SampleOutcome::Error { error: *error },
                        _ => SampleOutcome::Error { error: SyncError::StoreWriteError },
                    },
                },
            },
            Sampling::Ended { outcome } => SamplerAction::Finish { outcome: *outcome },
        }
    }

    /// Takes what came of the request that `action` gave, and the time at
    /// which it came.
    pub fn on_fetched(self, reply: HttpReply, sampled_at: CalendarTime) -> (next: Sampling)
        ensures
            next == sampling_fetched(self, reply, sampled_at),
    {
        let malformed = Sampling::Ended {
            outcome: SampleOutcome::Error { error: SyncError::MalformedResponse },
        };
        match self {
            Sampling::Height => match classify(reply) {
                Err(error) => Sampling::Ended { outcome: SampleOutcome::Error { error } },
                Ok(Body::Text { text }) => match parse_i32(trim(text.as_str()).as_str()) {
                    Some(block_height) => Sampling::Market { block_height },
                    None => malformed,
                },
                Ok(_) => malformed,
            },
            Sampling::Market { block_height } => match classify(reply) {
                Err(error) => Sampling::Ended { outcome: SampleOutcome::Error { error } },
                Ok(Body::Market { series }) => match build_sample(
                    block_height,
                    &series,
                    sampled_at,
                ) {
                    Some(sample) => Sampling::Storing { sample, upsert: Upsert::start() },
                    None => Sampling::Ended { outcome: SampleOutcome::NoSample },
                },
                Ok(_) => malformed,
            },
            state => state,
        }
    }

    /// Takes the store's answer to the operation that `action` gave.
    pub fn on_stored(self, reply: StoreReply) -> (next: Sampling)
        ensures
            next == sampling_stored(self, reply),
    {
        match self {
            Sampling::Storing { sample, upsert } => Sampling::Storing {
                sample,
                upsert: upsert.on_reply(reply),
            },
            state => state,
        }
    }
}

/// A lookup that finds an id finds it on a row with the key.
proof fn lemma_found_sample_row(rows: Seq<OffchainData>, block_height: i32, btc_price: i64)
    requires
        find_sample(rows, block_height, btc_price) is Some,
    ensures
        exists|k: int|
            0 <= k < rows.len() && (#[trigger] rows[k]).block_height == block_height
                && rows[k].btc_price == btc_price && rows[k].id == find_sample(
                rows,
                block_height,
                btc_price,
            )->0,
    decreases rows.len(),
{
    if find_sample(rows.drop_last(), block_height, btc_price) is Some {
        lemma_found_sample_row(rows.drop_last(), block_height, btc_price);
        let k = choose|k: int|
            0 <= k < rows.drop_last().len() && (#[trigger] rows.drop_last()[k]).block_height
                == block_height && rows.drop_last()[k].btc_price == btc_price
                && rows.drop_last()[k].id == find_sample(
                rows.drop_last(),
                block_height,
                btc_price,
            )->0;
        assert(rows[k] == rows.drop_last()[k]);
    } else {
        assert(rows[rows.len() - 1] == rows.last());
    }
}

/// An upsert under a key that the store holds a row of leaves a row of that
/// key with the sample's non-key fields, under the id that the row had.
pub proof fn law_upsert_of_known_key_refreshes_it(s: StoreContents, sample: OffchainData)
    requires
        rows_with_key(s.samples, sample.block_height, sample.btc_price) > 0,
    ensures
        exists|k: int|
            0 <= k < s.samples.len() && #[trigger] upserted(s, sample).samples[k] == sample_row(
                sample,
                s.samples[k].id,
            ),
{
    lemma_sample_found_iff_present(s.samples, sample.block_height, sample.btc_price);
    lemma_found_sample_row(s.samples, sample.block_height, sample.btc_price);
    let id = find_sample(s.samples, sample.block_height, sample.btc_price)->0;
    let k = choose|k: int|
        0 <= k < s.samples.len() && (#[trigger] s.samples[k]).block_height == sample.block_height
            && s.samples[k].btc_price == sample.btc_price && s.samples[k].id == id;
    assert(upserted(s, sample).samples[k] == sample_row(sample, s.samples[k].id));
}

/// Upserting a sample keeps the ids of every table unique.
pub proof fn law_upserting_keeps_primary_keys(s: StoreContents, sample: OffchainData)
    requires
        primary_keys_hold(s),
    ensures
        primary_keys_hold(upserted(s, sample)),
{
    lemma_next_id_is_free(ids(s.samples));
    match find_sample(s.samples, sample.block_height, sample.btc_price) {
        Some(id) => {},
        None => match next_id(greatest(ids(s.samples))) {
            Some(id) => {
                lemma_push_keeps_keys_unique(s.samples, sample_row(sample, id));
            },
            None => {},
        },
    }
}

} // verus!
