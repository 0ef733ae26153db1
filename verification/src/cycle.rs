//! The sync cycle controller: one cycle per tick, at most one in flight.
//!
//! A cycle resolves the tip block, decomposes it and persists it. The
//! controller is a machine: it takes the tick and the results of the
//! requests and store operations it has asked for, and answers each with the
//! next thing to do. A tick that arrives while a cycle is in flight is
//! skipped, not queued; the guard is released when the cycle ends, however
//! it ends.

use crate::calendar::utc_calendar;
use crate::decompose::{decompose, is_decomposition, NormalizedBlock};
use crate::error::SyncError;
use crate::resolver::{asks, resolves_to, HttpReply, Request, Resolver};
use crate::persist::{
    law_every_reply_moves_the_writer, law_run_persists, pending_operations, pending_part,
    pending_records, pending_transactions, persisted, run,
};
use crate::store::{applied, reply_to, Store, StoreCommand, StoreContents, StoreReply};
use crate::writer::{
    advanced, command_at, lemma_replies_keep_in_bounds, start, BlockWriter, Cursor,
};
use vstd::prelude::*;

verus! {

/// The single-flight guard: held while a cycle is in flight.
#[derive(Debug)]
pub struct SyncGuard {
    held: bool,
}

impl SyncGuard {
    /// Whether the guard is held.
    pub closed spec fn is_held(&self) -> bool {
        self.held
    }

    /// A guard that nobody holds.
    pub fn new() -> (guard: SyncGuard)
        ensures
            !guard.is_held(),
    {
        SyncGuard { held: false }
    }

    /// Tells whether the guard is held.
    pub fn held(&self) -> (r: bool)
        ensures
            r == self.is_held(),
    {
        self.held
    }

    /// Takes the guard unless it is held. Never waits.
    pub fn try_acquire(&mut self) -> (acquired: bool)
        ensures
            acquired == !old(self).is_held(),
            final(self).is_held(),
    {
        let acquired = !self.held;
        self.held = true;
        acquired
    }

    /// Gives the guard back.
    pub fn release(&mut self)
        ensures
            !final(self).is_held(),
    {
        self.held = false;
    }
}

/// What the controller is told.
#[allow(inconsistent_fields)]
#[derive(Debug, PartialEq, Eq)]
pub enum CycleEvent {
    /// The timer fired.
    Tick,
    /// What came of the request that the controller asked for.
    Fetched { reply: HttpReply },
    /// What the store answered to the operation that the controller asked for.
    Stored { reply: StoreReply },
}

/// How a cycle ended.
#[derive(Clone, Copy, Debug, PartialEq, Eq, Structural)]
pub enum CycleOutcome {
    /// The block was resolved and every row was written or known.
    Success,
    /// The block was resolved, and at least one row was skipped.
    Partial,
    /// The cycle was aborted: the block could not be resolved, or the store
    /// was found unavailable.
    Error { error: SyncError },
}

/// What the controller wants done next.
#[derive(Debug, PartialEq, Eq)]
pub enum CycleAction {
    /// Nothing: the tick found a cycle in flight, or the event came out of
    /// turn.
    Skip,
    /// Make this request and hand back what came of it.
    Fetch { request: Request },
    /// Carry out this store operation and hand back the answer.
    Store { command: StoreCommand },
    /// The cycle has ended: report the outcome and wait for the next tick.
    Finish { outcome: CycleOutcome },
}

/// What the controller is busy with.
pub ghost enum CycleView {
    Idle,
    Resolving { resolver: Resolver },
    Persisting { block: NormalizedBlock, cursor: Cursor },
}

enum Work {
    Idle,
    Resolving { resolver: Resolver },
    Persisting { writer: BlockWriter },
}

/// The sync cycle controller.
pub struct SyncCycle {
    guard: SyncGuard,
    work: Work,
}

/// What follows a step of the resolver that led to `next`: a failed
/// resolution ends the cycle with its error; a resolved block is decomposed
/// and the writer's first operation asked for, or the cycle ends as
/// malformed where the block's seconds have no calendar time; otherwise the
/// resolver's next request is asked for.
pub open spec fn settles(next: Resolver, action: CycleAction, post: CycleView) -> bool {
    match next {
        Resolver::Failed { error } => post is Idle && action == CycleAction::Finish {
            outcome: CycleOutcome::Error { error },
        },
        Resolver::Resolved { block } => match utc_calendar(block.header.timestamp as int) {
            None => post is Idle && action == CycleAction::Finish {
                outcome: CycleOutcome::Error { error: SyncError::MalformedResponse },
            },
            Some(timestamp) => {
                &&& post matches CycleView::Persisting { block: normalized, cursor }
                &&& is_decomposition(block, timestamp, normalized)
                &&& cursor == start()
                &&& action == CycleAction::Store {
                    command: StoreCommand::FindBlock { height: block.header.height },
                }
            },
        },
        _ => {
            &&& post == CycleView::Resolving { resolver: next }
            &&& action matches CycleAction::Fetch { request }
            &&& asks(next, Some(request))
        },
    }
}

/// The outcome of a cycle whose writer has ended at `c`.
pub open spec fn outcome_at(c: Cursor) -> CycleOutcome {
    if c.unavailable {
        CycleOutcome::Error { error: SyncError::StoreUnavailable }
    } else if c.skipped {
        CycleOutcome::Partial
    } else {
        CycleOutcome::Success
    }
}

/// The controller at `pre`, told `event`, answers `action` and goes to
/// `post`.
///
/// A tick starts a cycle where none is in flight. The result of a request
/// moves the resolver; the answer to a store operation moves the writer,
/// and the cycle ends when the writer has. Everything else is skipped and
/// changes nothing.
pub open spec fn cycle_steps(
    pre: CycleView,
    event: CycleEvent,
    action: CycleAction,
    post: CycleView,
) -> bool {
    match (pre, event) {
        (CycleView::Idle, CycleEvent::Tick) => {
            &&& post == CycleView::Resolving { resolver: Resolver::Tip }
            &&& action == CycleAction::Fetch { request: Request::TipHeight }
        },
        (CycleView::Resolving { resolver }, CycleEvent::Fetched { reply }) => exists|
            next: Resolver,
        |
            #[trigger] resolves_to(resolver, reply, next) && settles(next, action, post),
        (CycleView::Persisting { block, cursor }, CycleEvent::Stored { reply }) => {
            let moved = advanced(block, cursor, reply);
            match command_at(block, moved) {
                Some(command) => {
                    &&& post == CycleView::Persisting { block, cursor: moved }
                    &&& action == CycleAction::Store { command }
                },
                None => post is Idle && action == CycleAction::Finish {
                    outcome: outcome_at(moved),
                },
            }
        },
        _ => post == pre && action == CycleAction::Skip,
    }
}

impl View for SyncCycle {
    type V = CycleView;

    closed spec fn view(&self) -> CycleView {
        match self.work {
            Work::Idle => CycleView::Idle,
            Work::Resolving { resolver } => CycleView::Resolving { resolver },
            Work::Persisting { writer } => CycleView::Persisting {
                block: writer.block(),
                cursor: writer.cursor(),
            },
        }
    }
}

impl SyncCycle {
    #[verifier::type_invariant]
    spec fn guarded(self) -> bool {
        self.guard.is_held() == !(self.work is Idle)
    }

    /// Whether the guard is held.
    pub closed spec fn guard_held(&self) -> bool {
        self.guard.is_held()
    }

    /// A controller with no cycle in flight.
    pub fn new() -> (cycle: SyncCycle)
        ensures
            cycle@ is Idle,
            !cycle.guard_held(),
    {
        SyncCycle { guard: SyncGuard::new(), work: Work::Idle }
    }

    /// Whether a cycle is in flight, that is, whether the guard is held.
    pub fn in_flight(&self) -> (r: bool)
        ensures
            r == self.guard_held(),
            r == !(self@ is Idle),
    {
        proof {
            use_type_invariant(self);
        }
        self.guard.held()
    }

    /// The controller with its guard released and nothing to do.
    fn idle(guard: SyncGuard) -> (cycle: SyncCycle)
        ensures
            cycle@ is Idle,
            !cycle.guard_held(),
    {
        let mut guard = guard;
        guard.release();
        SyncCycle { guard, work: Work::Idle }
    }

    /// Goes on after the resolver has moved to `next`.
    fn settle(guard: SyncGuard, next: Resolver) -> (r: (SyncCycle, CycleAction))
        requires
            guard.is_held(),
        ensures
            settles(next, r.1, r.0@),
            r.0.guard_held() == !(r.0@ is Idle),
    {
        match next {
            Resolver::Failed { error } => (
                SyncCycle::idle(guard),
                CycleAction::Finish { outcome: CycleOutcome::Error { error } },
            ),
            Resolver::Resolved { block } => match decompose(&block) {
                Ok(normalized) => {
                    let writer = BlockWriter::new(normalized);
                    match writer.command() {
                        Some(command) => (
                            SyncCycle { guard, work: Work::Persisting { writer } },
                            CycleAction::Store { command },
                        ),
                        None => (
                            SyncCycle::idle(guard),
                            CycleAction::Finish { outcome: CycleOutcome::Success },
                        ),
                    }
                },
                Err(error) => (
                    SyncCycle::idle(guard),
                    CycleAction::Finish { outcome: CycleOutcome::Error { error } },
                ),
            },
            resolver => match resolver.request() {
                Some(request) => (
                    SyncCycle { guard, work: Work::Resolving { resolver } },
                    CycleAction::Fetch { request },
                ),
                None => (
                    SyncCycle::idle(guard),
                    CycleAction::Finish {
                        outcome: CycleOutcome::Error { error: SyncError::MalformedResponse },
                    },
                ),
            },
        }
    }

    /// Takes one event and answers with what to do next.
    pub fn step(self, event: CycleEvent) -> (r: (SyncCycle, CycleAction))
        ensures
            cycle_steps(self@, event, r.1, r.0@),
            r.0.guard_held() == !(r.0@ is Idle),
    {
        proof {
            use_type_invariant(&self);
        }
        let SyncCycle { guard, work } = self;
        match (work, event) {
            (Work::Idle, CycleEvent::Tick) => {
                let mut guard = guard;
                let acquired = guard.try_acquire();
                assert(acquired);
                (
                    SyncCycle { guard, work: Work::Resolving { resolver: Resolver::start() } },
                    CycleAction::Fetch { request: Request::TipHeight },
                )
            },
            (Work::Resolving { resolver }, CycleEvent::Fetched { reply }) => {
                let next = resolver.on_reply(reply);
                SyncCycle::settle(guard, next)
            },
            (Work::Persisting { writer }, CycleEvent::Stored { reply }) => {
                let mut writer = writer;
                writer.on_reply(reply);
                match writer.command() {
                    Some(command) => (
                        SyncCycle { guard, work: Work::Persisting { writer } },
                        CycleAction::Store { command },
                    ),
                    None => {
                        let at = writer.position();
                        let outcome = if at.unavailable {
                            CycleOutcome::Error { error: SyncError::StoreUnavailable }
                        } else if at.skipped {
                            CycleOutcome::Partial
                        } else {
                            CycleOutcome::Success
                        };
                        (SyncCycle::idle(guard), CycleAction::Finish { outcome })
                    },
                }
            },
            (work, _) => (SyncCycle { guard, work }, CycleAction::Skip),
        }
    }

    /// Answers the store operations of the cycle from the in-memory store,
    /// one after the other, until the cycle asks for something else, and
    /// hands that back. An action that is no store operation is handed back
    /// at once.
    ///
    /// Where the cycle has just decomposed a block and `action` is the
    /// writer's first operation, the store ends as persisting the block
    /// leaves it, and the cycle ends with it.
    pub fn run_on_store(&mut self, store: &mut Store, action: CycleAction) -> (last: CycleAction)
        ensures
            (Outlook { store: final(store)@, cycle: final(self)@, last }) == outlook(
                old(self)@,
                action,
                old(store)@,
            ),
            !(last is Store),
            final(self).guard_held() == !(final(self)@ is Idle),
            begins_persisting(old(self)@, action) ==> {
                let done = persisted(old(store)@, old(self)@->block);
                &&& final(store)@ == done.store
                &&& final(self)@ is Idle
                &&& last == CycleAction::Finish {
                    outcome: if done.skipped {
                        CycleOutcome::Partial
                    } else {
                        CycleOutcome::Success
                    },
                }
            },
    {
        let mut current = action;
        proof {
            use_type_invariant(&*self);
        }
        loop
            invariant
                outlook(self@, current, store@) == outlook(old(self)@, action, old(store)@),
                self.guard_held() == !(self@ is Idle),
            decreases
                left_transactions(self@),
                left_part(self@),
                left_records(self@),
                left_operations(self@),
                store_actions(current),
        {
            match &self.work {
                Work::Persisting { writer } => {
                    let at = writer.position();
                    proof {
                        if current is Store {
                            let reply = reply_to(store@, current->command);
                            lemma_replies_keep_in_bounds(writer.block(), at, reply);
                            if !(at.stage is Finished) {
                                law_every_reply_moves_the_writer(writer.block(), at, reply);
                            }
                        }
                    }
                },
                _ => {},
            }
            match current {
                CycleAction::Store { command } => {
                    let reply = store.execute(command);
                    current = self.on_event(CycleEvent::Stored { reply });
                },
                other => {
                    proof {
                        if begins_persisting(old(self)@, action) {
                            let block = old(self)@->block;
                            law_run_persists(block, old(store)@);
                            assert(run(block, start(), old(store)@) == run(
                                block,
                                advanced(
                                    block,
                                    start(),
                                    reply_to(old(store)@, command_at(block, start())->0),
                                ),
                                applied(old(store)@, command_at(block, start())->0),
                            ));
                        }
                    }
                    return other;
                },
            }
        }
    }

    /// Takes one event in place and answers with what to do next.
    pub fn on_event(&mut self, event: CycleEvent) -> (action: CycleAction)
        ensures
            cycle_steps(old(self)@, event, action, final(self)@),
            final(self).guard_held() == !(final(self)@ is Idle),
    {
        let mut taken = SyncCycle::new();
        core::mem::swap(self, &mut taken);
        let (next, action) = taken.step(event);
        *self = next;
        action
    }
}

/// The cycle has just decomposed a block, and `action` is the first
/// operation of its writer.
pub open spec fn begins_persisting(v: CycleView, action: CycleAction) -> bool {
    &&& v matches CycleView::Persisting { block, cursor }
    &&& cursor == start()
    &&& action == CycleAction::Store { command: command_at(block, start())->0 }
}

/// What a run of the cycle on the in-memory store leaves: the contents of
/// the store, what the cycle is busy with, and the action it hands back.
pub ghost struct Outlook {
    pub store: StoreContents,
    pub cycle: CycleView,
    pub last: CycleAction,
}

/// What answering `action` from the in-memory store with the contents `s`
/// leaves of a cycle at `v`.
///
/// An action that is no store operation is handed back and nothing changes.
/// A cycle that persists takes the answer to the operation and then runs
/// its writer to the end: the store ends where that run ends, the cycle is
/// idle, and the outcome is that of the writer's last cursor. Any other
/// cycle skips the answer, though the store has carried the operation out.
pub open spec fn outlook(v: CycleView, action: CycleAction, s: StoreContents) -> Outlook {
    match action {
        CycleAction::Store { command } => match v {
            CycleView::Persisting { block, cursor } => {
                let end = run(
                    block,
                    advanced(block, cursor, reply_to(s, command)),
                    applied(s, command),
                );
                Outlook {
                    store: end.store,
                    cycle: CycleView::Idle,
                    last: CycleAction::Finish { outcome: outcome_at(end.cursor) },
                }
            },
            _ => Outlook { store: applied(s, command), cycle: v, last: CycleAction::Skip },
        },
        _ => Outlook { store: s, cycle: v, last: action },
    }
}

/// The measures of the writer of a cycle that persists, nothing otherwise.
spec fn left_transactions(v: CycleView) -> int {
    match v {
        CycleView::Persisting { block, cursor } => pending_transactions(block, cursor.stage),
        _ => 0,
    }
}

spec fn left_part(v: CycleView) -> int {
    match v {
        CycleView::Persisting { cursor, .. } => pending_part(cursor.stage),
        _ => 0,
    }
}

spec fn left_records(v: CycleView) -> int {
    match v {
        CycleView::Persisting { block, cursor } => pending_records(block, cursor.stage),
        _ => 0,
    }
}

spec fn left_operations(v: CycleView) -> int {
    match v {
        CycleView::Persisting { cursor, .. } => pending_operations(cursor.phase),
        _ => 0,
    }
}

/// One where `action` is a store operation.
spec fn store_actions(action: CycleAction) -> int {
    if action is Store {
        1
    } else {
        0
    }
}

/// A tick that finds a cycle in flight is skipped and changes nothing, so
/// that at most one cycle is in flight.
pub proof fn law_tick_in_flight_is_skipped(pre: CycleView, action: CycleAction, post: CycleView)
    requires
        !(pre is Idle),
        cycle_steps(pre, CycleEvent::Tick, action, post),
    ensures
        (action == CycleAction::Skip),
        post == pre,
{
}

/// A cycle that ends, with whatever outcome, leaves no cycle in flight: the
/// next tick starts a new one.
pub proof fn law_finish_releases_the_guard(
    pre: CycleView,
    event: CycleEvent,
    action: CycleAction,
    post: CycleView,
    next_action: CycleAction,
    next_post: CycleView,
)
    requires
        cycle_steps(pre, event, action, post),
        (action is Finish),
        cycle_steps(post, CycleEvent::Tick, next_action, next_post),
    ensures
        (post is Idle),
        next_action == (CycleAction::Fetch { request: Request::TipHeight }),
        next_post == (CycleView::Resolving { resolver: Resolver::Tip }),
{
    match (pre, event) {
        (CycleView::Resolving { resolver }, CycleEvent::Fetched { reply }) => {
            let next = choose|next: Resolver|
                #[trigger] resolves_to(resolver, reply, next) && settles(next, action, post);
            assert(settles(next, action, post));
        },
        _ => {},
    }
}

/// While a cycle resolves, nothing is written: the first store operation
/// comes only once the block is resolved and decomposed, and it is the
/// lookup of the block's height.
pub proof fn law_first_store_operation_is_the_lookup(
    resolver: Resolver,
    reply: HttpReply,
    action: CycleAction,
    post: CycleView,
)
    requires
        cycle_steps(
            (CycleView::Resolving { resolver }),
            (CycleEvent::Fetched { reply }),
            action,
            post,
        ),
        (action is Store),
    ensures
        (post is Persisting),
        action == (CycleAction::Store { command: command_at(post->block, start())->0 }),
        (action->command is FindBlock),
{
    let next = choose|next: Resolver|
        #[trigger] resolves_to(resolver, reply, next) && settles(next, action, post);
    assert(settles(next, action, post));
}

} // verus!
