//! One venue's order book: a bid ladder and an ask ladder, mutated
//! only by applying normalized update events.

use crate::ladder::{ladder_map, PriceLadder, PriceLevel};
use vstd::prelude::*;

verus! {

/// A venue-agnostic update event: either a full snapshot that
/// replaces both ladders, or an incremental delta that upserts
/// individual levels.
pub enum UpdateEvent {
    Snapshot { bids: Vec<PriceLevel>, asks: Vec<PriceLevel> },
    Delta { bids: Vec<PriceLevel>, asks: Vec<PriceLevel> },
}

impl UpdateEvent {
    /// Whether this event replaces the whole book.
    pub open spec fn is_snapshot(&self) -> bool {
        matches!(self, UpdateEvent::Snapshot { .. })
    }

    /// The bid-side levels the event carries.
    pub open spec fn bid_levels(&self) -> Seq<PriceLevel> {
        match self {
            UpdateEvent::Snapshot { bids, .. } => bids@,
            UpdateEvent::Delta { bids, .. } => bids@,
        }
    }

    /// The ask-side levels the event carries.
    pub open spec fn ask_levels(&self) -> Seq<PriceLevel> {
        match self {
            UpdateEvent::Snapshot { asks, .. } => asks@,
            UpdateEvent::Delta { asks, .. } => asks@,
        }
    }
}

/// What one event does to one side's contents: a snapshot installs
/// exactly its own levels, a delta overwrites level by level.
pub open spec fn ladder_after_event(
    m: Map<u64, PriceLevel>,
    snapshot: bool,
    levels: Seq<PriceLevel>,
) -> Map<u64, PriceLevel> {
    if snapshot {
        ladder_map(levels)
    } else {
        m.union_prefer_right(ladder_map(levels))
    }
}

/// One side's contents after a whole sequence of events, applied in
/// order; each event is its snapshot flag and its levels.
pub open spec fn ladder_after_events(
    m: Map<u64, PriceLevel>,
    events: Seq<(bool, Seq<PriceLevel>)>,
) -> Map<u64, PriceLevel>
    decreases events.len(),
{
    if events.len() == 0 {
        m
    } else {
        ladder_after_event(
            ladder_after_events(m, events.drop_last()),
            events.last().0,
            events.last().1,
        )
    }
}

/// After any non-empty run of snapshot events, the contents equal the
/// last snapshot's levels alone, whatever the ladder held before: no
/// residue from prior state survives a snapshot.
pub proof fn lemma_snapshots_leave_no_residue(
    m: Map<u64, PriceLevel>,
    events: Seq<(bool, Seq<PriceLevel>)>,
)
    requires
        events.len() > 0,
        forall|i: int| 0 <= i < events.len() ==> (#[trigger] events[i]).0,
    ensures
        ladder_after_events(m, events) == ladder_map(events.last().1),
{
    assert(events[events.len() - 1].0);
}

/// After a snapshot followed by any run of deltas, each price key
/// holds exactly the level from the last event that touched it — the
/// last write wins, never an accumulation — and a key no delta
/// touched keeps the snapshot's level.
pub proof fn lemma_delta_last_write_wins(
    m: Map<u64, PriceLevel>,
    events: Seq<(bool, Seq<PriceLevel>)>,
    i: int,
    p: u64,
)
    requires
        events.len() > 0,
        events[0].0,
        forall|j: int| 1 <= j < events.len() ==> !(#[trigger] events[j]).0,
        0 <= i < events.len(),
        ladder_map(events[i].1).dom().contains(p),
        forall|j: int| i < j < events.len() ==> !ladder_map((#[trigger] events[j]).1).dom().contains(p),
    ensures
        ladder_after_events(m, events).dom().contains(p),
        ladder_after_events(m, events)[p] == ladder_map(events[i].1)[p],
    decreases events.len(),
{
    let last = events.last();
    assert(last == events[events.len() - 1]);
    if i == events.len() - 1 {
        if events.len() == 1 {
        } else {
            assert(!last.0);
        }
    } else {
        assert(!last.0);
        assert(!ladder_map(last.1).dom().contains(p));
        let prior = events.drop_last();
        assert(prior[0] == events[0]);
        assert(forall|j: int| 1 <= j < prior.len() ==> (#[trigger] prior[j]) == events[j]);
        assert(prior[i] == events[i]);
        lemma_delta_last_write_wins(m, prior, i, p);
    }
}

/// Two price ladders for one venue: bids and asks. Created empty at
/// start, mutated only through `apply_update`, read only by the
/// liquidity walks. No relation between best bid and best ask is
/// enforced: a crossed book is tolerated, not rejected.
pub struct VenueOrderBook {
    pub bids: PriceLadder,
    pub asks: PriceLadder,
}

impl VenueOrderBook {
    /// Both ladders keep their strict price ordering.
    pub open spec fn wf(&self) -> bool {
        self.bids.wf() && self.asks.wf()
    }

    /// An empty book.
    pub fn new() -> (r: Self)
        ensures
            r.wf(),
            r.bids@ == Seq::<PriceLevel>::empty(),
            r.asks@ == Seq::<PriceLevel>::empty(),
    {
        VenueOrderBook { bids: PriceLadder::new(), asks: PriceLadder::new() }
    }

    /// Applies one normalized event: a snapshot replaces both ladders
    /// with its own levels, a delta upserts its levels with the last
    /// write winning. Callers must hand events in wire-arrival order;
    /// no sequence-number reconciliation happens here.
    pub fn apply_update(&mut self, event: &UpdateEvent)
        requires
            old(self).wf(),
        ensures
            final(self).wf(),
            final(self).bids.contents() == ladder_after_event(
                old(self).bids.contents(),
                event.is_snapshot(),
                event.bid_levels(),
            ),
            final(self).asks.contents() == ladder_after_event(
                old(self).asks.contents(),
                event.is_snapshot(),
                event.ask_levels(),
            ),
    {
        match event {
            UpdateEvent::Snapshot { bids, asks } => {
                self.bids.replace(bids);
                self.asks.replace(asks);
            },
            UpdateEvent::Delta { bids, asks } => {
                self.bids.upsert(bids);
                self.asks.upsert(asks);
            },
        }
    }

    /// Runtime check of the well-formedness invariant, for callers
    /// outside verified code.
    pub fn is_well_formed(&self) -> (b: bool)
        ensures
            b == self.wf(),
    {
        self.bids.is_well_formed() && self.asks.is_well_formed()
    }
}

} // verus!
