//! Adding up the bytes below a package root, one walked entry at a time.
//!
//! The walk itself and the reading of file sizes happen elsewhere. Each
//! thing that happens there is handed in as a `WalkEvent`; the answer says
//! what to do next.

use crate::sums::{lemma_sum_of_rearranged, sum};
use vstd::prelude::*;

verus! {

/// What happened during the walk.
#[derive(Clone, Copy, Debug, PartialEq, Eq)]
pub enum WalkEvent {
    /// The walk could not read an entry.
    EntryFailed,
    /// The walk found an entry, a regular file or something else.
    Entry { regular_file: bool },
    /// The size of the file found last was read.
    Measured { len: u64 },
    /// The size of the file found last could not be read.
    MeasureFailed,
}

/// What to do after an event.
#[derive(Clone, Copy, Debug, PartialEq, Eq)]
pub enum WalkAction {
    /// Go on with the next entry.
    Next,
    /// Write the entry's error to the error stream, then go on.
    Report,
    /// Read the size of the file just found and hand it in.
    Measure,
    /// Give up the walk with the error of the failed read.
    Fail,
    /// Give up the walk: the total no longer fits 64 bits.
    Overflow,
}

/// The action that answers `event` when the files counted so far have the
/// sizes `counted`.
pub open spec fn action_after(counted: Seq<nat>, event: WalkEvent) -> WalkAction {
    match event {
        WalkEvent::EntryFailed => WalkAction::Report,
        WalkEvent::Entry { regular_file } => if regular_file {
            WalkAction::Measure
        } else {
            WalkAction::Next
        },
        WalkEvent::Measured { len } => if sum(counted) + len <= u64::MAX {
            WalkAction::Next
        } else {
            WalkAction::Overflow
        },
        WalkEvent::MeasureFailed => WalkAction::Fail,
    }
}

/// The sizes counted after `event`: one more where a size was read and the
/// total still fits, the same as before otherwise.
pub open spec fn counted_after(counted: Seq<nat>, event: WalkEvent) -> Seq<nat> {
    match event {
        WalkEvent::Measured { len } => if sum(counted) + len <= u64::MAX {
            counted.push(len as nat)
        } else {
            counted
        },
        _ => counted,
    }
}

/// The bytes counted so far below one package root.
pub struct SizeTally {
    total: u64,
    counted: Ghost<Seq<nat>>,
}

impl View for SizeTally {
    type V = Seq<nat>;

    /// The sizes of the files counted so far, in the order in which they
    /// were handed in.
    closed spec fn view(&self) -> Seq<nat> {
        self.counted@
    }
}

impl SizeTally {
    #[verifier::type_invariant]
    closed spec fn wf(&self) -> bool {
        self.total == sum(self.counted@)
    }

    /// A tally that has counted nothing.
    pub fn new() -> (tally: SizeTally)
        ensures
            tally@ == Seq::<nat>::empty(),
    {
        SizeTally { total: 0, counted: Ghost(Seq::empty()) }
    }

    /// The sum of the sizes counted so far.
    pub fn total(&self) -> (total: u64)
        ensures
            total == sum(self@),
    {
        proof {
            use_type_invariant(self);
        }
        self.total
    }

    /// Takes in `event` and says what to do next. Only a size that was read
    /// changes the tally, and only where the total still fits.
    pub fn step(&mut self, event: WalkEvent) -> (action: WalkAction)
        ensures
            action == action_after(old(self)@, event),
            final(self)@ == counted_after(old(self)@, event),
    {
        proof {
            use_type_invariant(&*self);
        }
        match event {
            WalkEvent::EntryFailed => WalkAction::Report,
            WalkEvent::Entry { regular_file } => {
                if regular_file {
                    WalkAction::Measure
                } else {
                    WalkAction::Next
                }
            },
            WalkEvent::Measured { len } => {
                match self.total.checked_add(len) {
                    Some(total) => {
                        let ghost counted = self.counted@.push(len as nat);
                        assert(counted.drop_last() =~= self.counted@);
                        *self = SizeTally { total, counted: Ghost(counted) };
                        WalkAction::Next
                    },
                    None => WalkAction::Overflow,
                }
            },
            WalkEvent::MeasureFailed => WalkAction::Fail,
        }
    }
}

/// The sizes counted after a whole run of events, starting from nothing.
pub open spec fn counted_over(events: Seq<WalkEvent>) -> Seq<nat>
    decreases events.len(),
{
    if events.len() == 0 {
        Seq::empty()
    } else {
        counted_after(counted_over(events.drop_last()), events.last())
    }
}

/// The sizes that were read during a run of events, in their order.
pub open spec fn measured(events: Seq<WalkEvent>) -> Seq<nat>
    decreases events.len(),
{
    if events.len() == 0 {
        Seq::empty()
    } else {
        match events.last() {
            WalkEvent::Measured { len } => measured(events.drop_last()).push(len as nat),
            _ => measured(events.drop_last()),
        }
    }
}

/// Where the sizes that were read fit 64 bits together, every one of them
/// is counted and nothing else: the total is exactly their sum. Entries
/// that are no regular files, and entries and files that could not be
/// read, add nothing.
pub proof fn lemma_every_measured_size_counts(events: Seq<WalkEvent>)
    requires
        sum(measured(events)) <= u64::MAX,
    ensures
        counted_over(events) == measured(events),
    decreases events.len(),
{
    if events.len() > 0 {
        let before = events.drop_last();
        match events.last() {
            WalkEvent::Measured { len } => {
                assert(measured(events).drop_last() =~= measured(before));
            },
            _ => {},
        }
        lemma_every_measured_size_counts(before);
    }
}

/// Two walks that read the same sizes equally often, in whatever order and
/// with whatever else between them, count the same total.
pub proof fn lemma_total_ignores_order(first: Seq<WalkEvent>, second: Seq<WalkEvent>)
    requires
        measured(first).to_multiset() == measured(second).to_multiset(),
        sum(measured(first)) <= u64::MAX,
    ensures
        sum(counted_over(first)) == sum(counted_over(second)),
{
    lemma_sum_of_rearranged(measured(first), measured(second));
    lemma_every_measured_size_counts(first);
    lemma_every_measured_size_counts(second);
}

} // verus!
