//! Sequencing one logical mutation across the two stores.
//!
//! The caller drives the steps: it hands each event to `step` and performs
//! the action that comes back. The relational store is written first, in one
//! transaction; the mirror only after that succeeded. A mirror problem never
//! undoes or fails the command: it is reported as the outcome.

use vstd::prelude::*;
use crate::error::ForScoreError;

verus! {

/// How a mutation ended, where it did not fail.
#[derive(Debug, Clone, PartialEq, Eq)]
pub enum Outcome {
    /// Preview mode: the changes were computed and nothing was written.
    Previewed,
    /// Both stores were updated.
    Full,
    /// The relational store was updated; the mirror file or its entry is absent.
    NoMirror,
    /// The relational store was updated; writing the mirror failed, for the reason given.
    MirrorFailed(String),
}

/// What the caller reports back after each action.
#[derive(Debug)]
pub enum Event {
    /// The request was resolved and checked, or refused.
    Checked(Result<(), ForScoreError>),
    StoreWritten,
    StoreFailed(ForScoreError),
    MirrorWritten,
    MirrorMissing,
    MirrorWriteFailed(String),
}

/// What the caller is to do next.
#[derive(Debug)]
pub enum Action {
    /// Apply the change to the relational store, in one transaction.
    WriteStore,
    /// Patch the mirror file.
    WriteMirror,
    /// Stop, with this result.
    Finish(Result<Outcome, ForScoreError>),
}

#[derive(Debug, Clone, Copy, PartialEq, Eq)]
pub enum Phase {
    Checking,
    Storing,
    Mirroring,
    Done,
}

/// A mutation in progress.
#[derive(Debug, Clone, Copy)]
pub struct Mutation {
    pub preview: bool,
    pub phase: Phase,
}

/// The phase after `e`, and the action to take.
pub open spec fn transition(m: Mutation, e: Event) -> (Phase, Action) {
    match (m.phase, e) {
        (Phase::Checking, Event::Checked(Err(err))) => (Phase::Done, Action::Finish(Err(err))),
        (Phase::Checking, Event::Checked(Ok(_))) => if m.preview {
            (Phase::Done, Action::Finish(Ok(Outcome::Previewed)))
        } else {
            (Phase::Storing, Action::WriteStore)
        },
        (Phase::Storing, Event::StoreWritten) => (Phase::Mirroring, Action::WriteMirror),
        (Phase::Storing, Event::StoreFailed(err)) => (Phase::Done, Action::Finish(Err(err))),
        (Phase::Mirroring, Event::MirrorWritten) => (Phase::Done, Action::Finish(Ok(Outcome::Full))),
        (Phase::Mirroring, Event::MirrorMissing) => (
            Phase::Done,
            Action::Finish(Ok(Outcome::NoMirror)),
        ),
        (Phase::Mirroring, Event::MirrorWriteFailed(why)) => (
            Phase::Done,
            Action::Finish(Ok(Outcome::MirrorFailed(why))),
        ),
        _ => (Phase::Done, Action::Finish(Err(ForScoreError::OutOfOrder))),
    }
}

impl Mutation {
    pub fn new(preview: bool) -> (r: Mutation)
        ensures
            r.preview == preview,
            r.phase == Phase::Checking,
    {
        Mutation { preview, phase: Phase::Checking }
    }

    /// Takes in what happened and says what to do next.
    pub fn step(&mut self, e: Event) -> (a: Action)
        ensures
            final(self).preview == old(self).preview,
            (final(self).phase, a) == transition(*old(self), e),
    {
        let (p, a) = match (self.phase, e) {
            (Phase::Checking, Event::Checked(Err(err))) => (Phase::Done, Action::Finish(Err(err))),
            (Phase::Checking, Event::Checked(Ok(_))) => if self.preview {
                (Phase::Done, Action::Finish(Ok(Outcome::Previewed)))
            } else {
                (Phase::Storing, Action::WriteStore)
            },
            (Phase::Storing, Event::StoreWritten) => (Phase::Mirroring, Action::WriteMirror),
            (Phase::Storing, Event::StoreFailed(err)) => (Phase::Done, Action::Finish(Err(err))),
            (Phase::Mirroring, Event::MirrorWritten) => (
                Phase::Done,
                Action::Finish(Ok(Outcome::Full)),
            ),
            (Phase::Mirroring, Event::MirrorMissing) => (
                Phase::Done,
                Action::Finish(Ok(Outcome::NoMirror)),
            ),
            (Phase::Mirroring, Event::MirrorWriteFailed(why)) => (
                Phase::Done,
                Action::Finish(Ok(Outcome::MirrorFailed(why))),
            ),
            _ => (Phase::Done, Action::Finish(Err(ForScoreError::OutOfOrder))),
        };
        self.phase = p;
        a
    }
}

/// The actions a mutation takes for a run of events.
pub open spec fn run(m: Mutation, events: Seq<Event>) -> Seq<Action>
    decreases events.len(),
{
    if events.len() == 0 {
        Seq::empty()
    } else {
        let (p, a) = transition(m, events[0]);
        seq![a] + run(Mutation { preview: m.preview, phase: p }, events.drop_first())
    }
}

/// The action writes to one of the stores.
pub open spec fn writes(a: Action) -> bool {
    a is WriteStore || a is WriteMirror
}

/// Once done, a mutation writes nothing more.
pub proof fn lemma_done_writes_nothing(m: Mutation, events: Seq<Event>)
    requires
        m.phase == Phase::Done,
    ensures
        forall|i: int| 0 <= i < run(m, events).len() ==> !writes(#[trigger] run(m, events)[i]),
    decreases events.len(),
{
    if events.len() > 0 {
        let rest = events.drop_first();
        let m2 = Mutation { preview: m.preview, phase: Phase::Done };
        lemma_done_writes_nothing(m2, rest);
        assert forall|i: int| 0 <= i < run(m, events).len() implies !writes(#[trigger] run(m, events)[i]) by {
            if i > 0 {
                assert(run(m, events)[i] == run(m2, rest)[i - 1]);
            }
        }
    }
}

/// A refused request (an unresolved identifier, a bad key, a rating or
/// difficulty out of range) writes to neither store, whatever follows.
pub proof fn lemma_refusal_writes_nothing(preview: bool, err: ForScoreError, events: Seq<Event>)
    requires
        events.len() > 0,
        events[0] == Event::Checked(Err(err)),
    ensures
        run(Mutation { preview, phase: Phase::Checking }, events)[0] == Action::Finish(Err(err)),
        forall|i: int|
            0 <= i < run(Mutation { preview, phase: Phase::Checking }, events).len() ==> !writes(
                #[trigger] run(Mutation { preview, phase: Phase::Checking }, events)[i],
            ),
{
    let m = Mutation { preview, phase: Phase::Checking };
    let m2 = Mutation { preview, phase: Phase::Done };
    lemma_done_writes_nothing(m2, events.drop_first());
    assert forall|i: int| 0 <= i < run(m, events).len() implies !writes(#[trigger] run(m, events)[i]) by {
        if i > 0 {
            assert(run(m, events)[i] == run(m2, events.drop_first())[i - 1]);
        }
    }
}

/// In preview mode, nothing is ever written.
pub proof fn lemma_preview_writes_nothing(events: Seq<Event>)
    ensures
        forall|i: int|
            0 <= i < run(Mutation { preview: true, phase: Phase::Checking }, events).len() ==> !writes(
                #[trigger] run(Mutation { preview: true, phase: Phase::Checking }, events)[i],
            ),
{
    let m = Mutation { preview: true, phase: Phase::Checking };
    let m2 = Mutation { preview: true, phase: Phase::Done };
    if events.len() > 0 {
        lemma_done_writes_nothing(m2, events.drop_first());
        assert forall|i: int| 0 <= i < run(m, events).len() implies !writes(#[trigger] run(m, events)[i]) by {
            if i > 0 {
                assert(run(m, events)[i] == run(m2, events.drop_first())[i - 1]);
            }
        }
    }
}

/// A mirror write that fails after the relational store took the change
/// ends the command in success, with the failure as a warning: the store
/// write was made and is not undone.
pub proof fn lemma_mirror_failure_is_warning(why: String)
    ensures
        run(
            Mutation { preview: false, phase: Phase::Checking },
            seq![Event::Checked(Ok(())), Event::StoreWritten, Event::MirrorWriteFailed(why)],
        ) == seq![
            Action::WriteStore,
            Action::WriteMirror,
            Action::Finish(Ok(Outcome::MirrorFailed(why))),
        ],
{
    let events = seq![Event::Checked(Ok(())), Event::StoreWritten, Event::MirrorWriteFailed(why)];
    let m = Mutation { preview: false, phase: Phase::Checking };
    assert(events.drop_first() =~= seq![Event::StoreWritten, Event::MirrorWriteFailed(why)]);
    assert(events.drop_first().drop_first() =~= seq![Event::MirrorWriteFailed(why)]);
    assert(events.drop_first().drop_first().drop_first() =~= Seq::<Event>::empty());
    let m1 = Mutation { preview: false, phase: Phase::Storing };
    let m2 = Mutation { preview: false, phase: Phase::Mirroring };
    let m3 = Mutation { preview: false, phase: Phase::Done };
    assert(run(m3, Seq::<Event>::empty()) == Seq::<Action>::empty());
    assert(run(m2, seq![Event::MirrorWriteFailed(why)]) =~= seq![
        Action::Finish(Ok(Outcome::MirrorFailed(why))),
    ]);
    assert(run(m1, events.drop_first()) =~= seq![
        Action::WriteMirror,
        Action::Finish(Ok(Outcome::MirrorFailed(why))),
    ]);
    assert(run(m, events) =~= seq![
        Action::WriteStore,
        Action::WriteMirror,
        Action::Finish(Ok(Outcome::MirrorFailed(why))),
    ]);
}

/// A relational failure ends the command in failure before the mirror is touched.
pub proof fn lemma_store_failure_is_fatal(err: ForScoreError, events: Seq<Event>)
    requires
        events.len() >= 2,
        events[0] == Event::Checked(Ok(())),
        events[1] == Event::StoreFailed(err),
    ensures
        run(Mutation { preview: false, phase: Phase::Checking }, events)[1] == Action::Finish(Err(err)),
        forall|i: int|
            1 <= i < run(Mutation { preview: false, phase: Phase::Checking }, events).len() ==> !writes(
                #[trigger] run(Mutation { preview: false, phase: Phase::Checking }, events)[i],
            ),
{
    let m = Mutation { preview: false, phase: Phase::Checking };
    let m1 = Mutation { preview: false, phase: Phase::Storing };
    let m2 = Mutation { preview: false, phase: Phase::Done };
    let rest = events.drop_first();
    lemma_done_writes_nothing(m2, rest.drop_first());
    assert forall|i: int| 1 <= i < run(m, events).len() implies !writes(#[trigger] run(m, events)[i]) by {
        assert(run(m, events)[i] == run(m1, rest)[i - 1]);
        if i > 1 {
            assert(run(m1, rest)[i - 1] == run(m2, rest.drop_first())[i - 2]);
        }
    }
}

} // verus!
