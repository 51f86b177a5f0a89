//! Applying a stream of labelled operations to the file system, one at a
//! time and in order, stopping at the first failure.
//!
//! The file system is not touched here: `Applier` says which step to take
//! next, and its caller takes the step and reports what came of it.
use crate::flake_template::{labelled, labelled_view};
use crate::replace::{lemma_identity_plans_nothing, plan, Mutation, ReplaceOp};
use crate::text::{replace_all, replace_all_exec};
use vstd::prelude::*;

verus! {

/// Where an `Applier` stands in the operation under way.
#[derive(Debug, Clone, Copy)]
pub enum Phase {
    /// The file of a content replacement is being read.
    Reading,
    /// The replaced content is being written back.
    Writing,
    /// A file is being renamed.
    Renaming,
    /// Every operation was applied.
    Finished,
    /// An operation failed; nothing more is done.
    Stopped,
}

/// The operation that failed: its position in the stream, its parameter's
/// name and the operation itself.
#[derive(Debug)]
pub struct ApplyError {
    pub index: usize,
    pub name: String,
    pub op: ReplaceOp,
}

/// What the caller does next.
#[derive(Debug)]
pub enum Step {
    /// Read the whole text of the file at this path.
    Read(String),
    /// Write this text to the file at this path, replacing its content.
    Write(String, String),
    /// Rename the file at the first path to the second path.
    Rename(String, String),
    /// Every operation was applied.
    Finished,
    /// An operation failed; nothing more is done.
    Stopped(ApplyError),
}

/// What came of the last step.
#[derive(Debug)]
pub enum Event {
    /// The file was read; this is its text.
    Read(String),
    /// The write or the rename was done.
    Done,
    /// The step failed.
    Failed,
}

/// A `Step` over the characters of its texts.
pub enum StepView {
    Read(Seq<char>),
    Write(Seq<char>, Seq<char>),
    Rename(Seq<char>, Seq<char>),
    Finished,
    Stopped(int, Seq<char>, Mutation),
}

/// An `Event` over the characters of its text.
pub enum EventView {
    Read(Seq<char>),
    Done,
    Failed,
}

impl View for Step {
    type V = StepView;

    open spec fn view(&self) -> StepView {
        match self {
            Step::Read(p) => StepView::Read(p@),
            Step::Write(p, t) => StepView::Write(p@, t@),
            Step::Rename(p, n) => StepView::Rename(p@, n@),
            Step::Finished => StepView::Finished,
            Step::Stopped(e) => StepView::Stopped(e.index as int, e.name@, e.op@),
        }
    }
}

impl View for Event {
    type V = EventView;

    open spec fn view(&self) -> EventView {
        match self {
            Event::Read(t) => EventView::Read(t@),
            Event::Done => EventView::Done,
            Event::Failed => EventView::Failed,
        }
    }
}

/// The phase and the step that begin the operation at `pos`, or finish the
/// stream when none is left.
pub open spec fn begin(ops: Seq<(Seq<char>, Mutation)>, pos: int) -> (Phase, StepView) {
    if pos < 0 || pos >= ops.len() {
        (Phase::Finished, StepView::Finished)
    } else {
        match ops[pos].1 {
            Mutation::ContentReplace(p, _, _) => (Phase::Reading, StepView::Read(p)),
            Mutation::FileRename(p, n) => (Phase::Renaming, StepView::Rename(p, n)),
        }
    }
}

/// The report of a failure of the operation at `pos`.
pub open spec fn stopped_at(ops: Seq<(Seq<char>, Mutation)>, pos: int) -> StepView {
    StepView::Stopped(pos, ops[pos].0, ops[pos].1)
}

/// From position `pos` and `phase`, on event `e`: the new position, the new
/// phase and the step to take.
pub open spec fn next(ops: Seq<(Seq<char>, Mutation)>, pos: int, phase: Phase, e: EventView) -> (
    int,
    Phase,
    StepView,
) {
    match phase {
        Phase::Finished => (pos, Phase::Finished, StepView::Finished),
        Phase::Stopped => (pos, Phase::Stopped, stopped_at(ops, pos)),
        Phase::Reading => match (e, ops[pos].1) {
            (EventView::Read(text), Mutation::ContentReplace(p, from, to)) => (
                pos,
                Phase::Writing,
                StepView::Write(p, replace_all(text, from, to)),
            ),
            _ => (pos, Phase::Stopped, stopped_at(ops, pos)),
        },
        Phase::Writing | Phase::Renaming => match e {
            EventView::Done => (pos + 1, begin(ops, pos + 1).0, begin(ops, pos + 1).1),
            _ => (pos, Phase::Stopped, stopped_at(ops, pos)),
        },
    }
}

/// The steps taken from `pos` and `phase` on the events, one step per event.
pub open spec fn run(ops: Seq<(Seq<char>, Mutation)>, pos: int, phase: Phase, events: Seq<EventView>) -> Seq<StepView>
    decreases events.len(),
{
    if events.len() == 0 {
        seq![]
    } else {
        let (p, ph, s) = next(ops, pos, phase, events[0]);
        seq![s] + run(ops, p, ph, events.drop_first())
    }
}

/// Once an operation has failed, every later step reports that failure and
/// no other operation is taken up, whatever events follow.
pub proof fn lemma_stop_is_final(ops: Seq<(Seq<char>, Mutation)>, pos: int, events: Seq<EventView>)
    ensures
        run(ops, pos, Phase::Stopped, events).len() == events.len(),
        forall|k: int|
            0 <= k < events.len() ==> #[trigger] run(ops, pos, Phase::Stopped, events)[k] == stopped_at(ops, pos),
    decreases events.len(),
{
    if events.len() > 0 {
        lemma_stop_is_final(ops, pos, events.drop_first());
        let rest = run(ops, pos, Phase::Stopped, events.drop_first());
        assert forall|k: int| 0 <= k < events.len() implies #[trigger] run(ops, pos, Phase::Stopped, events)[k]
            == stopped_at(ops, pos) by {
            if k > 0 {
                assert(run(ops, pos, Phase::Stopped, events)[k] == rest[k - 1]);
            }
        }
    }
}

/// A parameter whose value equals its default plans no operation, and
/// applying its plan finishes at once, before any file is read, written or
/// renamed.
pub proof fn lemma_identity_touches_nothing(
    name: Seq<char>,
    from: Seq<char>,
    to: Seq<char>,
    files: Seq<Seq<char>>,
)
    requires
        to == from,
    ensures
        plan(from, to, files) == Seq::<Mutation>::empty(),
        begin(labelled(name, plan(from, to, files)), 0) == (Phase::Finished, StepView::Finished),
{
    lemma_identity_plans_nothing(from, to, files);
}

/// Applies labelled operations in order, one step at a time.
#[derive(Debug)]
pub struct Applier {
    ops: Vec<(String, ReplaceOp)>,
    /// The position of the operation under way, and the phase.
    at: (usize, Phase),
}

/// An `Applier`'s stream, position and phase.
pub struct ApplierView {
    pub ops: Seq<(Seq<char>, Mutation)>,
    pub pos: int,
    pub phase: Phase,
}

impl View for Applier {
    type V = ApplierView;

    closed spec fn view(&self) -> ApplierView {
        ApplierView { ops: labelled_view(self.ops@), pos: self.at.0 as int, phase: self.at.1 }
    }
}

impl Applier {
    #[verifier::type_invariant]
    spec fn consistent(self) -> bool {
        let (pos, phase) = self.at;
        &&& pos <= self.ops@.len()
        &&& match phase {
            Phase::Finished => pos == self.ops@.len(),
            Phase::Stopped => pos < self.ops@.len(),
            Phase::Reading | Phase::Writing => pos < self.ops@.len()
                && self.ops@[pos as int].1 is ContentReplace,
            Phase::Renaming => pos < self.ops@.len() && self.ops@[pos as int].1 is FileRename,
        }
    }

    fn begin_at(ops: &Vec<(String, ReplaceOp)>, pos: usize) -> (r: (Phase, Step))
        requires
            pos <= ops@.len(),
        ensures
            (r.0, r.1@) == begin(labelled_view(ops@), pos as int),
            r.0 is Finished ==> pos == ops@.len(),
            r.0 is Reading ==> pos < ops@.len() && ops@[pos as int].1 is ContentReplace,
            r.0 is Renaming ==> pos < ops@.len() && ops@[pos as int].1 is FileRename,
            !(r.0 is Writing) && !(r.0 is Stopped),
    {
        if pos >= ops.len() {
            return (Phase::Finished, Step::Finished);
        }
        match &ops[pos].1 {
            ReplaceOp::ContentReplace(p, _, _) => (Phase::Reading, Step::Read(p.clone())),
            ReplaceOp::FileRename(p, n) => (Phase::Renaming, Step::Rename(p.clone(), n.clone())),
        }
    }

    fn stop_at(ops: &Vec<(String, ReplaceOp)>, pos: usize) -> (r: Step)
        requires
            pos < ops@.len(),
        ensures
            r@ == stopped_at(labelled_view(ops@), pos as int),
    {
        let (name, op) = &ops[pos];
        Step::Stopped(ApplyError { index: pos, name: name.clone(), op: op.clone() })
    }

    /// Starts applying `ops`: the applier, at the first operation, and the
    /// first step to take.
    pub fn start(ops: Vec<(String, ReplaceOp)>) -> (r: (Applier, Step))
        ensures
            r.0@.ops == labelled_view(ops@),
            r.0@.pos == 0,
            (r.0@.phase, r.1@) == begin(labelled_view(ops@), 0),
    {
        let (phase, step) = Applier::begin_at(&ops, 0);
        (Applier { ops, at: (0, phase) }, step)
    }

    /// Takes in what came of the last step and gives the next one.
    pub fn resume(&mut self, event: Event) -> (r: Step)
        ensures
            final(self)@.ops == old(self)@.ops,
            (final(self)@.pos, final(self)@.phase, r@) == next(
                old(self)@.ops,
                old(self)@.pos,
                old(self)@.phase,
                event@,
            ),
    {
        proof {
            use_type_invariant(&*self);
        }
        let (pos, phase) = self.at;
        let n = self.ops.len();
        match phase {
            Phase::Finished => Step::Finished,
            Phase::Stopped => Applier::stop_at(&self.ops, pos),
            Phase::Reading => {
                match (event, &self.ops[pos].1) {
                    (Event::Read(text), ReplaceOp::ContentReplace(p, from, to)) => {
                        let content = if from.as_str().is_empty() {
                            text
                        } else {
                            replace_all_exec(text.as_str(), from.as_str(), to.as_str())
                        };
                        let path = p.clone();
                        self.at = (pos, Phase::Writing);
                        Step::Write(path, content)
                    },
                    _ => {
                        self.at = (pos, Phase::Stopped);
                        Applier::stop_at(&self.ops, pos)
                    },
                }
            },
            Phase::Writing | Phase::Renaming => {
                match event {
                    Event::Done => {
                        let (phase, step) = Applier::begin_at(&self.ops, pos + 1);
                        self.at = (pos + 1, phase);
                        step
                    },
                    _ => {
                        self.at = (pos, Phase::Stopped);
                        Applier::stop_at(&self.ops, pos)
                    },
                }
            },
        }
    }

    /// The position of the operation under way, or the number of operations
    /// once all are applied.
    pub fn position(&self) -> (r: usize)
        ensures
            r == self@.pos,
    {
        self.at.0
    }

    /// Where the applier stands.
    pub fn phase(&self) -> (r: Phase)
        ensures
            r == self@.phase,
    {
        self.at.1
    }
}

} // verus!
