//! The staging run as a state machine.
//!
//! The pipeline never touches the file system. It tells its driver what to do
//! next as an [`Action`]; the driver does it and reports the outcome as an
//! [`Event`]. A run goes through its stages in one order only:
//!
//! | stage         | pending action | answered by              |
//! |---------------|----------------|--------------------------|
//! | `Locating`    | `ListShards`   | `Listed`, `Rejected`     |
//! | `Reading`     | `ReadShards`   | `Read`                   |
//! | `Unpacking`   | `Unpack`       | `Completed`              |
//! | `Walking`     | `ListTree`     | `Listed`, `Rejected`     |
//! | `Normalizing` | `SetModes`     | `Completed`              |
//!
//! `Failed` answers every action. An event that does not answer the pending
//! action counts as that action's failure. Between `Reading` and `Unpacking`
//! the pipeline itself joins the shards, checks the digest and decompresses
//! the payload: only a payload that passed both is ever handed out for
//! unpacking.

use crate::digest::{digest_accepted, payload_digest, verify_payload};
use crate::error::StageError;
use crate::gzip::{decompress, gunzip};
use crate::layout::{
    shard_pattern, shard_pattern_for, tree_pattern, tree_pattern_for, STAGED_MODE,
};
use crate::order::{order_shards, sorted_paths};
use crate::payload::{concatenate, joined};
use vstd::prelude::*;

verus! {

/// How far a run has come.
#[derive(Clone, Copy, Debug, PartialEq, Eq, Structural)]
pub enum Stage {
    /// Waiting for the listing of the shard files.
    Locating,
    /// Waiting for the contents of the shards.
    Reading,
    /// Waiting for the archive to be unpacked.
    Unpacking,
    /// Waiting for the listing of the unpacked tree.
    Walking,
    /// Waiting for the permissions to be set.
    Normalizing,
    /// Everything was done.
    Finished,
    /// The run was given up.
    Failed { error: StageError },
}

/// What the driver reports back.
#[derive(Debug, PartialEq, Eq)]
pub enum Event {
    /// The paths that matched the pattern, in any order.
    Listed { paths: Vec<String> },
    /// The pattern was refused as malformed.
    Rejected,
    /// The full contents of the shards, in the order in which they were asked for.
    Read { shards: Vec<Vec<u8>> },
    /// The action was carried out.
    Completed,
    /// The action could not be carried out.
    Failed,
}

/// What the driver has to do next.
#[derive(Debug, PartialEq, Eq)]
pub enum Action {
    /// List the paths that match `pattern`.
    ListShards { pattern: String },
    /// Read each of `paths` to its end, in this order.
    ReadShards { paths: Vec<String> },
    /// Unpack the tar archive `archive` into the directory `dest`.
    Unpack { archive: Vec<u8>, dest: String },
    /// List the paths that match `pattern`.
    ListTree { pattern: String },
    /// Set the permission bits of each of `targets` to `mode`, in this order.
    SetModes { targets: Vec<String>, mode: u32 },
    /// Stop: the run succeeded.
    Finish,
    /// Stop: the run failed with `error`.
    Abort { error: StageError },
}

/// An [`Event`] as plain values.
pub enum EventView {
    Listed { paths: Seq<Seq<char>> },
    Rejected,
    Read { shards: Seq<Seq<u8>> },
    Completed,
    Failed,
}

/// An [`Action`] as plain values.
pub enum ActionView {
    ListShards { pattern: Seq<char> },
    ReadShards { paths: Seq<Seq<char>> },
    Unpack { archive: Seq<u8>, dest: Seq<char> },
    ListTree { pattern: Seq<char> },
    SetModes { targets: Seq<Seq<char>>, mode: u32 },
    Finish,
    Abort { error: StageError },
}

/// A [`Pipeline`] as plain values.
pub struct PipelineView {
    pub stage: Stage,
    pub dest: Seq<char>,
    pub expected: Option<Seq<char>>,
}

impl View for Event {
    type V = EventView;

    open spec fn view(&self) -> EventView {
        match self {
            Event::Listed { paths } => EventView::Listed { paths: paths.deep_view() },
            Event::Rejected => EventView::Rejected,
            Event::Read { shards } => EventView::Read { shards: shards.deep_view() },
            Event::Completed => EventView::Completed,
            Event::Failed => EventView::Failed,
        }
    }
}

impl View for Action {
    type V = ActionView;

    open spec fn view(&self) -> ActionView {
        match self {
            Action::ListShards { pattern } => ActionView::ListShards { pattern: pattern@ },
            Action::ReadShards { paths } => ActionView::ReadShards { paths: paths.deep_view() },
            Action::Unpack { archive, dest } => ActionView::Unpack {
                archive: archive@,
                dest: dest@,
            },
            Action::ListTree { pattern } => ActionView::ListTree { pattern: pattern@ },
            Action::SetModes { targets, mode } => ActionView::SetModes {
                targets: targets.deep_view(),
                mode: *mode,
            },
            Action::Finish => ActionView::Finish,
            Action::Abort { error } => ActionView::Abort { error: *error },
        }
    }
}

impl PipelineView {
    /// The same run at another stage.
    pub open spec fn at(self, stage: Stage) -> PipelineView {
        PipelineView { stage, ..self }
    }

    /// The run given up with `error`, and the action that says so.
    pub open spec fn stop(self, error: StageError) -> (PipelineView, ActionView) {
        (self.at(Stage::Failed { error }), ActionView::Abort { error })
    }

    /// What becomes of the run once the payload is complete: it is unpacked
    /// if its digest is accepted and it decompresses, and given up otherwise.
    pub open spec fn gate(self, payload: Seq<u8>) -> (PipelineView, ActionView) {
        if !digest_accepted(self.expected, payload_digest(payload)) {
            self.stop(StageError::ChecksumMismatch)
        } else {
            match gunzip(payload) {
                Some(archive) => (
                    self.at(Stage::Unpacking),
                    ActionView::Unpack { archive, dest: self.dest },
                ),
                None => self.stop(StageError::Extraction),
            }
        }
    }
}

/// The error with which a run at `stage` is given up when `event` is not the
/// answer that lets it go on.
pub open spec fn failure_of(stage: Stage, event: EventView) -> StageError {
    match stage {
        Stage::Locating | Stage::Walking => if event is Rejected {
            StageError::Pattern
        } else {
            StageError::Io
        },
        Stage::Unpacking => StageError::Extraction,
        Stage::Failed { error } => error,
        _ => StageError::Io,
    }
}

/// Everything whose permissions are set: the destination directory itself,
/// then all that was found below it.
pub open spec fn mode_targets(dest: Seq<char>, found: Seq<Seq<char>>) -> Seq<Seq<char>> {
    seq![dest] + found
}

/// The run after `event`, and the action it asks for.
pub open spec fn transition(run: PipelineView, event: EventView) -> (PipelineView, ActionView) {
    match run.stage {
        Stage::Finished => (run, ActionView::Finish),
        Stage::Failed { error } => (run, ActionView::Abort { error }),
        Stage::Locating => match event {
            EventView::Listed { paths } => (
                run.at(Stage::Reading),
                ActionView::ReadShards { paths: sorted_paths(paths) },
            ),
            _ => run.stop(failure_of(run.stage, event)),
        },
        Stage::Reading => match event {
            EventView::Read { shards } => run.gate(joined(shards)),
            _ => run.stop(failure_of(run.stage, event)),
        },
        Stage::Unpacking => match event {
            EventView::Completed => (
                run.at(Stage::Walking),
                ActionView::ListTree { pattern: tree_pattern(run.dest) },
            ),
            _ => run.stop(failure_of(run.stage, event)),
        },
        Stage::Walking => match event {
            EventView::Listed { paths } => (
                run.at(Stage::Normalizing),
                ActionView::SetModes { targets: mode_targets(run.dest, paths), mode: STAGED_MODE },
            ),
            _ => run.stop(failure_of(run.stage, event)),
        },
        Stage::Normalizing => match event {
            EventView::Completed => (run.at(Stage::Finished), ActionView::Finish),
            _ => run.stop(failure_of(run.stage, event)),
        },
    }
}

/// One staging run.
pub struct Pipeline {
    stage: Stage,
    dest: String,
    expected: Option<String>,
}

impl View for Pipeline {
    type V = PipelineView;

    closed spec fn view(&self) -> PipelineView {
        PipelineView {
            stage: self.stage,
            dest: self.dest@,
            expected: self.expected.deep_view(),
        }
    }
}

impl Pipeline {
    /// Begins a run that looks for shards under `search_root` (empty for the
    /// working directory), unpacks into `dest_root` and, where `expected` is
    /// given, insists on that digest.
    pub fn start(search_root: &str, dest_root: &str, expected: Option<String>) -> (r: (
        Pipeline,
        Action,
    ))
        ensures
            r.0@ == (PipelineView {
                stage: Stage::Locating,
                dest: dest_root@,
                expected: expected.deep_view(),
            }),
            r.1@ == (ActionView::ListShards { pattern: shard_pattern(search_root@) }),
    {
        let run = Pipeline { stage: Stage::Locating, dest: String::from_str(dest_root), expected };
        (run, Action::ListShards { pattern: shard_pattern_for(search_root) })
    }

    /// The stage the run is at.
    pub fn stage(&self) -> (stage: Stage)
        ensures
            stage == self@.stage,
    {
        self.stage
    }

    /// Gives the run up with `error`.
    fn abort(&mut self, error: StageError) -> (action: Action)
        ensures
            (final(self)@, action@) == old(self)@.stop(error),
    {
        self.stage = Stage::Failed { error };
        Action::Abort { error }
    }

    /// Joins the shards, checks the digest and decompresses the payload.
    fn gate(&mut self, shards: Vec<Vec<u8>>) -> (action: Action)
        ensures
            (final(self)@, action@) == old(self)@.gate(joined(shards.deep_view())),
    {
        let payload = concatenate(&shards);
        match verify_payload(payload.as_slice(), &self.expected) {
            Err(error) => self.abort(error),
            Ok(()) => match decompress(payload.as_slice()) {
                Err(error) => self.abort(error),
                Ok(archive) => {
                    self.stage = Stage::Unpacking;
                    Action::Unpack { archive, dest: self.dest.clone() }
                },
            },
        }
    }

    /// Takes in what happened to the pending action and says what to do next.
    pub fn step(&mut self, event: Event) -> (action: Action)
        ensures
            (final(self)@, action@) == transition(old(self)@, event@),
    {
        let stage = self.stage;
        match stage {
            Stage::Finished => Action::Finish,
            Stage::Failed { error } => Action::Abort { error },
            Stage::Locating => match event {
                Event::Listed { paths } => {
                    self.stage = Stage::Reading;
                    Action::ReadShards { paths: order_shards(paths) }
                },
                Event::Rejected => self.abort(StageError::Pattern),
                _ => self.abort(StageError::Io),
            },
            Stage::Reading => match event {
                Event::Read { shards } => self.gate(shards),
                _ => self.abort(StageError::Io),
            },
            Stage::Unpacking => match event {
                Event::Completed => {
                    self.stage = Stage::Walking;
                    Action::ListTree { pattern: tree_pattern_for(self.dest.as_str()) }
                },
                _ => self.abort(StageError::Extraction),
            },
            Stage::Walking => match event {
                Event::Listed { paths } => {
                    let mut found = paths;
                    let mut targets: Vec<String> = Vec::new();
                    targets.push(self.dest.clone());
                    targets.append(&mut found);
                    assert(targets.deep_view() =~= mode_targets(self.dest@, paths.deep_view()));
                    self.stage = Stage::Normalizing;
                    Action::SetModes { targets, mode: STAGED_MODE }
                },
                Event::Rejected => self.abort(StageError::Pattern),
                _ => self.abort(StageError::Io),
            },
            Stage::Normalizing => match event {
                Event::Completed => {
                    self.stage = Stage::Finished;
                    Action::Finish
                },
                _ => self.abort(StageError::Io),
            },
        }
    }
}

/// The run after a whole sequence of events, taken in from the first to the last.
pub open spec fn run_after(run: PipelineView, events: Seq<EventView>) -> PipelineView
    decreases events.len(),
{
    if events.len() == 0 {
        run
    } else {
        transition(run_after(run, events.drop_last()), events.last()).0
    }
}

/// How many actions a run at `stage` has behind it on the way to success.
pub open spec fn progress(stage: Stage) -> int {
    match stage {
        Stage::Locating => 0,
        Stage::Reading => 1,
        Stage::Unpacking => 2,
        Stage::Walking => 3,
        Stage::Normalizing => 4,
        Stage::Finished => 5,
        Stage::Failed { .. } => -1,
    }
}

/// Two listings of the same shard files, in whatever order the file system
/// gave them, make the run ask for the same reads in the same order.
pub proof fn lemma_shards_are_read_in_one_order(
    run: PipelineView,
    first: Seq<Seq<char>>,
    second: Seq<Seq<char>>,
)
    requires
        run.stage == Stage::Locating,
        first.to_multiset() == second.to_multiset(),
    ensures
        transition(run, EventView::Listed { paths: first }) == transition(
            run,
            EventView::Listed { paths: second },
        ),
{
    crate::order::lemma_listing_order_is_irrelevant(first, second);
}

/// An archive is handed out for unpacking only in answer to the shards'
/// contents, only when their digest is accepted, and it is then the
/// decompressed payload, to be unpacked into the run's destination.
pub proof fn lemma_unpack_only_past_the_gate(run: PipelineView, event: EventView)
    requires
        transition(run, event).1 is Unpack,
    ensures
        run.stage == Stage::Reading,
        event is Read,
        digest_accepted(run.expected, payload_digest(joined(event->shards))),
        gunzip(joined(event->shards)) == Some(transition(run, event).1->archive),
        transition(run, event).1->dest == run.dest,
        transition(run, event).0 == run.at(Stage::Unpacking),
{
}

/// With an expected digest that is not the payload's, the run is given up
/// with a checksum mismatch instead of unpacking anything.
pub proof fn lemma_wrong_digest_stops_the_run(
    run: PipelineView,
    shards: Seq<Seq<u8>>,
    wanted: Seq<char>,
)
    requires
        run.stage == Stage::Reading,
        run.expected == Some(wanted),
        wanted != payload_digest(joined(shards)),
    ensures
        transition(run, EventView::Read { shards }) == run.stop(StageError::ChecksumMismatch),
{
}

/// With the payload's own digest as the expected one, or with none expected,
/// the digest never stops the run: a payload that decompresses goes on to be
/// unpacked, and one that does not is an extraction failure.
pub proof fn lemma_accepted_digest_lets_the_run_go_on(run: PipelineView, shards: Seq<Seq<u8>>)
    requires
        run.stage == Stage::Reading,
        run.expected is None || run.expected == Some(payload_digest(joined(shards))),
    ensures
        transition(run, EventView::Read { shards }) == match gunzip(joined(shards)) {
            Some(archive) => (
                run.at(Stage::Unpacking),
                ActionView::Unpack { archive, dest: run.dest },
            ),
            None => run.stop(StageError::Extraction),
        },
{
}

/// Once the tree is listed, one action sets the mode of the destination
/// directory and of every entry found below it, and the mode is 0755.
pub proof fn lemma_every_entry_gets_the_staged_mode(run: PipelineView, found: Seq<Seq<char>>)
    requires
        run.stage == Stage::Walking,
    ensures
        transition(run, EventView::Listed { paths: found }) == (
            run.at(Stage::Normalizing),
            ActionView::SetModes { targets: mode_targets(run.dest, found), mode: 0o755 },
        ),
        mode_targets(run.dest, found).len() == found.len() + 1,
        mode_targets(run.dest, found)[0] == run.dest,
        forall|i: int|
            0 <= i < found.len() ==> #[trigger] mode_targets(run.dest, found)[i + 1] == found[i],
{
}

/// A failed unpacking is an extraction failure, whatever the driver reports
/// in place of success.
pub proof fn lemma_failed_unpack_is_an_extraction_failure(run: PipelineView, event: EventView)
    requires
        run.stage == Stage::Unpacking,
        !(event is Completed),
    ensures
        transition(run, event) == run.stop(StageError::Extraction),
{
}

/// A run that was given up stays given up: whatever is reported to it, it
/// keeps its error and asks for nothing but to stop.
pub proof fn lemma_failure_is_final(run: PipelineView, events: Seq<EventView>)
    requires
        run.stage is Failed,
    ensures
        run_after(run, events) == run,
        forall|event: EventView| #[trigger]
            transition(run, event) == (run, ActionView::Abort { error: run.stage->error }),
    decreases events.len(),
{
    if events.len() > 0 {
        lemma_failure_is_final(run, events.drop_last());
    }
}

/// A run that has finished stays finished.
pub proof fn lemma_success_is_final(run: PipelineView, events: Seq<EventView>)
    requires
        run.stage == Stage::Finished,
    ensures
        run_after(run, events) == run,
        forall|event: EventView| #[trigger] transition(run, event) == (run, ActionView::Finish),
    decreases events.len(),
{
    if events.len() > 0 {
        lemma_success_is_final(run, events.drop_last());
    }
}

/// A run never skips a stage: an event leaves it where it is (once it has
/// finished), takes it exactly one stage further, or makes it fail.
pub proof fn lemma_one_stage_at_a_time(run: PipelineView, event: EventView)
    ensures
        ({
            let next = transition(run, event).0;
            ||| next.stage is Failed
            ||| next == run && run.stage == Stage::Finished
            ||| progress(next.stage) == progress(run.stage) + 1
        }),
        transition(run, event).0.dest == run.dest,
        transition(run, event).0.expected == run.expected,
{
}

/// Every event that does not end a run takes it one stage further, so the
/// stage of a run says how many events it has taken in.
proof fn lemma_progress_counts_events(run: PipelineView, events: Seq<EventView>)
    requires
        run.stage == Stage::Locating,
    ensures
        ({
            let stage = run_after(run, events).stage;
            ||| stage is Failed
            ||| stage == Stage::Finished && events.len() >= 5
            ||| progress(stage) == events.len() && events.len() < 5
        }),
        run_after(run, events).dest == run.dest,
        run_after(run, events).expected == run.expected,
    decreases events.len(),
{
    if events.len() > 0 {
        lemma_progress_counts_events(run, events.drop_last());
        lemma_one_stage_at_a_time(run_after(run, events.drop_last()), events.last());
    }
}

/// Success is owed to every step. A run that has finished was told, in this
/// order and before anything else: of the shards' listing; of the shards'
/// contents, whose digest was accepted and which decompressed; that the
/// archive was unpacked; of the tree's listing; and that the modes were set.
pub proof fn lemma_success_takes_every_step(run: PipelineView, events: Seq<EventView>)
    requires
        run.stage == Stage::Locating,
        run_after(run, events).stage == Stage::Finished,
    ensures
        events.len() >= 5,
        events[0] is Listed,
        events[1] is Read,
        digest_accepted(run.expected, payload_digest(joined(events[1]->shards))),
        gunzip(joined(events[1]->shards)) is Some,
        events[2] is Completed,
        events[3] is Listed,
        events[4] is Completed,
    decreases events.len(),
{
    lemma_progress_counts_events(run, events);
    let earlier = events.drop_last();
    lemma_progress_counts_events(run, earlier);
    lemma_one_stage_at_a_time(run_after(run, earlier), events.last());
    if events.len() > 5 {
        lemma_success_takes_every_step(run, earlier);
    } else {
        let e1 = events.take(1);
        let e2 = events.take(2);
        let e3 = events.take(3);
        assert(earlier.drop_last() =~= e3);
        assert(e3.drop_last() =~= e2);
        assert(e2.drop_last() =~= e1);
        assert(e1.drop_last() =~= Seq::<EventView>::empty());
        lemma_progress_counts_events(run, e3);
        lemma_progress_counts_events(run, e2);
        lemma_progress_counts_events(run, e1);
        lemma_one_stage_at_a_time(run_after(run, e3), earlier.last());
        lemma_one_stage_at_a_time(run_after(run, e2), e3.last());
        lemma_one_stage_at_a_time(run_after(run, e1), e2.last());
        lemma_one_stage_at_a_time(run, e1.last());
        assert(run_after(run, e1).stage == Stage::Reading);
        assert(run_after(run, e2).stage == Stage::Unpacking);
        assert(run_after(run, e3).stage == Stage::Walking);
        assert(run_after(run, earlier).stage == Stage::Normalizing);
    }
}

} // verus!
