//! The course of a story batch: what is done after what, and what the lanes hold meanwhile.

use crate::error::LeoResult;
use crate::snapshot::SnapshotKind;
use crate::story_batch::{
    groups_from, lane_needs_repair, BatchChunk, LaneGroup, MergePath, LANE_REVISION_IN_FLIGHT,
};
use vstd::prelude::*;

verus! {

/// Where a batch stands.
#[derive(Debug, Clone, Copy, PartialEq, Eq, Structural)]
pub enum BatchPhase {
    UploadModel,
    RepairLane(usize),
    ResetLane(usize),
    PlanExecution,
    ClearCounters,
    OpenChunk,
    UploadTables,
    Group(usize),
    Wavefronts,
    DownloadRecords,
    CloseLane(usize),
    Collect,
    MergeFixed,
    Snapshot,
    PullFixed,
    Reduce,
    Commit,
    Observe,
    EmitProfile,
    ResetDocument,
    Report,
    Finished,
    Failed,
}

/// What is to be done.
#[derive(Debug, Clone, Copy, PartialEq, Eq, Structural)]
pub enum BatchAction {
    /// A model that was changed on the host is uploaded.
    UploadModel,
    /// The canonical parameters are copied to a lane.
    CopyCanonical { lane: usize },
    /// A lane forgets its document and its changes.
    ResetLane { lane: usize },
    /// A plan is asked for, and whether this batch is measured.
    PlanExecution,
    /// The counters of the phase profile are set to zero.
    ClearCounters,
    /// The next chunk of every lane is prepared.
    OpenChunk,
    /// The tables of the chunk are uploaded: pointers, steps, counts and ticks.
    UploadTables,
    /// The steps of the lanes from `start` to `end` are uploaded; then their chunk is launched as a
    /// whole, or the first step of it.
    LaunchGroup { start: usize, end: usize, whole: bool },
    /// The steps after the first are launched, one after the other for all groups.
    LaunchWavefronts,
    /// The records of all lanes are downloaded and waited for.
    DownloadRecords { fast: bool },
    /// The records of a lane are read.
    CloseLane { lane: usize },
    /// The counters of the stories are completed.
    Collect,
    /// The fixed tensors are merged on the device.
    MergeFixed,
    /// The changes of all lanes are brought to the host.
    Snapshot { kind: SnapshotKind },
    /// The merged fixed tensors are written into the model of the host.
    PullFixed,
    /// The deltas of the lanes are merged into the model of the host.
    Reduce,
    /// The merged model is scattered to the canonical buffers and to every lane.
    Commit,
    /// The time that the batch took is handed to the search for a plan.
    Observe,
    /// The phase profile is reported.
    EmitProfile,
    /// The device forgets the document.
    ResetDocument,
    /// The report is put together.
    Report,
    /// Nothing: the batch is over.
    Nothing,
}

/// What came of an action.
#[derive(Debug, Clone, Copy, PartialEq, Eq, Structural)]
pub enum BatchEvent {
    /// It was done.
    Done,
    /// So many lanes run together, and whether they take many steps in one launch.
    Planned { lane_chunk: usize, persistent: bool },
    /// No lane has steps left.
    StoriesDone,
    /// The device and all lanes hold this revision.
    Committed { revision: u64 },
    /// It failed.
    Failed,
}

/// The course of a batch.
#[derive(Debug)]
pub struct BatchCourse {
    pub phase: BatchPhase,
    pub path: MergePath,
    pub canonical_revision: u64,
    /// The revision of the parameters that each lane holds.
    pub lane_revisions: Vec<u64>,
    /// How many lanes run together; none is taken for one.
    pub lane_chunk: usize,
    /// The lanes take many steps in one launch.
    pub persistent: bool,
    /// The phases of wavefronts are profiled.
    pub profiled: bool,
}

impl BatchCourse {
    /// How many lanes a group has.
    pub open spec fn group_size(self) -> int {
        if self.lane_chunk < 1 {
            1
        } else {
            self.lane_chunk as int
        }
    }

    /// The lane after the last one of the group that begins at `start`.
    pub open spec fn group_end(self, start: int) -> int {
        if start + self.group_size() < self.lane_revisions@.len() {
            start + self.group_size()
        } else {
            self.lane_revisions@.len() as int
        }
    }

    /// What comes before the steps of a lane: it is repaired where it does not hold the canonical
    /// parameters, then reset. After the last lane a plan is made.
    pub open spec fn before_lane(self, lane: int) -> BatchPhase {
        if lane >= self.lane_revisions@.len() {
            BatchPhase::PlanExecution
        } else if self.lane_revisions@[lane] != self.canonical_revision {
            BatchPhase::RepairLane(lane as usize)
        } else {
            BatchPhase::ResetLane(lane as usize)
        }
    }

    /// The phase after this one, where its action gave `event`. An event that the action cannot
    /// give changes nothing.
    pub open spec fn following(self, event: BatchEvent) -> BatchPhase {
        let done = event == BatchEvent::Done;
        match self.phase {
            BatchPhase::Finished => BatchPhase::Finished,
            BatchPhase::Failed => BatchPhase::Failed,
            _ if event == BatchEvent::Failed => BatchPhase::Failed,
            BatchPhase::UploadModel if done => self.before_lane(0),
            BatchPhase::RepairLane(lane) if done => BatchPhase::ResetLane(lane),
            BatchPhase::ResetLane(lane) if done => self.before_lane(lane + 1),
            BatchPhase::PlanExecution if event is Planned => if self.profiled {
                BatchPhase::ClearCounters
            } else {
                BatchPhase::OpenChunk
            },
            BatchPhase::ClearCounters if done => BatchPhase::OpenChunk,
            BatchPhase::OpenChunk if done => BatchPhase::UploadTables,
            BatchPhase::OpenChunk if event == BatchEvent::StoriesDone => BatchPhase::Collect,
            BatchPhase::UploadTables if done => BatchPhase::Group(0),
            BatchPhase::Group(start) if done => if self.group_end(start as int)
                < self.lane_revisions@.len() {
                BatchPhase::Group(self.group_end(start as int) as usize)
            } else if self.persistent {
                BatchPhase::DownloadRecords
            } else {
                BatchPhase::Wavefronts
            },
            BatchPhase::Wavefronts if done => BatchPhase::DownloadRecords,
            BatchPhase::DownloadRecords if done => BatchPhase::CloseLane(0),
            BatchPhase::CloseLane(lane) if done => if lane + 1 < self.lane_revisions@.len() {
                BatchPhase::CloseLane((lane + 1) as usize)
            } else {
                BatchPhase::OpenChunk
            },
            BatchPhase::Collect if done => if self.path == MergePath::Device {
                BatchPhase::MergeFixed
            } else {
                BatchPhase::Snapshot
            },
            BatchPhase::MergeFixed if done => BatchPhase::Snapshot,
            BatchPhase::Snapshot if done => match self.path {
                MergePath::Retain => BatchPhase::Observe,
                MergePath::Device => BatchPhase::PullFixed,
                MergePath::Host => BatchPhase::Reduce,
            },
            BatchPhase::PullFixed if done => BatchPhase::Reduce,
            BatchPhase::Reduce if done => BatchPhase::Commit,
            BatchPhase::Commit if event is Committed => BatchPhase::Observe,
            BatchPhase::Observe if done => if self.profiled {
                BatchPhase::EmitProfile
            } else {
                BatchPhase::ResetDocument
            },
            BatchPhase::EmitProfile if done => BatchPhase::ResetDocument,
            BatchPhase::ResetDocument if done => BatchPhase::Report,
            BatchPhase::Report if done => BatchPhase::Finished,
            _ => self.phase,
        }
    }

    /// What the lanes hold after the action of this phase gave `event`. A lane that was reset is
    /// marked, and stays so until the batch is committed.
    pub open spec fn held_after(self, event: BatchEvent) -> Seq<u64> {
        match (self.phase, event) {
            (BatchPhase::ResetLane(lane), BatchEvent::Done) => self.lane_revisions@.update(
                lane as int,
                LANE_REVISION_IN_FLIGHT,
            ),
            (BatchPhase::Commit, BatchEvent::Committed { revision }) => Seq::new(
                self.lane_revisions@.len(),
                |i: int| revision,
            ),
            _ => self.lane_revisions@,
        }
    }

    /// `after` is this course after the action of its phase gave `event`.
    pub open spec fn leads_to(self, event: BatchEvent, after: BatchCourse) -> bool {
        &&& after.phase == self.following(event)
        &&& after.lane_revisions@ == self.held_after(event)
        &&& match (self.phase, event) {
            (BatchPhase::PlanExecution, BatchEvent::Planned { lane_chunk, persistent }) => {
                after.lane_chunk == lane_chunk && after.persistent == persistent
            },
            _ => after.lane_chunk == self.lane_chunk && after.persistent == self.persistent,
        }
        &&& after.path == self.path
        &&& after.canonical_revision == self.canonical_revision
        &&& after.profiled == self.profiled
    }

    /// How many lanes have been reset in this phase.
    pub open spec fn reset_lanes(self) -> int {
        match self.phase {
            BatchPhase::UploadModel => 0,
            BatchPhase::RepairLane(lane) => lane as int,
            BatchPhase::ResetLane(lane) => lane as int,
            _ => self.lane_revisions@.len() as int,
        }
    }

    /// The lanes take their steps, or have taken them and nothing is committed yet.
    pub open spec fn uncommitted(self) -> bool {
        match self.phase {
            BatchPhase::Observe => self.path == MergePath::Retain,
            BatchPhase::EmitProfile => self.path == MergePath::Retain,
            BatchPhase::ResetDocument => self.path == MergePath::Retain,
            BatchPhase::Report => self.path == MergePath::Retain,
            BatchPhase::Finished => self.path == MergePath::Retain,
            BatchPhase::Failed => false,
            _ => true,
        }
    }

    /// The phase belongs to the path of the merge, and every lane that was reset is marked until
    /// the batch is committed.
    pub open spec fn wf(self) -> bool {
        &&& match self.phase {
            BatchPhase::RepairLane(lane) => lane < self.lane_revisions@.len()
                && self.lane_revisions@[lane as int] != self.canonical_revision,
            BatchPhase::ResetLane(lane) => lane < self.lane_revisions@.len(),
            BatchPhase::Group(start) => start < self.lane_revisions@.len(),
            BatchPhase::CloseLane(lane) => lane < self.lane_revisions@.len(),
            BatchPhase::MergeFixed => self.path == MergePath::Device,
            BatchPhase::PullFixed => self.path == MergePath::Device,
            BatchPhase::Reduce => self.path != MergePath::Retain,
            BatchPhase::Commit => self.path != MergePath::Retain,
            _ => true,
        }
        &&& 0 < self.lane_revisions@.len()
        &&& self.uncommitted() ==> forall|i: int|
            0 <= i < self.reset_lanes() ==> #[trigger] self.lane_revisions@[i]
                == LANE_REVISION_IN_FLIGHT
    }

    /// A course that has not begun. There is a lane for each story.
    pub fn new(
        path: MergePath,
        canonical_revision: u64,
        lane_revisions: Vec<u64>,
        profiled: bool,
    ) -> (r: BatchCourse)
        requires
            0 < lane_revisions.len(),
        ensures
            r.wf(),
            r.phase == BatchPhase::UploadModel,
            r.path == path,
            r.canonical_revision == canonical_revision,
            r.lane_revisions == lane_revisions,
            r.lane_chunk == 0,
            !r.persistent,
            r.profiled == profiled,
    {
        BatchCourse {
            phase: BatchPhase::UploadModel,
            path,
            canonical_revision,
            lane_revisions,
            lane_chunk: 0,
            persistent: false,
            profiled,
        }
    }

    /// What is to be done in this phase.
    pub open spec fn due(self) -> BatchAction {
        match self.phase {
            BatchPhase::UploadModel => BatchAction::UploadModel,
            BatchPhase::RepairLane(lane) => BatchAction::CopyCanonical { lane },
            BatchPhase::ResetLane(lane) => BatchAction::ResetLane { lane },
            BatchPhase::PlanExecution => BatchAction::PlanExecution,
            BatchPhase::ClearCounters => BatchAction::ClearCounters,
            BatchPhase::OpenChunk => BatchAction::OpenChunk,
            BatchPhase::UploadTables => BatchAction::UploadTables,
            BatchPhase::Group(start) => BatchAction::LaunchGroup {
                start,
                end: self.group_end(start as int) as usize,
                whole: self.persistent,
            },
            BatchPhase::Wavefronts => BatchAction::LaunchWavefronts,
            BatchPhase::DownloadRecords => BatchAction::DownloadRecords { fast: self.persistent },
            BatchPhase::CloseLane(lane) => BatchAction::CloseLane { lane },
            BatchPhase::Collect => BatchAction::Collect,
            BatchPhase::MergeFixed => BatchAction::MergeFixed,
            BatchPhase::Snapshot => BatchAction::Snapshot {
                kind: if self.path == MergePath::Device {
                    SnapshotKind::ContextOnly
                } else {
                    SnapshotKind::Full
                },
            },
            BatchPhase::PullFixed => BatchAction::PullFixed,
            BatchPhase::Reduce => BatchAction::Reduce,
            BatchPhase::Commit => BatchAction::Commit,
            BatchPhase::Observe => BatchAction::Observe,
            BatchPhase::EmitProfile => BatchAction::EmitProfile,
            BatchPhase::ResetDocument => BatchAction::ResetDocument,
            BatchPhase::Report => BatchAction::Report,
            BatchPhase::Finished => BatchAction::Nothing,
            BatchPhase::Failed => BatchAction::Nothing,
        }
    }

    /// What is to be done in this phase.
    pub fn action(&self) -> (r: BatchAction)
        requires
            self.wf(),
        ensures
            r == self.due(),
    {
        match self.phase {
            BatchPhase::UploadModel => BatchAction::UploadModel,
            BatchPhase::RepairLane(lane) => BatchAction::CopyCanonical { lane },
            BatchPhase::ResetLane(lane) => BatchAction::ResetLane { lane },
            BatchPhase::PlanExecution => BatchAction::PlanExecution,
            BatchPhase::ClearCounters => BatchAction::ClearCounters,
            BatchPhase::OpenChunk => BatchAction::OpenChunk,
            BatchPhase::UploadTables => BatchAction::UploadTables,
            BatchPhase::Group(start) => BatchAction::LaunchGroup {
                start,
                end: self.end_of_group(start),
                whole: self.persistent,
            },
            BatchPhase::Wavefronts => BatchAction::LaunchWavefronts,
            BatchPhase::DownloadRecords => BatchAction::DownloadRecords { fast: self.persistent },
            BatchPhase::CloseLane(lane) => BatchAction::CloseLane { lane },
            BatchPhase::Collect => BatchAction::Collect,
            BatchPhase::MergeFixed => BatchAction::MergeFixed,
            BatchPhase::Snapshot => BatchAction::Snapshot {
                kind: match self.path {
                    MergePath::Device => SnapshotKind::ContextOnly,
                    _ => SnapshotKind::Full,
                },
            },
            BatchPhase::PullFixed => BatchAction::PullFixed,
            BatchPhase::Reduce => BatchAction::Reduce,
            BatchPhase::Commit => BatchAction::Commit,
            BatchPhase::Observe => BatchAction::Observe,
            BatchPhase::EmitProfile => BatchAction::EmitProfile,
            BatchPhase::ResetDocument => BatchAction::ResetDocument,
            BatchPhase::Report => BatchAction::Report,
            BatchPhase::Finished => BatchAction::Nothing,
            BatchPhase::Failed => BatchAction::Nothing,
        }
    }

    fn end_of_group(&self, start: usize) -> (r: usize)
        requires
            start < self.lane_revisions@.len(),
        ensures
            r == self.group_end(start as int),
    {
        let lanes: usize = self.lane_revisions.len();
        let size: usize = if self.lane_chunk == 0 {
            1
        } else {
            self.lane_chunk
        };
        if size < lanes - start {
            start + size
        } else {
            lanes
        }
    }

    fn lane_phase(&self, lane: usize) -> (r: BatchPhase)
        ensures
            r == self.before_lane(lane as int),
    {
        if lane >= self.lane_revisions.len() {
            BatchPhase::PlanExecution
        } else if lane_needs_repair(self.lane_revisions[lane], self.canonical_revision) {
            BatchPhase::RepairLane(lane)
        } else {
            BatchPhase::ResetLane(lane)
        }
    }

    fn hold_everywhere(&mut self, revision: u64)
        ensures
            final(self).lane_revisions@ == Seq::new(
                old(self).lane_revisions@.len(),
                |i: int| revision,
            ),
            *final(self) == (BatchCourse {
                lane_revisions: final(self).lane_revisions,
                ..*old(self)
            }),
    {
        let count: usize = self.lane_revisions.len();
        let mut list: Vec<u64> = Vec::new();
        let mut i: usize = 0;
        while i < count
            invariant
                i <= count,
                list@ =~= Seq::new(i as nat, |k: int| revision),
            decreases count - i,
        {
            list.push(revision);
            i = i + 1;
        }
        self.lane_revisions = list;
    }

    /// Takes in what came of the action of this phase.
    pub fn advance(&mut self, event: BatchEvent)
        requires
            old(self).wf(),
        ensures
            final(self).wf(),
            old(self).leads_to(event, *final(self)),
    {
        let lanes: usize = self.lane_revisions.len();
        match (self.phase, event) {
            (BatchPhase::Finished, _) => {},
            (BatchPhase::Failed, _) => {},
            (_, BatchEvent::Failed) => {
                self.phase = BatchPhase::Failed;
            },
            (BatchPhase::UploadModel, BatchEvent::Done) => {
                self.phase = self.lane_phase(0);
            },
            (BatchPhase::RepairLane(lane), BatchEvent::Done) => {
                self.phase = BatchPhase::ResetLane(lane);
            },
            (BatchPhase::ResetLane(lane), BatchEvent::Done) => {
                let next: BatchPhase = self.lane_phase(lane + 1);
                self.lane_revisions.set(lane, LANE_REVISION_IN_FLIGHT);
                self.phase = next;
            },
            (BatchPhase::PlanExecution, BatchEvent::Planned { lane_chunk, persistent }) => {
                self.lane_chunk = lane_chunk;
                self.persistent = persistent;
                self.phase = if self.profiled {
                    BatchPhase::ClearCounters
                } else {
                    BatchPhase::OpenChunk
                };
            },
            (BatchPhase::ClearCounters, BatchEvent::Done) => {
                self.phase = BatchPhase::OpenChunk;
            },
            (BatchPhase::OpenChunk, BatchEvent::Done) => {
                self.phase = BatchPhase::UploadTables;
            },
            (BatchPhase::OpenChunk, BatchEvent::StoriesDone) => {
                self.phase = BatchPhase::Collect;
            },
            (BatchPhase::UploadTables, BatchEvent::Done) => {
                self.phase = BatchPhase::Group(0);
            },
            (BatchPhase::Group(start), BatchEvent::Done) => {
                let end: usize = self.end_of_group(start);
                self.phase = if end < lanes {
                    BatchPhase::Group(end)
                } else if self.persistent {
                    BatchPhase::DownloadRecords
                } else {
                    BatchPhase::Wavefronts
                };
            },
            (BatchPhase::Wavefronts, BatchEvent::Done) => {
                self.phase = BatchPhase::DownloadRecords;
            },
            (BatchPhase::DownloadRecords, BatchEvent::Done) => {
                self.phase = BatchPhase::CloseLane(0);
            },
            (BatchPhase::CloseLane(lane), BatchEvent::Done) => {
                self.phase = if lane + 1 < lanes {
                    BatchPhase::CloseLane(lane + 1)
                } else {
                    BatchPhase::OpenChunk
                };
            },
            (BatchPhase::Collect, BatchEvent::Done) => {
                self.phase = match self.path {
                    MergePath::Device => BatchPhase::MergeFixed,
                    _ => BatchPhase::Snapshot,
                };
            },
            (BatchPhase::MergeFixed, BatchEvent::Done) => {
                self.phase = BatchPhase::Snapshot;
            },
            (BatchPhase::Snapshot, BatchEvent::Done) => {
                self.phase = match self.path {
                    MergePath::Retain => BatchPhase::Observe,
                    MergePath::Device => BatchPhase::PullFixed,
                    MergePath::Host => BatchPhase::Reduce,
                };
            },
            (BatchPhase::PullFixed, BatchEvent::Done) => {
                self.phase = BatchPhase::Reduce;
            },
            (BatchPhase::Reduce, BatchEvent::Done) => {
                self.phase = BatchPhase::Commit;
            },
            (BatchPhase::Commit, BatchEvent::Committed { revision }) => {
                self.hold_everywhere(revision);
                self.phase = BatchPhase::Observe;
            },
            (BatchPhase::Observe, BatchEvent::Done) => {
                self.phase = if self.profiled {
                    BatchPhase::EmitProfile
                } else {
                    BatchPhase::ResetDocument
                };
            },
            (BatchPhase::EmitProfile, BatchEvent::Done) => {
                self.phase = BatchPhase::ResetDocument;
            },
            (BatchPhase::ResetDocument, BatchEvent::Done) => {
                self.phase = BatchPhase::Report;
            },
            (BatchPhase::Report, BatchEvent::Done) => {
                self.phase = BatchPhase::Finished;
            },
            _ => {},
        }
    }
}

/// A batch that fails before it is committed leaves every lane that was reset marked, so that the
/// lane is repaired before it is used again.
pub proof fn law_a_failed_batch_leaves_its_lanes_marked(
    course: BatchCourse,
    after: BatchCourse,
    lane: int,
)
    requires
        course.wf(),
        course.uncommitted(),
        course.leads_to(BatchEvent::Failed, after),
        0 <= lane < course.reset_lanes(),
    ensures
        course.phase != BatchPhase::Finished ==> after.phase == BatchPhase::Failed,
        after.lane_revisions@[lane] == LANE_REVISION_IN_FLIGHT,
{
}

/// A batch whose changes are handed out is never merged here: its lanes stay marked to the end.
pub proof fn law_retained_batches_leave_their_lanes_marked(course: BatchCourse, lane: int)
    requires
        course.wf(),
        course.path == MergePath::Retain,
        course.phase == BatchPhase::Finished,
        0 <= lane < course.lane_revisions@.len(),
    ensures
        course.lane_revisions@[lane] == LANE_REVISION_IN_FLIGHT,
{
}

/// A batch that is committed leaves every lane at the revision of the merged model.
pub proof fn law_committed_batches_leave_their_lanes_current(
    course: BatchCourse,
    revision: u64,
    after: BatchCourse,
    lane: int,
)
    requires
        course.wf(),
        course.phase == BatchPhase::Commit,
        course.leads_to(BatchEvent::Committed { revision }, after),
        0 <= lane < course.lane_revisions@.len(),
    ensures
        after.phase == BatchPhase::Observe,
        after.lane_revisions@[lane] == revision,
{
}

/// The stories are done, and their changes are dealt with.
pub open spec fn after_stories(phase: BatchPhase) -> bool {
    match phase {
        BatchPhase::Collect => true,
        BatchPhase::MergeFixed => true,
        BatchPhase::Snapshot => true,
        BatchPhase::PullFixed => true,
        BatchPhase::Reduce => true,
        BatchPhase::Commit => true,
        BatchPhase::Observe => true,
        BatchPhase::EmitProfile => true,
        BatchPhase::ResetDocument => true,
        BatchPhase::Report => true,
        BatchPhase::Finished => true,
        _ => false,
    }
}

/// The changes of a batch are dealt with only where no lane has steps left, and from there no more
/// steps are taken.
pub proof fn law_the_merge_follows_the_stories(
    course: BatchCourse,
    event: BatchEvent,
    after: BatchCourse,
)
    requires
        course.leads_to(event, after),
    ensures
        after_stories(after.phase) && !after_stories(course.phase) ==> course.phase
            == BatchPhase::OpenChunk && event == BatchEvent::StoriesDone && after.phase
            == BatchPhase::Collect,
        after_stories(course.phase) ==> after_stories(after.phase) || after.phase
            == BatchPhase::Failed,
{
}

/// A model is scattered to the lanes only after the host has merged it, and the device forgets the
/// document before the report is put together.
pub proof fn law_commits_follow_their_merge(
    course: BatchCourse,
    event: BatchEvent,
    after: BatchCourse,
)
    requires
        course.wf(),
        course.leads_to(event, after),
        course.phase != after.phase,
    ensures
        after.phase == BatchPhase::Commit ==> course.phase == BatchPhase::Reduce && course.path
            != MergePath::Retain,
        after.phase == BatchPhase::Report ==> course.phase == BatchPhase::ResetDocument,
        after.phase == BatchPhase::Finished ==> course.phase == BatchPhase::Report,
{
}

/// The groups that are launched are those that the plan divides the lanes into.
pub proof fn law_groups_are_those_of_the_plan(course: BatchCourse, start: int)
    requires
        0 <= start < course.lane_revisions@.len() <= usize::MAX,
    ensures
        ({
            let lanes = course.lane_revisions@.len() as int;
            let size = course.group_size();
            let end = course.group_end(start);
            groups_from(start, lanes, size) == seq![
                LaneGroup { start: start as usize, count: (end - start) as usize },
            ] + groups_from(end, lanes, size)
        }),
{
}

/// What came of opening the next chunk.
pub fn chunk_event(opened: &LeoResult<Option<BatchChunk>>) -> (r: BatchEvent)
    ensures
        r == match opened {
            Ok(Some(_)) => BatchEvent::Done,
            Ok(None) => BatchEvent::StoriesDone,
            Err(_) => BatchEvent::Failed,
        },
{
    match opened {
        Ok(Some(_)) => BatchEvent::Done,
        Ok(None) => BatchEvent::StoriesDone,
        Err(_) => BatchEvent::Failed,
    }
}

} // verus!
