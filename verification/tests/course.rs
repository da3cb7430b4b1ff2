//! The course of a story batch.

use leo_core::batch_course::{chunk_event, BatchAction, BatchCourse, BatchEvent, BatchPhase};
use leo_core::error::LeoError;
use leo_core::snapshot::SnapshotKind;
use leo_core::story_batch::{lane_groups, BatchChunk, MergePath};

const IN_FLIGHT: u64 = u64::MAX;

fn run(course: &mut BatchCourse, chunks: usize, persistent: bool) -> Vec<BatchAction> {
    let mut list = Vec::new();
    let mut opened = 0;
    loop {
        let action = course.action();
        if action == BatchAction::Nothing {
            return list;
        }
        list.push(action);
        assert!(list.len() < 1000);
        course.advance(match action {
            BatchAction::PlanExecution => BatchEvent::Planned { lane_chunk: 2, persistent },
            BatchAction::OpenChunk if opened == chunks => BatchEvent::StoriesDone,
            BatchAction::OpenChunk => {
                opened += 1;
                BatchEvent::Done
            }
            BatchAction::Commit => BatchEvent::Committed { revision: 12 },
            _ => BatchEvent::Done,
        });
    }
}

#[test]
fn a_batch_is_repaired_run_merged_and_committed_in_order() {
    let mut course = BatchCourse::new(MergePath::Device, 7, vec![7, IN_FLIGHT, 6], false);
    let list = run(&mut course, 1, true);
    assert_eq!(
        list,
        vec![
            BatchAction::UploadModel,
            BatchAction::ResetLane { lane: 0 },
            BatchAction::CopyCanonical { lane: 1 },
            BatchAction::ResetLane { lane: 1 },
            BatchAction::CopyCanonical { lane: 2 },
            BatchAction::ResetLane { lane: 2 },
            BatchAction::PlanExecution,
            BatchAction::OpenChunk,
            BatchAction::UploadTables,
            BatchAction::LaunchGroup { start: 0, end: 2, whole: true },
            BatchAction::LaunchGroup { start: 2, end: 3, whole: true },
            BatchAction::DownloadRecords { fast: true },
            BatchAction::CloseLane { lane: 0 },
            BatchAction::CloseLane { lane: 1 },
            BatchAction::CloseLane { lane: 2 },
            BatchAction::OpenChunk,
            BatchAction::Collect,
            BatchAction::MergeFixed,
            BatchAction::Snapshot { kind: SnapshotKind::ContextOnly },
            BatchAction::PullFixed,
            BatchAction::Reduce,
            BatchAction::Commit,
            BatchAction::Observe,
            BatchAction::ResetDocument,
            BatchAction::Report,
        ]
    );
    assert_eq!(course.phase, BatchPhase::Finished);
    assert_eq!(course.lane_revisions, vec![12, 12, 12]);
}

#[test]
fn retained_changes_are_not_merged() {
    let mut course = BatchCourse::new(MergePath::Retain, 7, vec![7, 7], true);
    let list = run(&mut course, 1, false);
    assert_eq!(
        list,
        vec![
            BatchAction::UploadModel,
            BatchAction::ResetLane { lane: 0 },
            BatchAction::ResetLane { lane: 1 },
            BatchAction::PlanExecution,
            BatchAction::ClearCounters,
            BatchAction::OpenChunk,
            BatchAction::UploadTables,
            BatchAction::LaunchGroup { start: 0, end: 2, whole: false },
            BatchAction::LaunchWavefronts,
            BatchAction::DownloadRecords { fast: false },
            BatchAction::CloseLane { lane: 0 },
            BatchAction::CloseLane { lane: 1 },
            BatchAction::OpenChunk,
            BatchAction::Collect,
            BatchAction::Snapshot { kind: SnapshotKind::Full },
            BatchAction::Observe,
            BatchAction::EmitProfile,
            BatchAction::ResetDocument,
            BatchAction::Report,
        ]
    );
    assert_eq!(course.lane_revisions, vec![IN_FLIGHT, IN_FLIGHT]);
}

#[test]
fn a_host_merge_takes_everything_from_the_lanes() {
    let mut course = BatchCourse::new(MergePath::Host, 7, vec![7], false);
    let list = run(&mut course, 0, false);
    assert_eq!(
        list[3..],
        [
            BatchAction::OpenChunk,
            BatchAction::Collect,
            BatchAction::Snapshot { kind: SnapshotKind::Full },
            BatchAction::Reduce,
            BatchAction::Commit,
            BatchAction::Observe,
            BatchAction::ResetDocument,
            BatchAction::Report,
        ]
    );
    assert_eq!(course.lane_revisions, vec![12]);
}

#[test]
fn a_failure_ends_the_batch_and_leaves_its_lanes_to_be_repaired() {
    let mut course = BatchCourse::new(MergePath::Host, 7, vec![7, 7], false);
    course.advance(BatchEvent::Done);
    course.advance(BatchEvent::Done);
    assert_eq!(course.action(), BatchAction::ResetLane { lane: 1 });
    course.advance(BatchEvent::StoriesDone);
    assert_eq!(course.action(), BatchAction::ResetLane { lane: 1 });
    course.advance(BatchEvent::Failed);
    assert_eq!(course.phase, BatchPhase::Failed);
    assert_eq!(course.lane_revisions, vec![IN_FLIGHT, 7]);
    course.advance(BatchEvent::Done);
    assert_eq!(course.action(), BatchAction::Nothing);
    let held = course.lane_revisions;
    let mut next = BatchCourse::new(MergePath::Host, 7, held, false);
    next.advance(BatchEvent::Done);
    assert_eq!(next.action(), BatchAction::CopyCanonical { lane: 0 });
}

#[test]
fn chunks_are_opened_until_the_stories_are_done() {
    let chunk = BatchChunk {
        lanes: Vec::new(),
        step_counts: Vec::new(),
        base_ticks: Vec::new(),
        max_steps: 0,
        h2d_bytes: 0,
    };
    assert_eq!(chunk_event(&Ok(Some(chunk))), BatchEvent::Done);
    assert_eq!(chunk_event(&Ok(None)), BatchEvent::StoriesDone);
    let refused = LeoError::cuda("invalid input symbol: 257".to_owned());
    assert_eq!(chunk_event(&Err(refused)), BatchEvent::Failed);
}

#[test]
fn launched_groups_are_those_of_the_plan() {
    let mut course = BatchCourse::new(MergePath::Host, 7, vec![7; 5], false);
    let launched: Vec<(usize, usize)> = run(&mut course, 1, false)
        .iter()
        .filter_map(|action| match action {
            BatchAction::LaunchGroup { start, end, .. } => Some((*start, *end - *start)),
            _ => None,
        })
        .collect();
    let planned: Vec<(usize, usize)> =
        lane_groups(5, 2).iter().map(|group| (group.start, group.count)).collect();
    assert_eq!(launched, planned);
    assert_eq!(planned, vec![(0, 2), (2, 2), (4, 1)]);
}
