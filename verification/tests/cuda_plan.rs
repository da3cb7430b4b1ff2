//! Planning and tuning of GPU execution.

use leo_core::cuda_plan::{
    build_candidates, heuristic_lane_chunk, heuristic_plan, CudaExecutionTuner, CudaTuningLimits,
    FUSED_WAVEFRONT_THREADS,
};

fn limits() -> CudaTuningLimits {
    CudaTuningLimits {
        multiprocessors: 80,
        max_threads_per_sm: 2048,
        max_lanes: 128,
        fused_blocks_128: 320,
        fused_blocks_256: 160,
        fused_blocks_512: 80,
    }
}

#[test]
fn heuristic_is_bounded_by_logical_capacity() {
    assert_eq!(heuristic_lane_chunk(80, 64), 64);
    assert_eq!(heuristic_lane_chunk(4, 128), 16);
    assert_eq!(heuristic_lane_chunk(1, 8), 8);
}

#[test]
fn plan_never_changes_logical_lane_count() {
    let mut tuner = CudaExecutionTuner::new("test-no-cache".to_string(), limits());
    let plan = tuner.plan_for(37, None);
    assert!((1..=37).contains(&plan.physical_lane_chunk));
}

#[test]
fn tuning_searches_multiple_launch_dimensions() {
    let baseline = heuristic_plan(limits(), 64);
    let candidates = build_candidates(limits(), 64, baseline);
    assert!(candidates
        .iter()
        .any(|plan| plan.physical_lane_chunk != baseline.physical_lane_chunk));
    assert!(candidates
        .iter()
        .any(|plan| plan.sparse_apply_threads != baseline.sparse_apply_threads));
    assert!(candidates
        .iter()
        .any(|plan| plan.sparse_apply_blocks != baseline.sparse_apply_blocks));
    assert!(candidates
        .iter()
        .any(|plan| plan.fused_wavefront_blocks != baseline.fused_wavefront_blocks));
    assert!(candidates
        .iter()
        .all(|plan| plan.fused_wavefront_threads == FUSED_WAVEFRONT_THREADS));
}

#[test]
fn partial_batches_do_not_share_a_profile_identity_with_full_batches() {
    let mut tuner = CudaExecutionTuner::new("test-lane-identity".to_string(), limits());
    let partial = tuner.plan_for(7, None);
    let full = tuner.plan_for(64, None);
    assert!(partial.physical_lane_chunk <= 7);
    assert!(full.physical_lane_chunk <= 64);
    assert_eq!(tuner.active_logical_lanes, 64);
}
