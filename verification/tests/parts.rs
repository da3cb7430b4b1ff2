//! The parts of the library, each on its own.

use leo_core::context::{context_key, keeps_context, remember};
use leo_core::delay_ring::{DelayRing, Event};
use leo_core::error::{LeoError, LeoErrorKind};
use leo_core::host_sync::scatter;
use leo_core::host_view::HostActivity;
use leo_core::marks::{accumulate_indices, MarkList};
use leo_core::metrics::{TrainingStatistics, WideScalar};
use leo_core::permission::Permission;
use leo_core::scalar::Scalar;
use leo_core::selection::{rotated_tie_key, SelectionShape};
use leo_core::semantics::SemanticsContract;
use leo_core::text::{equals_lowered, trim, with_numbers};
use leo_core::Config;

fn s(value: f32) -> Scalar {
    Scalar { bits: value.to_bits() }
}

fn f(value: Scalar) -> f32 {
    f32::from_bits(value.bits)
}

#[test]
fn scalars_compare_as_their_values() {
    let values = [f32::NEG_INFINITY, -1.5, -0.0, 0.0, 1.0e-40, 0.25, 1.0, f32::INFINITY, f32::NAN];
    for a in values {
        for b in values {
            assert_eq!(s(a).lt(s(b)), a < b);
            assert_eq!(s(a).le(s(b)), a <= b);
            assert_eq!(s(a).total_order() <= s(b).total_order(), a.total_cmp(&b).is_le());
            assert_eq!(s(a).ne_value(s(b)), a != b);
        }
        assert_eq!(s(a).is_finite(), a.is_finite());
        assert_eq!(s(a).negated().bits, (-a).to_bits());
        assert_eq!(s(a).abs().bits, a.abs().to_bits());
    }
    assert_eq!(f(s(3.0).clamp_to(s(0.0), s(1.0))), 1.0);
    assert_eq!(f(s(-3.0).clamp_to(s(0.0), s(1.0))), 0.0);
}

#[test]
fn errors_carry_their_kind_and_message() {
    let made = [
        (LeoError::usage("a".to_owned()), LeoErrorKind::Usage),
        (LeoError::configuration("a".to_owned()), LeoErrorKind::Configuration),
        (LeoError::dataset("a".to_owned()), LeoErrorKind::Dataset),
        (LeoError::checkpoint_corrupt("a".to_owned()), LeoErrorKind::CheckpointCorrupt),
        (LeoError::checkpoint_incompatible("a".to_owned()), LeoErrorKind::CheckpointIncompatible),
        (LeoError::backend("a".to_owned()), LeoErrorKind::Backend),
        (LeoError::cuda("a".to_owned()), LeoErrorKind::Cuda),
        (LeoError::numerical("a".to_owned()), LeoErrorKind::Numerical),
        (LeoError::internal("a".to_owned()), LeoErrorKind::Internal),
        (LeoError::new(LeoErrorKind::Io, "a".to_owned()), LeoErrorKind::Io),
    ];
    for (error, kind) in made {
        assert_eq!(error.kind(), kind);
        assert_eq!(error.message(), "a");
    }
}

#[test]
fn permissions_parse_and_have_their_strength() {
    let config = Config::default();
    assert_eq!(Permission::parse("Frozen").unwrap(), Permission::Frozen);
    assert_eq!(f(Permission::parse("provisional").unwrap().strength(&config)), 0.2);
    assert_eq!(f(Permission::parse("TRAINING").unwrap().strength(&config)), 1.0);
    assert_eq!(f(Permission::parse("verified").unwrap().strength(&config)), 1.0);
    assert_eq!(f(Permission::Frozen.strength(&config)), 0.0);
    assert_eq!(Permission::parse("free").unwrap_err().message(), "unknown permission: free");
}

#[test]
fn semantics_name_their_versions() {
    assert_eq!(SemanticsContract::current().as_array(), [1, 1, 1, 1, 1]);
}

#[test]
fn text_helpers_write_numerals_and_ignore_case() {
    assert_eq!(with_numbers("a", 0, "b", 18_446_744_073_709_551_615, "c"), "a0b18446744073709551615c");
    assert_eq!(trim(" \t x y \n"), "x y");
    assert!(equals_lowered("AuTo", "auto"));
    assert!(!equals_lowered("autos", "auto"));
}

#[test]
fn fingerprints_follow_the_last_symbols() {
    let key = |history: &[u32], order: usize| context_key(&history.to_vec(), order);
    assert_eq!(key(&[1, 2, 3], 2), key(&[9, 2, 3], 2));
    assert_ne!(key(&[1, 2, 3], 2), key(&[1, 2, 3], 3));
    assert_ne!(key(&[2, 3], 2), key(&[3, 2], 2));
    let mut expected = 0xcbf2_9ce4_8422_2325u64 ^ 1;
    for byte in 65u32.to_le_bytes() {
        expected = (expected ^ byte as u64).wrapping_mul(0x100_0000_01b3);
    }
    assert_eq!(key(&[65], 1), expected);
}

#[test]
fn histories_forget_their_oldest_symbol() {
    let mut history: Vec<u32> = Vec::new();
    for symbol in 1..=5 {
        remember(&mut history, 3, symbol);
    }
    assert_eq!(history, vec![3, 4, 5]);
}

#[test]
fn dropout_keeps_what_lies_at_or_above_the_rate() {
    assert!(keeps_context(0, s(0.0)));
    assert!(!keeps_context(0, s(0.5)));
    assert!(keeps_context(u64::MAX >> 40, s(0.5)));
}

#[test]
fn events_come_back_after_their_delay() {
    let event = |slot: u32| Event {
        target_neuron: 1,
        target_branch: 0,
        value: s(1.0),
        synapse_slot: slot,
        presynaptic_activation: s(0.5),
    };
    let mut ring = DelayRing::new(8);
    ring.schedule(5, 2, event(10));
    ring.schedule(5, 8, event(11));
    ring.schedule(6, 1, event(12));
    assert!(ring.take_due(6).is_empty());
    let due: Vec<u32> = ring.take_due(7).iter().map(|e| e.synapse_slot).collect();
    assert_eq!(due, vec![10, 12]);
    assert!(ring.take_due(7).is_empty());
    assert_eq!(ring.take_due(13).len(), 1);
    ring.schedule(1, 1, event(13));
    ring.clear();
    assert!(ring.take_due(2).is_empty());
}

#[test]
fn marked_lists_hold_each_index_once() {
    let mut list = MarkList::new(4);
    assert!(list.add(2));
    assert!(!list.add(2));
    list.add_all(&vec![0, 2, 3]);
    assert_eq!(list.list, vec![2, 0, 3]);
    assert_eq!(list.remove_at(0), 2);
    assert_eq!(list.list, vec![3, 0]);
    assert!(!list.mark[2]);
    list.clear();
    assert!(list.list.is_empty());
    let mut marks = vec![false; 3];
    let mut changed: Vec<usize> = Vec::new();
    accumulate_indices(&vec![1, 1, 2], &mut marks, &mut changed);
    assert_eq!(changed, vec![1, 2]);
}

#[test]
fn the_strongest_neurons_win_their_blocks() {
    let shape = SelectionShape {
        neuron_count: 8,
        block_count: 2,
        neurons_per_block: 4,
        max_active_per_block: 2,
        max_active_global: 3,
        tick: 0,
    };
    let touched: Vec<usize> = (0..8).collect();
    let ready = vec![true, true, true, true, true, true, true, false];
    let activation: Vec<Scalar> =
        [0.9, 0.5, 0.7, 0.0, 0.2, 0.3, 0.1, 1.0].iter().map(|v| s(*v)).collect();
    let selection = shape.select(&touched, &ready, &activation);
    let mut winners: Vec<usize> = selection.active.iter().map(|c| c.neuron).collect();
    winners.sort();
    assert_eq!(winners, vec![0, 2, 5]);
    assert_eq!(selection.suprathreshold_neurons, 6);
    assert_eq!(selection.block_selected_neurons, 4);
    assert_eq!(selection.global_cap_clipped_neurons, 1);
    assert_eq!(selection.cutoff_neuron, Some(4));
    assert_eq!(f(selection.block_cutoff[0]), 0.5);
    assert_eq!(f(selection.block_cutoff[1]), 0.1);
}

#[test]
fn ties_rotate_with_the_tick() {
    assert_eq!(rotated_tie_key(3, 1, 8), 2);
    assert_eq!(rotated_tie_key(0, 1, 8), 7);
}

#[test]
fn the_host_sees_the_activity_of_the_device() {
    let mut activity = HostActivity::new(5);
    activity.refresh(&vec![3, 1], &vec![s(0.5), s(0.25)]);
    assert_eq!(f(activity.activation(3)), 0.5);
    assert_eq!(f(activity.activation(1)), 0.25);
    assert_eq!(f(activity.activation(0)), 0.0);
    activity.refresh(&vec![0], &vec![s(1.0)]);
    assert_eq!(f(activity.activation(3)), 0.0);
    activity.clear();
    assert_eq!(f(activity.activation(0)), 0.0);
    assert_eq!(f(activity.activation(99)), 0.0);
}

#[test]
fn scattered_values_land_in_their_places() {
    let mut target = vec![1u32, 2, 3, 4];
    scatter(&mut target, &vec![3, 0], &vec![40, 10]);
    assert_eq!(target, vec![10, 2, 3, 40]);
}

#[test]
fn statistics_have_their_means() {
    let wide = |value: f64| WideScalar { bits: value.to_bits() };
    let over = |(sum, n): (WideScalar, u64)| wide(f64::from_bits(sum.bits) / n as f64);
    let mut statistics = TrainingStatistics::default();
    assert_eq!(statistics.mean_training_loss(&over).bits, 0);
    statistics.record_step(65, Some(wide(3.0)), 4, 9);
    statistics.record_step(256, None, 2, 1);
    statistics.record_story();
    statistics.record_rejection();
    assert_eq!(statistics.processed_bytes, 1);
    assert_eq!(statistics.training_targets, 1);
    assert_eq!(statistics.active_neurons_peak, 4);
    assert_eq!(statistics.synaptic_events, 10);
    assert_eq!(statistics.persistent_ticks, 2);
    assert_eq!(f64::from_bits(statistics.mean_training_loss(&over).bits), 3.0);
    let mean = statistics
        .mean_active_neurons_per_tick(&|(sum, n): (u64, u64)| wide(sum as f64 / n as f64));
    assert_eq!(f64::from_bits(mean.bits), 3.0);
    let bits = statistics.bits_per_byte(&over, &|mean: WideScalar| {
        wide(f64::from_bits(mean.bits) / std::f64::consts::LN_2)
    });
    assert!((f64::from_bits(bits.bits) - 3.0 / std::f64::consts::LN_2).abs() < 1.0e-12);
}
