//! The derivatives and bounded changes of learning.

use leo_core::arithmetic::{Numerics, Operations};
use leo_core::learning::{
    analog_rank_surrogate, bounded_delta, branch_jacobian, decay_for_elapsed,
    inhibitory_homeostasis_delta,
};
use leo_core::metrics::WideScalar;
use leo_core::model::{
    BRANCH_CONTEXT_GATE, BRANCH_EXCITATORY, BRANCH_INHIBITORY, BRANCH_TEMPORAL,
};
use leo_core::scalar::Scalar;

fn s(value: f32) -> Scalar {
    Scalar { bits: value.to_bits() }
}

fn f(value: Scalar) -> f32 {
    f32::from_bits(value.bits)
}

fn wide(value: f64) -> WideScalar {
    WideScalar { bits: value.to_bits() }
}

fn g(value: WideScalar) -> f64 {
    f64::from_bits(value.bits)
}

fn single() -> impl Numerics {
    Operations {
        plus: |(a, b): (Scalar, Scalar)| s(f(a) + f(b)),
        minus: |(a, b): (Scalar, Scalar)| s(f(a) - f(b)),
        times: |(a, b): (Scalar, Scalar)| s(f(a) * f(b)),
        over: |(a, b): (Scalar, Scalar)| s(f(a) / f(b)),
        raised: |(a, n): (Scalar, u32)| s(f(a).powi(n as i32)),
        exp: |a: Scalar| s(f(a).exp()),
        ln: |a: Scalar| s(f(a).ln()),
        of_count: |n: u64| s(n as f32),
        wide_plus: |(sum, a): (WideScalar, Scalar)| wide(g(sum) + f(a) as f64),
        wide_over: |(sum, n): (WideScalar, u64)| s((g(sum) / n as f64) as f32),
        up: |a: Scalar| f(a).ceil() as usize,
        wide_add: |(a, b): (WideScalar, WideScalar)| wide(g(a) + g(b)),
        wide_minus: |(a, b): (WideScalar, WideScalar)| wide(g(a) - g(b)),
        wide_divide: |(a, b): (WideScalar, WideScalar)| wide(g(a) / g(b)),
        wide_count: |n: u64| wide(n as f64),
        consolidate: |(phase, _ends): (usize, bool)| (Scalar::one(), phase),
    }
}

#[test]
fn analog_surrogate_preserves_selected_unsaturated_gradient() {
    let ops = single();
    let slope = |margin: f32| {
        f(analog_rank_surrogate(&ops, s(margin), s(0.4), true, s(0.25), s(0.1)))
    };
    assert!((slope(0.5) - 1.06).abs() <= 1.0e-6);
    assert_eq!(slope(1.0), 0.0);
}

#[test]
fn branch_jacobian_matches_integrated_branch_semantics() {
    let ops = single();
    let jacobian = |branch: u8| f(branch_jacobian(&ops, branch, s(1.0), s(0.5), s(0.5)));
    assert_eq!(jacobian(BRANCH_EXCITATORY), 1.0);
    assert_eq!(jacobian(BRANCH_TEMPORAL), 0.5);
    assert_eq!(jacobian(BRANCH_INHIBITORY), 1.0);
    assert_eq!(jacobian(BRANCH_CONTEXT_GATE), 0.5);
}

#[test]
fn inhibitory_homeostasis_pushes_in_the_correct_direction() {
    let ops = single();
    let delta = |activity: f32| {
        f(inhibitory_homeostasis_delta(
            &ops,
            s(1.0),
            s(activity),
            s(0.02),
            s(0.01),
            s(1.0),
            s(0.1),
        ))
    };
    assert!(delta(0.10) < 0.0);
    assert!(delta(0.00) > 0.0);
}

#[test]
fn update_clipping_is_symmetric() {
    assert_eq!(f(bounded_delta(s(1.0), s(0.1))), 0.1);
    assert_eq!(f(bounded_delta(s(-1.0), s(0.1))), -0.1);
    assert_eq!(f(bounded_delta(s(0.05), s(0.1))), 0.05);
}

#[test]
fn decay_is_a_power_of_the_elapsed_ticks() {
    let ops = single();
    assert_eq!(f(decay_for_elapsed(&ops, s(0.5), 0)), 1.0);
    assert_eq!(f(decay_for_elapsed(&ops, s(0.5), 1)), 0.5);
    assert_eq!(f(decay_for_elapsed(&ops, s(0.5), 3)), 0.125);
}
