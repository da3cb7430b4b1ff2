//! Arithmetic on single-precision numbers, as the runtime is handed it.
//!
//! What the hardware computes is a function of its operands; the runtime needs to know no more
//! of it. A `Numerics` names these functions, and every contract speaks of them.

use crate::metrics::WideScalar;
use crate::scalar::{Scalar, SIGN_BIT};
use vstd::prelude::*;

verus! {

/// The arithmetic of a runtime.
pub trait Numerics: Sized {
    /// Every operation can be asked for, and gives the same result each time.
    spec fn ready(&self) -> bool;

    spec fn sum(&self, a: Scalar, b: Scalar) -> Scalar;

    spec fn difference(&self, a: Scalar, b: Scalar) -> Scalar;

    spec fn product(&self, a: Scalar, b: Scalar) -> Scalar;

    spec fn quotient(&self, a: Scalar, b: Scalar) -> Scalar;

    /// A number times itself, a number of times.
    spec fn power(&self, base: Scalar, exponent: u32) -> Scalar;

    /// The exponential function.
    spec fn exponential(&self, a: Scalar) -> Scalar;

    /// The natural logarithm.
    spec fn logarithm(&self, a: Scalar) -> Scalar;

    /// A count as a number.
    spec fn number(&self, n: u64) -> Scalar;

    /// A sum in double precision, with a number added.
    spec fn wide_sum(&self, sum: WideScalar, a: Scalar) -> WideScalar;

    /// The mean of a number of numbers, from their sum in double precision.
    spec fn wide_mean(&self, sum: WideScalar, n: u64) -> Scalar;

    /// The smallest count that is not below a number.
    spec fn ceiling(&self, a: Scalar) -> usize;

    /// The sum of two numbers in double precision.
    spec fn wide_total(&self, a: WideScalar, b: WideScalar) -> WideScalar;

    /// The difference of two numbers in double precision.
    spec fn wide_difference(&self, a: WideScalar, b: WideScalar) -> WideScalar;

    /// The quotient of two numbers in double precision.
    spec fn wide_quotient(&self, a: WideScalar, b: WideScalar) -> WideScalar;

    /// A count as a number in double precision.
    spec fn wide_number(&self, n: u64) -> WideScalar;

    /// How much of the credit that a step assigns is consolidated, and the phase of the schedule
    /// after it, from the phase before it and whether the step ends a document.
    spec fn consolidation(&self, phase: usize, ends: bool) -> (Scalar, usize);

    fn plus(&self, a: Scalar, b: Scalar) -> (r: Scalar)
        requires
            self.ready(),
        ensures
            r == self.sum(a, b),
    ;

    fn minus(&self, a: Scalar, b: Scalar) -> (r: Scalar)
        requires
            self.ready(),
        ensures
            r == self.difference(a, b),
    ;

    fn times(&self, a: Scalar, b: Scalar) -> (r: Scalar)
        requires
            self.ready(),
        ensures
            r == self.product(a, b),
    ;

    fn over(&self, a: Scalar, b: Scalar) -> (r: Scalar)
        requires
            self.ready(),
        ensures
            r == self.quotient(a, b),
    ;

    fn raised(&self, base: Scalar, exponent: u32) -> (r: Scalar)
        requires
            self.ready(),
        ensures
            r == self.power(base, exponent),
    ;

    fn exp(&self, a: Scalar) -> (r: Scalar)
        requires
            self.ready(),
        ensures
            r == self.exponential(a),
    ;

    fn ln(&self, a: Scalar) -> (r: Scalar)
        requires
            self.ready(),
        ensures
            r == self.logarithm(a),
    ;

    fn of_count(&self, n: u64) -> (r: Scalar)
        requires
            self.ready(),
        ensures
            r == self.number(n),
    ;

    fn wide_plus(&self, sum: WideScalar, a: Scalar) -> (r: WideScalar)
        requires
            self.ready(),
        ensures
            r == self.wide_sum(sum, a),
    ;

    fn wide_over(&self, sum: WideScalar, n: u64) -> (r: Scalar)
        requires
            self.ready(),
        ensures
            r == self.wide_mean(sum, n),
    ;

    fn up(&self, a: Scalar) -> (r: usize)
        requires
            self.ready(),
        ensures
            r == self.ceiling(a),
    ;

    fn wide_add(&self, a: WideScalar, b: WideScalar) -> (r: WideScalar)
        requires
            self.ready(),
        ensures
            r == self.wide_total(a, b),
    ;

    fn wide_minus(&self, a: WideScalar, b: WideScalar) -> (r: WideScalar)
        requires
            self.ready(),
        ensures
            r == self.wide_difference(a, b),
    ;

    fn wide_divide(&self, a: WideScalar, b: WideScalar) -> (r: WideScalar)
        requires
            self.ready(),
        ensures
            r == self.wide_quotient(a, b),
    ;

    fn wide_count(&self, n: u64) -> (r: WideScalar)
        requires
            self.ready(),
        ensures
            r == self.wide_number(n),
    ;

    fn consolidate(&self, phase: usize, ends: bool) -> (r: (Scalar, usize))
        requires
            self.ready(),
        ensures
            r == self.consolidation(phase, ends),
    ;
}

/// The operation can be asked for on any operands and gives one result for each.
pub open spec fn is_operation<A, R, F: Fn(A) -> R>(f: F) -> bool {
    &&& forall|a: A| #[trigger] call_requires(f, (a,))
    &&& forall|a: A, r: R, s: R|
        #[trigger] call_ensures(f, (a,), r) && #[trigger] call_ensures(f, (a,), s) ==> r == s
}

/// What an operation gives.
pub open spec fn given<A, R, F: Fn(A) -> R>(f: F, a: A) -> R {
    choose|r: R| call_ensures(f, (a,), r)
}

fn ask<A, R, F: Fn(A) -> R>(f: &F, a: A) -> (r: R)
    requires
        is_operation::<A, R, F>(*f),
    ensures
        r == given::<A, R, F>(*f, a),
{
    assert(call_requires(*f, (a,)));
    let r: R = f(a);
    assert(call_ensures(*f, (a,), r));
    r
}

/// An arithmetic made of functions.
pub struct Operations<
    P: Fn((Scalar, Scalar)) -> Scalar,
    M: Fn((Scalar, Scalar)) -> Scalar,
    T: Fn((Scalar, Scalar)) -> Scalar,
    O: Fn((Scalar, Scalar)) -> Scalar,
    W: Fn((Scalar, u32)) -> Scalar,
    E: Fn(Scalar) -> Scalar,
    L: Fn(Scalar) -> Scalar,
    N: Fn(u64) -> Scalar,
    S: Fn((WideScalar, Scalar)) -> WideScalar,
    A: Fn((WideScalar, u64)) -> Scalar,
    U: Fn(Scalar) -> usize,
    D: Fn((WideScalar, WideScalar)) -> WideScalar,
    G: Fn((WideScalar, WideScalar)) -> WideScalar,
    Q: Fn((WideScalar, WideScalar)) -> WideScalar,
    K: Fn(u64) -> WideScalar,
    C: Fn((usize, bool)) -> (Scalar, usize),
> {
    pub plus: P,
    pub minus: M,
    pub times: T,
    pub over: O,
    pub raised: W,
    pub exp: E,
    pub ln: L,
    pub of_count: N,
    pub wide_plus: S,
    pub wide_over: A,
    pub up: U,
    pub wide_add: D,
    pub wide_minus: G,
    pub wide_divide: Q,
    pub wide_count: K,
    pub consolidate: C,
}

impl<
    P: Fn((Scalar, Scalar)) -> Scalar,
    M: Fn((Scalar, Scalar)) -> Scalar,
    T: Fn((Scalar, Scalar)) -> Scalar,
    O: Fn((Scalar, Scalar)) -> Scalar,
    W: Fn((Scalar, u32)) -> Scalar,
    E: Fn(Scalar) -> Scalar,
    L: Fn(Scalar) -> Scalar,
    N: Fn(u64) -> Scalar,
    S: Fn((WideScalar, Scalar)) -> WideScalar,
    A: Fn((WideScalar, u64)) -> Scalar,
    U: Fn(Scalar) -> usize,
    D: Fn((WideScalar, WideScalar)) -> WideScalar,
    G: Fn((WideScalar, WideScalar)) -> WideScalar,
    Q: Fn((WideScalar, WideScalar)) -> WideScalar,
    K: Fn(u64) -> WideScalar,
    C: Fn((usize, bool)) -> (Scalar, usize),
> Numerics for Operations<P, M, T, O, W, E, L, N, S, A, U, D, G, Q, K, C> {
    open spec fn ready(&self) -> bool {
        &&& is_operation::<(Scalar, Scalar), Scalar, P>(self.plus)
        &&& is_operation::<(Scalar, Scalar), Scalar, M>(self.minus)
        &&& is_operation::<(Scalar, Scalar), Scalar, T>(self.times)
        &&& is_operation::<(Scalar, Scalar), Scalar, O>(self.over)
        &&& is_operation::<(Scalar, u32), Scalar, W>(self.raised)
        &&& is_operation::<Scalar, Scalar, E>(self.exp)
        &&& is_operation::<Scalar, Scalar, L>(self.ln)
        &&& is_operation::<u64, Scalar, N>(self.of_count)
        &&& is_operation::<(WideScalar, Scalar), WideScalar, S>(self.wide_plus)
        &&& is_operation::<(WideScalar, u64), Scalar, A>(self.wide_over)
        &&& is_operation::<Scalar, usize, U>(self.up)
        &&& is_operation::<(WideScalar, WideScalar), WideScalar, D>(self.wide_add)
        &&& is_operation::<(WideScalar, WideScalar), WideScalar, G>(self.wide_minus)
        &&& is_operation::<(WideScalar, WideScalar), WideScalar, Q>(self.wide_divide)
        &&& is_operation::<u64, WideScalar, K>(self.wide_count)
        &&& is_operation::<(usize, bool), (Scalar, usize), C>(self.consolidate)
    }

    open spec fn sum(&self, a: Scalar, b: Scalar) -> Scalar {
        given::<(Scalar, Scalar), Scalar, P>(self.plus, (a, b))
    }

    open spec fn difference(&self, a: Scalar, b: Scalar) -> Scalar {
        given::<(Scalar, Scalar), Scalar, M>(self.minus, (a, b))
    }

    open spec fn product(&self, a: Scalar, b: Scalar) -> Scalar {
        given::<(Scalar, Scalar), Scalar, T>(self.times, (a, b))
    }

    open spec fn quotient(&self, a: Scalar, b: Scalar) -> Scalar {
        given::<(Scalar, Scalar), Scalar, O>(self.over, (a, b))
    }

    open spec fn power(&self, base: Scalar, exponent: u32) -> Scalar {
        given::<(Scalar, u32), Scalar, W>(self.raised, (base, exponent))
    }

    open spec fn exponential(&self, a: Scalar) -> Scalar {
        given::<Scalar, Scalar, E>(self.exp, a)
    }

    open spec fn logarithm(&self, a: Scalar) -> Scalar {
        given::<Scalar, Scalar, L>(self.ln, a)
    }

    open spec fn number(&self, n: u64) -> Scalar {
        given::<u64, Scalar, N>(self.of_count, n)
    }

    open spec fn wide_sum(&self, sum: WideScalar, a: Scalar) -> WideScalar {
        given::<(WideScalar, Scalar), WideScalar, S>(self.wide_plus, (sum, a))
    }

    open spec fn wide_mean(&self, sum: WideScalar, n: u64) -> Scalar {
        given::<(WideScalar, u64), Scalar, A>(self.wide_over, (sum, n))
    }

    open spec fn ceiling(&self, a: Scalar) -> usize {
        given::<Scalar, usize, U>(self.up, a)
    }

    open spec fn wide_total(&self, a: WideScalar, b: WideScalar) -> WideScalar {
        given::<(WideScalar, WideScalar), WideScalar, D>(self.wide_add, (a, b))
    }

    open spec fn wide_difference(&self, a: WideScalar, b: WideScalar) -> WideScalar {
        given::<(WideScalar, WideScalar), WideScalar, G>(self.wide_minus, (a, b))
    }

    open spec fn wide_quotient(&self, a: WideScalar, b: WideScalar) -> WideScalar {
        given::<(WideScalar, WideScalar), WideScalar, Q>(self.wide_divide, (a, b))
    }

    open spec fn wide_number(&self, n: u64) -> WideScalar {
        given::<u64, WideScalar, K>(self.wide_count, n)
    }

    open spec fn consolidation(&self, phase: usize, ends: bool) -> (Scalar, usize) {
        given::<(usize, bool), (Scalar, usize), C>(self.consolidate, (phase, ends))
    }

    fn plus(&self, a: Scalar, b: Scalar) -> (r: Scalar) {
        ask(&self.plus, (a, b))
    }

    fn minus(&self, a: Scalar, b: Scalar) -> (r: Scalar) {
        ask(&self.minus, (a, b))
    }

    fn times(&self, a: Scalar, b: Scalar) -> (r: Scalar) {
        ask(&self.times, (a, b))
    }

    fn over(&self, a: Scalar, b: Scalar) -> (r: Scalar) {
        ask(&self.over, (a, b))
    }

    fn raised(&self, base: Scalar, exponent: u32) -> (r: Scalar) {
        ask(&self.raised, (base, exponent))
    }

    fn exp(&self, a: Scalar) -> (r: Scalar) {
        ask(&self.exp, a)
    }

    fn ln(&self, a: Scalar) -> (r: Scalar) {
        ask(&self.ln, a)
    }

    fn of_count(&self, n: u64) -> (r: Scalar) {
        ask(&self.of_count, n)
    }

    fn wide_plus(&self, sum: WideScalar, a: Scalar) -> (r: WideScalar) {
        ask(&self.wide_plus, (sum, a))
    }

    fn wide_over(&self, sum: WideScalar, n: u64) -> (r: Scalar) {
        ask(&self.wide_over, (sum, n))
    }

    fn up(&self, a: Scalar) -> (r: usize) {
        ask(&self.up, a)
    }

    fn wide_add(&self, a: WideScalar, b: WideScalar) -> (r: WideScalar) {
        ask(&self.wide_add, (a, b))
    }

    fn wide_minus(&self, a: WideScalar, b: WideScalar) -> (r: WideScalar) {
        ask(&self.wide_minus, (a, b))
    }

    fn wide_divide(&self, a: WideScalar, b: WideScalar) -> (r: WideScalar) {
        ask(&self.wide_divide, (a, b))
    }

    fn wide_count(&self, n: u64) -> (r: WideScalar) {
        ask(&self.wide_count, n)
    }

    fn consolidate(&self, phase: usize, ends: bool) -> (r: (Scalar, usize)) {
        ask(&self.consolidate, (phase, ends))
    }
}

impl Scalar {
    /// The number with the other sign.
    pub open spec fn opposite(self) -> Scalar {
        if self.bits < SIGN_BIT {
            Scalar { bits: (self.bits + SIGN_BIT) as u32 }
        } else {
            Scalar { bits: (self.bits - SIGN_BIT) as u32 }
        }
    }

    /// The number with the other sign.
    pub fn negated(self) -> (r: Scalar)
        ensures
            r == self.opposite(),
    {
        if self.bits < SIGN_BIT {
            Scalar { bits: self.bits + SIGN_BIT }
        } else {
            Scalar { bits: self.bits - SIGN_BIT }
        }
    }

    /// The number without its sign.
    pub open spec fn absolute(self) -> Scalar {
        Scalar { bits: self.magnitude() as u32 }
    }

    /// The number without its sign.
    pub fn abs(self) -> (r: Scalar)
        ensures
            r == self.absolute(),
    {
        if self.bits < SIGN_BIT {
            self
        } else {
            Scalar { bits: self.bits - SIGN_BIT }
        }
    }

    /// The greater of two numbers; where one is NaN, the other.
    pub open spec fn greater(self, other: Scalar) -> Scalar {
        if self.nan() || self.below(other) {
            other
        } else {
            self
        }
    }

    /// The greater of two numbers; where one is NaN, the other.
    pub fn max_of(self, other: Scalar) -> (r: Scalar)
        ensures
            r == self.greater(other),
    {
        if self.is_nan() || self.lt(other) {
            other
        } else {
            self
        }
    }

    /// The lesser of two numbers; where one is NaN, the other.
    pub open spec fn lesser(self, other: Scalar) -> Scalar {
        if self.nan() || other.below(self) {
            other
        } else {
            self
        }
    }

    /// The lesser of two numbers; where one is NaN, the other.
    pub fn min_of(self, other: Scalar) -> (r: Scalar)
        ensures
            r == self.lesser(other),
    {
        if self.is_nan() || other.lt(self) {
            other
        } else {
            self
        }
    }

    /// The two numbers are not equal in value; NaN is equal to nothing.
    pub open spec fn unequal(self, other: Scalar) -> bool {
        self.nan() || other.nan() || self.rank() != other.rank()
    }

    /// Whether the two numbers are not equal in value.
    pub fn ne_value(self, other: Scalar) -> (r: bool)
        ensures
            r == self.unequal(other),
    {
        !(self.le(other) && other.le(self))
    }
}

/// Turning the sign twice gives the number back.
pub proof fn law_opposites(x: Scalar)
    ensures
        x.opposite().opposite() == x,
        !x.nan() ==> x.opposite().rank() == -x.rank(),
        x.absolute() == x.opposite().absolute(),
{
}

} // verus!
