//! What the context memory can be relied on for: fingerprints tell contexts apart, the history keeps
//! the latest symbols, and contexts that were seen often are not displaced by rare ones.

use crate::context::{
    absorb_byte, absorb_symbol, absorb_symbols, draw_survives, fingerprint, lemma_victim_exists,
    remembered, ContextTable, FINGERPRINT_FACTOR, FINGERPRINT_SEED,
};
use crate::model::{lemma_probe_in_partition, probe_slot};
use crate::permission::Permission;
use crate::runtime::Runtime;
use crate::scalar::Scalar;
use vstd::arithmetic::div_mod::{lemma_fundamental_div_mod, lemma_mod_multiples_vanish};
use vstd::arithmetic::power2::{lemma2_to64, lemma_pow2_adds, lemma_pow2_pos, pow2};
use vstd::prelude::*;

verus! {

/// The number by which a multiplication with the factor of fingerprints is undone.
pub const FACTOR_INVERSE: u64 = 0xce96_5057_aff6_957b;

/// A fingerprint forgets nothing of one byte: different fingerprints stay different under the same
/// byte, and different bytes lead to different fingerprints.
proof fn lemma_factor_is_undone(x: int)
    requires
        0 <= x < 0x1_0000_0000_0000_0000,
    ensures
        ((x * FINGERPRINT_FACTOR) % 0x1_0000_0000_0000_0000 * FACTOR_INVERSE)
            % 0x1_0000_0000_0000_0000 == x,
{
    let m: int = 0x1_0000_0000_0000_0000;
    let f = FINGERPRINT_FACTOR as int;
    let v = FACTOR_INVERSE as int;
    let p = x * f;
    let q = p / m;
    let r = p % m;
    lemma_fundamental_div_mod(p, m);
    let w: int = 887285111055;
    assert(f * v == 1 + w * m) by (nonlinear_arith)
        requires
            f == 0x100_0000_01b3,
            v == 0xce96_5057_aff6_957b,
            m == 0x1_0000_0000_0000_0000,
            w == 887285111055,
    ;
    assert(r * v == x + m * (x * w - q * v)) by (nonlinear_arith)
        requires
            p == x * f,
            p == m * q + r,
            f * v == 1 + w * m,
    ;
    lemma_mod_multiples_vanish(x * w - q * v, x, m);
    assert(x % m == x);
}

proof fn lemma_bytes_apart(a: u64, b: u64, x: u8, y: u8)
    ensures
        a != b ==> absorb_byte(a, x) != absorb_byte(b, x),
        x != y ==> absorb_byte(a, x) != absorb_byte(a, y),
{
    let ax = a ^ (x as u64);
    let bx = b ^ (x as u64);
    let ay = a ^ (y as u64);
    lemma_factor_is_undone(ax as int);
    lemma_factor_is_undone(bx as int);
    lemma_factor_is_undone(ay as int);
    assert(a != b ==> (a ^ (x as u64)) != (b ^ (x as u64))) by (bit_vector);
    assert(x != y ==> (a ^ (x as u64)) != (a ^ (y as u64))) by (bit_vector);
}

proof fn lemma_symbols_apart(a: u64, b: u64, x: u32, y: u32)
    ensures
        a != b ==> absorb_symbol(a, x) != absorb_symbol(b, x),
        x < 256 && y < 256 && x != y ==> absorb_symbol(a, x) != absorb_symbol(a, y),
{
    let x0 = (x % 256) as u8;
    let x1 = (x / 256 % 256) as u8;
    let x2 = (x / 65536 % 256) as u8;
    let x3 = (x / 16777216) as u8;
    let a0 = absorb_byte(a, x0);
    let a1 = absorb_byte(a0, x1);
    let a2 = absorb_byte(a1, x2);
    if a != b {
        let b0 = absorb_byte(b, x0);
        let b1 = absorb_byte(b0, x1);
        let b2 = absorb_byte(b1, x2);
        lemma_bytes_apart(a, b, x0, x0);
        lemma_bytes_apart(a0, b0, x1, x1);
        lemma_bytes_apart(a1, b1, x2, x2);
        lemma_bytes_apart(a2, b2, x3, x3);
    }
    if x < 256 && y < 256 && x != y {
        let y0 = (y % 256) as u8;
        let c0 = absorb_byte(a, y0);
        let c1 = absorb_byte(c0, x1);
        let c2 = absorb_byte(c1, x2);
        lemma_bytes_apart(a, a, x0, y0);
        lemma_bytes_apart(a0, c0, x1, x1);
        lemma_bytes_apart(a1, c1, x2, x2);
        lemma_bytes_apart(a2, c2, x3, x3);
    }
}

proof fn lemma_sequences_apart(a: u64, b: u64, s: Seq<u32>)
    requires
        a != b,
    ensures
        absorb_symbols(a, s) != absorb_symbols(b, s),
    decreases s.len(),
{
    if s.len() > 0 {
        lemma_sequences_apart(a, b, s.drop_last());
        lemma_symbols_apart(
            absorb_symbols(a, s.drop_last()),
            absorb_symbols(b, s.drop_last()),
            s.last(),
            s.last(),
        );
    }
}

proof fn lemma_one_symbol_counts(a: u64, s: Seq<u32>, t: Seq<u32>, at: int)
    requires
        s.len() == t.len(),
        0 <= at < s.len(),
        s[at] < 256,
        t[at] < 256,
        s[at] != t[at],
        forall|i: int| 0 <= i < s.len() && i != at ==> s[i] == #[trigger] t[i],
    ensures
        absorb_symbols(a, s) != absorb_symbols(a, t),
    decreases s.len(),
{
    let x = s.drop_last();
    let y = t.drop_last();
    if at == s.len() - 1 {
        assert(x =~= y);
        lemma_symbols_apart(absorb_symbols(a, x), absorb_symbols(a, x), s.last(), t.last());
    } else {
        assert forall|i: int| 0 <= i < x.len() && i != at implies x[i] == #[trigger] y[i] by {
            assert(s[i] == t[i]);
        }
        lemma_one_symbol_counts(a, x, y, at);
        assert(s[s.len() - 1] == t[t.len() - 1]);
        lemma_symbols_apart(
            absorb_symbols(a, x),
            absorb_symbols(a, y),
            s.last(),
            s.last(),
        );
    }
}

/// A fingerprint is about the last symbols and about each of them: two histories that end with the
/// same `order` symbols have the same fingerprint, whatever came before; and if exactly one of those
/// symbols is another byte, the fingerprints differ, unless they are both the one that stands in for
/// zero. No fingerprint is zero.
pub proof fn law_fingerprints_tell_contexts_apart(a: Seq<u32>, b: Seq<u32>, order: int, back: int)
    requires
        0 <= order <= a.len(),
        order <= b.len(),
        forall|i: int|
            1 <= i <= order && i != back ==> a[a.len() - i] == #[trigger] b[b.len() - i],
    ensures
        fingerprint(a, order) != 0,
        !(1 <= back <= order) ==> fingerprint(a, order) == fingerprint(b, order),
        1 <= back <= order && a[a.len() - back] < 256 && b[b.len() - back] < 256 && a[a.len()
            - back] != b[b.len() - back] ==> fingerprint(a, order) != fingerprint(b, order) || (
        fingerprint(a, order) == 1 && fingerprint(b, order) == 1),
{
    let s = a.subrange(a.len() - order, a.len() as int);
    let t = b.subrange(b.len() - order, b.len() as int);
    assert forall|i: int| 0 <= i < order && i != order - back implies s[i] == #[trigger] t[i] by {
        assert(a[a.len() - (order - i)] == b[b.len() - (order - i)]);
    }
    let seed = FINGERPRINT_SEED ^ (order as u64);
    if 1 <= back <= order {
        if a[a.len() - back] < 256 && b[b.len() - back] < 256 && a[a.len() - back] != b[b.len()
            - back] {
            lemma_one_symbol_counts(seed, s, t, order - back);
        }
    } else {
        assert(s =~= t);
    }
}

/// The history keeps the latest symbols, newest last: one more symbol moves each of the others one
/// place back, and only a history that is full forgets its oldest.
pub proof fn law_history_keeps_the_latest(history: Seq<u32>, max_order: int, symbol: u32, back: int)
    requires
        0 < max_order,
        history.len() <= max_order,
        1 <= back <= history.len(),
    ensures
        ({
            let r = remembered(history, max_order, symbol);
            &&& r.last() == symbol
            &&& r.len() == if history.len() < max_order {
                history.len() as int + 1
            } else {
                max_order
            }
            &&& back + 1 <= max_order ==> r[r.len() - (back + 1)] == history[history.len() - back]
        }),
{
}

/// Probing reaches as many slots as there are probes: two probes for a fingerprint within one round
/// of the partition look at different slots.
pub proof fn law_probes_reach_different_slots(
    order: int,
    key: u64,
    slots: int,
    i: int,
    j: int,
)
    requires
        0 <= i < j < slots,
    ensures
        probe_slot(order, key, slots, i) != probe_slot(order, key, slots, j),
{
    let base = key as int % slots;
    let x = (base + i) % slots;
    let y = (base + j) % slots;
    if x == y {
        lemma_fundamental_div_mod(base + i, slots);
        lemma_fundamental_div_mod(base + j, slots);
        let d = (base + j) / slots - (base + i) / slots;
        assert(slots * d == j - i) by (nonlinear_arith)
            requires
                base + i == slots * ((base + i) / slots) + x,
                base + j == slots * ((base + j) / slots) + x,
                d == (base + j) / slots - (base + i) / slots,
        ;
        assert(slots * d <= 0 || slots * d >= slots) by (nonlinear_arith)
            requires
                0 < slots,
        ;
    }
}

/// Contexts that were seen often are not displaced by rare ones: a fingerprint is only displaced
/// where no slot that was looked at is free, and none of the contexts there was seen less often. A
/// slot that is given away starts without observations, with an embedding of zeros.
pub proof fn law_rare_contexts_make_room(
    t: ContextTable,
    order: int,
    key: u64,
    displaced: int,
    other: int,
)
    requires
        t.wf(),
        1 <= order <= t.max_order,
        0 <= displaced < t.keys.len(),
        0 <= other < t.probe_limit,
    ensures
        ({
            let after = t.resolve(order, key, true).0;
            let rival = t.slot_at(order, key, other);
            t.keys[displaced] != after.keys[displaced] ==> {
                &&& t.keys[displaced] != 0 ==> t.keys[rival] != 0 && t.observations[displaced]
                    <= t.observations[rival]
                &&& after.keys[displaced] == key
                &&& after.observations[displaced] == 0
                &&& forall|i: int|
                    displaced * t.embedding_dim <= i < (displaced + 1) * t.embedding_dim && 0 <= i
                        < t.embeddings.len() ==> (#[trigger] after.embeddings[i]).rank() == 0
            }
        }),
{
    reveal(ContextTable::resolve);
    if !t.holds(order, key) {
        lemma_victim_exists(t, order, key);
        let o = choose|o: int| #[trigger] t.victim(order, key, o);
        let slot = t.slot_at(order, key, o);
        lemma_probe_in_partition(order, key, t.slots_per_order, o);
        crate::key_laws::lemma_slot_in_table(t, order, slot);
        assert((displaced + 1) * t.embedding_dim == displaced * t.embedding_dim
            + t.embedding_dim) by (nonlinear_arith);
    }
}

/// A dropout rate is a share of the draws: for a rate of one over a power of two, that share of all
/// draws is dropped, and they are the lowest. A rate of one or more keeps none.
pub proof fn law_rates_are_shares(k: u64, n: int, rate: Scalar)
    requires
        k < 0x100_0000,
        1 <= n <= 24,
        rate.bits == (127 - n) * 0x80_0000,
    ensures
        draw_survives(k, rate) <==> k >= pow2((24 - n) as nat),
{
    lemma2_to64();
    let p = pow2((n - 1) as nat) as int;
    let q = pow2((24 - n) as nat) as int;
    lemma_pow2_adds((n - 1) as nat, (24 - n) as nat);
    lemma_pow2_pos((n - 1) as nat);
    assert(p * q == 0x80_0000);
    assert(rate.exponent() == 127 - n);
    assert(rate.significand() == 0x80_0000);
    assert(k * p >= p * q <==> k >= q) by (nonlinear_arith)
        requires
            p > 0,
    ;
}

/// A draw that is at least as high as one that survives survives.
pub proof fn law_higher_draws_survive(k: u64, l: u64, rate: Scalar)
    requires
        k <= l,
        draw_survives(k, rate),
    ensures
        draw_survives(l, rate),
        !(Scalar { bits: crate::scalar::ONE_BITS }).at_most(rate),
{
    let p = pow2((126 - rate.exponent()) as nat) as int;
    assert(k * p <= l * p) by (nonlinear_arith)
        requires
            k <= l,
            0 <= p,
    ;
}

/// What was learned is used in full: no context is left out of a frozen step.
pub proof fn law_frozen_steps_use_every_context(r: Runtime, symbol: u32)
    ensures
        r.context_kept(symbol, Permission::Frozen),
{
}

} // verus!
