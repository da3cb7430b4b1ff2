//! Switches and numbers that the environment sets for the device executor.
//!
//! The functions here take the values of the variables, not their names.

use crate::text::{equals_lowered, lower, trim, trimmed};
use vstd::prelude::*;
use vstd::string::StrSliceExecFns;

verus! {

/// How many launches lie between two phase profiles, where nothing else is asked for.
pub const CUDA_PHASE_PROFILE_DEFAULT_SAMPLE_STRIDE: u64 = 64;

/// How many launches lie between two replay profiles, where nothing else is asked for.
pub const CUDA_REPLAY_PROFILE_DEFAULT_SAMPLE_STRIDE: u64 = 1;

/// A word that switches something off.
pub open spec fn is_off_word(s: Seq<char>) -> bool {
    let word = lower(trimmed(s));
    word == "0"@ || word == "false"@ || word == "off"@ || word == "no"@
}

/// The value of a variable.
pub open spec fn value_of(v: Option<&str>) -> Option<Seq<char>> {
    match v {
        Some(s) => Some(s@),
        None => None,
    }
}

/// A switch that is off unless it is set to something that does not switch it off.
pub open spec fn switched_on(v: Option<Seq<char>>) -> bool {
    match v {
        Some(s) => trimmed(s).len() > 0 && !is_off_word(s),
        None => false,
    }
}

/// A switch that is on unless it is set to something that switches it off.
pub open spec fn left_on(v: Option<Seq<char>>) -> bool {
    match v {
        Some(s) => !is_off_word(s),
        None => true,
    }
}

fn says_off(value: &str) -> (r: bool)
    ensures
        r == is_off_word(value@),
{
    let word: &str = trim(value);
    equals_lowered(word, "0") || equals_lowered(word, "false") || equals_lowered(word, "off")
        || equals_lowered(word, "no")
}

/// Reads a switch that is off by default.
pub fn env_flag(value: Option<&str>) -> (r: bool)
    ensures
        r == switched_on(value_of(value)),
{
    match value {
        Some(text) => trim(text).unicode_len() > 0 && !says_off(text),
        None => false,
    }
}

/// Reads a switch that is on by default.
pub fn env_switch(value: Option<&str>) -> (r: bool)
    ensures
        r == left_on(value_of(value)),
{
    match value {
        Some(text) => !says_off(text),
        None => true,
    }
}

/// A decimal digit.
pub open spec fn is_digit(c: char) -> bool {
    48 <= c as u32 <= 57
}

/// The number that a row of digits writes.
pub open spec fn digits_value(s: Seq<char>) -> nat
    decreases s.len(),
{
    if s.len() == 0 {
        0
    } else {
        (digits_value(s.drop_last()) * 10 + (s.last() as u32 - 48)) as nat
    }
}

/// What is left of a number behind its sign.
pub open spec fn unsigned_part(s: Seq<char>) -> Seq<char> {
    if s.len() > 0 && s[0] == '+' {
        s.skip(1)
    } else {
        s
    }
}

/// The number that a text writes: an optional plus sign, then nothing but digits, at least
/// one of them, and no more than `most`.
pub open spec fn number_in(s: Seq<char>, most: nat) -> Option<nat> {
    let body = unsigned_part(s);
    if body.len() > 0 && (forall|i: int| 0 <= i < body.len() ==> is_digit(#[trigger] body[i]))
        && digits_value(body) <= most {
        Some(digits_value(body))
    } else {
        None
    }
}

proof fn lemma_value_grows(s: Seq<char>, upto: int)
    requires
        0 <= upto <= s.len(),
        forall|i: int| 0 <= i < s.len() ==> is_digit(#[trigger] s[i]),
    ensures
        digits_value(s.take(upto)) <= digits_value(s),
    decreases s.len() - upto,
{
    if upto == s.len() {
        assert(s.take(upto) =~= s);
    } else {
        lemma_value_grows(s, upto + 1);
        assert(s.take(upto + 1).drop_last() =~= s.take(upto));
        assert(is_digit(s[upto]));
    }
}

/// Reads a number no larger than `most`.
pub fn parse_number(value: &str, most: u64) -> (r: Option<u64>)
    ensures
        match r {
            Some(n) => number_in(value@, most as nat) == Some(n as nat),
            None => number_in(value@, most as nat) is None,
        },
{
    let len: usize = value.unicode_len();
    if len == 0 {
        return None;
    }
    let first: char = value.get_char(0);
    let start: usize = if first == '+' {
        1
    } else {
        0
    };
    let ghost body = unsigned_part(value@);
    assert(body =~= value@.skip(start as int));
    if start == len {
        return None;
    }
    let mut total: u128 = 0;
    let mut at: usize = start;
    while at < len
        invariant
            start <= at <= len,
            len == value@.len(),
            body == unsigned_part(value@),
            body == value@.skip(start as int),
            body.len() == len - start,
            total == digits_value(body.take(at - start)),
            total <= most,
            forall|i: int| 0 <= i < at - start ==> is_digit(#[trigger] body[i]),
        decreases len - at,
    {
        let c: char = value.get_char(at);
        let code: u32 = c as u32;
        let ghost place = at - start;
        assert(body[place] == c);
        if code < 48 || code > 57 {
            assert(!is_digit(body[place]));
            return None;
        }
        proof {
            assert(body.take(place + 1).drop_last() =~= body.take(place));
            assert(body.take(place + 1).last() == c);
        }
        total = total * 10 + (code - 48) as u128;
        if total > most as u128 {
            proof {
                if forall|i: int| 0 <= i < body.len() ==> is_digit(#[trigger] body[i]) {
                    lemma_value_grows(body, place + 1);
                }
            }
            return None;
        }
        at = at + 1;
    }
    assert(body.take(body.len() as int) =~= body);
    Some(total as u64)
}

/// A positive number that a variable holds.
pub open spec fn positive_in(v: Option<Seq<char>>, most: nat) -> Option<nat> {
    match v {
        Some(s) => match number_in(s, most) {
            Some(n) => if n > 0 {
                Some(n)
            } else {
                None
            },
            None => None,
        },
        None => None,
    }
}

/// Reads a positive number of 32 bits.
pub fn env_positive_u32_opt(value: Option<&str>) -> (r: Option<u32>)
    ensures
        match r {
            Some(n) => positive_in(value_of(value), u32::MAX as nat) == Some(n as nat),
            None => positive_in(value_of(value), u32::MAX as nat) is None,
        },
{
    match value {
        Some(text) => match parse_number(text, u32::MAX as u64) {
            Some(n) => if n > 0 {
                Some(n as u32)
            } else {
                None
            },
            None => None,
        },
        None => None,
    }
}

/// The positive number that a variable holds, or the fallback.
pub open spec fn positive_or(v: Option<Seq<char>>, fallback: u64) -> u64 {
    match positive_in(v, u64::MAX as nat) {
        Some(n) => n as u64,
        None => fallback,
    }
}

/// Reads a positive number of 64 bits, or takes the fallback.
pub fn env_positive_u64(value: Option<&str>, fallback: u64) -> (r: u64)
    ensures
        r == positive_or(value_of(value), fallback),
{
    match value {
        Some(text) => match parse_number(text, u64::MAX) {
            Some(n) => if n > 0 {
                n
            } else {
                fallback
            },
            None => fallback,
        },
        None => fallback,
    }
}

/// The device that a variable names; the first where it names none.
pub open spec fn device_in(v: Option<Seq<char>>) -> usize {
    match v {
        Some(s) => match number_in(s, usize::MAX as nat) {
            Some(n) => n as usize,
            None => 0,
        },
        None => 0,
    }
}

/// Reads the number of a device.
pub fn requested_device(value: Option<&str>) -> (r: usize)
    ensures
        r == device_in(value_of(value)),
{
    match value {
        Some(text) => match parse_number(text, usize::MAX as u64) {
            Some(n) => n as usize,
            None => 0,
        },
        None => 0,
    }
}

/// What the executor reports while it works.
#[derive(Debug, Clone, Copy, PartialEq, Eq, Structural)]
pub struct CudaDebugOptions {
    pub summary: bool,
    pub memory: bool,
    pub chunks: bool,
    pub launches: bool,
    pub sync: bool,
    pub transfers: bool,
    pub state: bool,
}

impl CudaDebugOptions {
    /// Reads the switches; the summary switch turns the memory report on too.
    pub fn from_env(
        summary: Option<&str>,
        memory: Option<&str>,
        chunks: Option<&str>,
        launches: Option<&str>,
        sync: Option<&str>,
        transfers: Option<&str>,
        state: Option<&str>,
    ) -> (r: Self)
        ensures
            r == (CudaDebugOptions {
                summary: switched_on(value_of(summary)),
                memory: switched_on(value_of(summary)) || switched_on(value_of(memory)),
                chunks: switched_on(value_of(chunks)),
                launches: switched_on(value_of(launches)),
                sync: switched_on(value_of(sync)),
                transfers: switched_on(value_of(transfers)),
                state: switched_on(value_of(state)),
            }),
    {
        let on: bool = env_flag(summary);
        CudaDebugOptions {
            summary: on,
            memory: on || env_flag(memory),
            chunks: env_flag(chunks),
            launches: env_flag(launches),
            sync: env_flag(sync),
            transfers: env_flag(transfers),
            state: env_flag(state),
        }
    }

    /// Whether chunks are reported.
    pub fn reports_chunks(&self) -> (r: bool)
        ensures
            r == (self.chunks || self.sync || self.transfers || self.state),
    {
        self.chunks || self.sync || self.transfers || self.state
    }
}

/// How often replay kernels are profiled, if at all.
#[derive(Debug, Clone, Copy, PartialEq, Eq, Structural)]
pub struct CudaReplayProfileOptions {
    pub target_stride: Option<u64>,
    pub prefix_stride: Option<u64>,
}

impl CudaReplayProfileOptions {
    /// Reads the switches and the stride.
    pub fn from_env(
        both: Option<&str>,
        stride: Option<&str>,
        target: Option<&str>,
        prefix: Option<&str>,
    ) -> (r: Self)
        ensures
            ({
                let every = positive_or(
                    value_of(stride),
                    CUDA_REPLAY_PROFILE_DEFAULT_SAMPLE_STRIDE,
                );
                let all = switched_on(value_of(both));
                r == (CudaReplayProfileOptions {
                    target_stride: if all || switched_on(value_of(target)) {
                        Some(every)
                    } else {
                        None
                    },
                    prefix_stride: if all || switched_on(value_of(prefix)) {
                        Some(every)
                    } else {
                        None
                    },
                })
            }),
            r.target_stride != Some(0u64) && r.prefix_stride != Some(0u64),
    {
        let all: bool = env_flag(both);
        let every: u64 = env_positive_u64(stride, CUDA_REPLAY_PROFILE_DEFAULT_SAMPLE_STRIDE);
        CudaReplayProfileOptions {
            target_stride: if all || env_flag(target) {
                Some(every)
            } else {
                None
            },
            prefix_stride: if all || env_flag(prefix) {
                Some(every)
            } else {
                None
            },
        }
    }
}

/// How often the phases of a wavefront are profiled, if at all.
pub fn cuda_phase_profile_sample_stride(flag: Option<&str>, stride: Option<&str>) -> (r: Option<
    u64,
>)
    ensures
        r == if switched_on(value_of(flag)) {
            Some(positive_or(value_of(stride), CUDA_PHASE_PROFILE_DEFAULT_SAMPLE_STRIDE))
        } else {
            None
        },
        r != Some(0u64),
{
    if env_flag(flag) {
        Some(env_positive_u64(stride, CUDA_PHASE_PROFILE_DEFAULT_SAMPLE_STRIDE))
    } else {
        None
    }
}

/// The two kinds of switches agree on every value that is set to something.
pub proof fn law_switches_differ_only_by_default(v: Option<Seq<char>>)
    ensures
        switched_on(v) ==> left_on(v),
        v matches Some(s) && trimmed(s).len() > 0 ==> switched_on(v) == left_on(v),
        v is None ==> !switched_on(v) && left_on(v),
{
}

} // verus!
