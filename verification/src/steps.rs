//! Steps made ready for a device: checked, classified and cut into chunks.

use crate::config::Config;
use crate::context::{context_survives_dropout, survives_dropout};
use crate::error::{fails, LeoError, LeoErrorKind, LeoResult};
use crate::metrics::capped_sum;
use crate::permission::Permission;
use crate::scalar::Scalar;
use crate::symbols::Alphabet;
use crate::text::{decimal, with_number};
use vstd::prelude::*;

verus! {

/// How many steps a device takes in one launch.
pub const TRAINING_STEP_BATCH_CAPACITY: usize = 4096;

/// The target index of a step without a target.
pub const NO_TARGET: i32 = -1;

/// The target index of a step that only advances the state.
pub const FROZEN_ADVANCE: i32 = -2;

/// The weight of a step's target: none, the strength of the permission, or that strength
/// times the weight of the end of a document.
#[derive(Debug, Clone, Copy, PartialEq, Eq, Structural)]
pub enum Supervision {
    Off,
    Plain,
    EndDocument,
}

/// One step as the device reads it.
#[derive(Debug, Clone, Copy, PartialEq, Eq, Structural)]
pub struct DeviceStep {
    pub symbol: u32,
    pub target_index: i32,
    pub context_enabled: u32,
    pub supervision: Supervision,
}

/// What the host keeps of a step until its record comes back.
#[derive(Debug, Clone, Copy, PartialEq, Eq, Structural)]
pub struct StepNote {
    pub symbol: u32,
    pub target_index: Option<usize>,
    pub context_enabled: bool,
    pub learned: bool,
}

/// What decides about a step besides the step itself.
#[derive(Debug, Clone, Copy, PartialEq, Eq, Structural)]
pub struct StepSetting {
    pub seed: u64,
    pub dropout_rate: Scalar,
    /// Nothing may be learned.
    pub frozen: bool,
    /// The strength of the permission is above zero.
    pub learns: bool,
}

impl StepSetting {
    /// The setting of a configuration under a permission.
    pub open spec fn of_spec(config: Config, permission: Permission) -> StepSetting {
        StepSetting {
            seed: config.model.seed,
            dropout_rate: config.context.dropout_rate,
            frozen: permission == Permission::Frozen,
            learns: (Scalar { bits: 0 }).below(permission.strength_in(config)),
        }
    }

    /// The setting of a configuration under a permission.
    pub fn of(config: &Config, permission: Permission) -> (r: StepSetting)
        ensures
            r == StepSetting::of_spec(*config, permission),
    {
        let strength: Scalar = permission.strength(config);
        StepSetting {
            seed: config.model.seed,
            dropout_rate: config.context.dropout_rate,
            frozen: permission.is_frozen(),
            learns: Scalar::zero().lt(strength),
        }
    }
}

/// What is wrong with a step: its symbol cannot be fed, or its target is not predicted.
pub open spec fn step_problem(a: Alphabet, step: (u32, Option<u32>)) -> Option<Seq<char>> {
    if !a.accepts(step.0) {
        Some("invalid input symbol: "@ + decimal(step.0 as nat) + ""@)
    } else {
        match step.1 {
            Some(target) => if a.class(target) is None {
                Some("invalid output target: "@ + decimal(target as nat) + ""@)
            } else {
                None
            },
            None => None,
        }
    }
}

/// The output class of a step's target.
pub open spec fn target_class(a: Alphabet, step: (u32, Option<u32>)) -> Option<usize> {
    match step.1 {
        Some(target) => a.class(target),
        None => None,
    }
}

/// The output class of a step's target, or the error of a step that cannot be taken.
pub fn check_step(a: &Alphabet, symbol: u32, target: Option<u32>) -> (r: LeoResult<Option<usize>>)
    ensures
        match step_problem(*a, (symbol, target)) {
            Some(text) => fails(r, LeoErrorKind::Cuda, text),
            None => r == Ok::<Option<usize>, LeoError>(target_class(*a, (symbol, target))),
        },
{
    if !a.is_input_symbol(symbol) {
        return Err(LeoError::cuda(with_number("invalid input symbol: ", symbol as u64, "")));
    }
    match target {
        None => Ok(None),
        Some(value) => match a.output_symbol_to_index(value) {
            Some(class) => Ok(Some(class)),
            None => Err(
                LeoError::cuda(with_number("invalid output target: ", value as u64, "")),
            ),
        },
    }
}

/// What the host keeps of a step that is taken at `tick`.
pub open spec fn note_of(
    a: Alphabet,
    s: StepSetting,
    tick: u64,
    step: (u32, Option<u32>),
) -> StepNote {
    StepNote {
        symbol: step.0,
        target_index: target_class(a, step),
        context_enabled: s.frozen || survives_dropout(s.seed, tick, step.0, s.dropout_rate),
        learned: target_class(a, step) is Some && s.learns,
    }
}

/// The weight of a target class.
pub open spec fn supervision_of(a: Alphabet, target_index: Option<usize>) -> Supervision {
    match target_index {
        None => Supervision::Off,
        Some(class) => if class == a.end_document_class {
            Supervision::EndDocument
        } else {
            Supervision::Plain
        },
    }
}

/// The step as the device reads it.
pub open spec fn device_step_of(a: Alphabet, note: StepNote) -> DeviceStep {
    DeviceStep {
        symbol: note.symbol,
        target_index: match note.target_index {
            Some(class) => class as i32,
            None => NO_TARGET,
        },
        context_enabled: if note.context_enabled {
            1
        } else {
            0
        },
        supervision: supervision_of(a, note.target_index),
    }
}

/// Takes note of a step whose target class is known.
pub fn note_step(
    a: &Alphabet,
    s: &StepSetting,
    tick: u64,
    symbol: u32,
    target: Option<u32>,
    target_index: Option<usize>,
) -> (r: (StepNote, DeviceStep))
    requires
        target_index == target_class(*a, (symbol, target)),
    ensures
        r.0 == note_of(*a, *s, tick, (symbol, target)),
        r.1 == device_step_of(*a, r.0),
{
    let context_enabled: bool = s.frozen || context_survives_dropout(
        s.seed,
        tick,
        symbol,
        s.dropout_rate,
    );
    let learned: bool = target_index.is_some() && s.learns;
    let supervision: Supervision = match target_index {
        None => Supervision::Off,
        Some(class) => if class == a.end_document_class {
            Supervision::EndDocument
        } else {
            Supervision::Plain
        },
    };
    let device_target: i32 = match target_index {
        Some(class) => class as i32,
        None => NO_TARGET,
    };
    (
        StepNote { symbol, target_index, context_enabled, learned },
        DeviceStep {
            symbol,
            target_index: device_target,
            context_enabled: if context_enabled {
                1
            } else {
                0
            },
            supervision,
        },
    )
}

/// The first step between two places that cannot be taken.
pub open spec fn first_problem(
    a: Alphabet,
    steps: Seq<(u32, Option<u32>)>,
    start: int,
    end: int,
    at: int,
) -> bool {
    &&& start <= at < end
    &&& step_problem(a, steps[at]) is Some
    &&& forall|j: int| start <= j < at ==> step_problem(a, #[trigger] steps[j]) is None
}

/// Every step between two places can be taken.
pub open spec fn all_sound(
    a: Alphabet,
    steps: Seq<(u32, Option<u32>)>,
    start: int,
    end: int,
) -> bool {
    forall|j: int| start <= j < end ==> step_problem(a, #[trigger] steps[j]) is None
}

/// The notes of the steps between two places, the first of them taken at `base_tick`.
pub open spec fn notes_of(
    a: Alphabet,
    s: StepSetting,
    base_tick: u64,
    steps: Seq<(u32, Option<u32>)>,
    start: int,
    end: int,
) -> Seq<StepNote> {
    Seq::new(
        (end - start) as nat,
        |i: int| note_of(a, s, capped_sum(base_tick, i as u64), steps[start + i]),
    )
}

/// The steps of some notes as the device reads them.
pub open spec fn device_steps_of(a: Alphabet, notes: Seq<StepNote>) -> Seq<DeviceStep> {
    Seq::new(notes.len(), |i: int| device_step_of(a, notes[i]))
}

/// How many of the steps learn.
pub open spec fn learned_count(notes: Seq<StepNote>) -> nat
    decreases notes.len(),
{
    if notes.len() == 0 {
        0
    } else {
        learned_count(notes.drop_last()) + if notes.last().learned {
            1nat
        } else {
            0nat
        }
    }
}

/// Some step learns with its context.
pub open spec fn context_learns(notes: Seq<StepNote>) -> bool {
    exists|i: int| 0 <= i < notes.len() && learns_context(#[trigger] notes[i])
}

/// The step learns with its context.
pub open spec fn learns_context(note: StepNote) -> bool {
    note.learned && note.context_enabled
}

/// A chunk of steps that is ready for the device.
#[derive(Debug, Clone)]
pub struct PreparedChunk {
    pub device_steps: Vec<DeviceStep>,
    pub notes: Vec<StepNote>,
    pub learned_steps: u64,
    pub context_learning: bool,
}

impl PreparedChunk {
    /// The chunk holds the steps between two places.
    pub open spec fn holds(
        self,
        a: Alphabet,
        s: StepSetting,
        base_tick: u64,
        steps: Seq<(u32, Option<u32>)>,
        start: int,
        end: int,
    ) -> bool {
        &&& self.notes@ == notes_of(a, s, base_tick, steps, start, end)
        &&& self.device_steps@ == device_steps_of(a, self.notes@)
        &&& self.learned_steps == learned_count(self.notes@)
        &&& self.context_learning == context_learns(self.notes@)
    }
}

proof fn lemma_push_note(notes: Seq<StepNote>, note: StepNote)
    ensures
        learned_count(notes.push(note)) == learned_count(notes) + if note.learned {
            1nat
        } else {
            0nat
        },
        context_learns(notes.push(note)) == (context_learns(notes) || learns_context(note)),
        learned_count(notes) <= notes.len(),
    decreases notes.len(),
{
    assert(notes.push(note).drop_last() =~= notes);
    if notes.len() > 0 {
        lemma_push_note(notes.drop_last(), notes.last());
        assert(notes.drop_last().push(notes.last()) =~= notes);
    }
    let all = notes.push(note);
    if context_learns(notes) {
        let i = choose|i: int| 0 <= i < notes.len() && learns_context(#[trigger] notes[i]);
        assert(learns_context(all[i]));
    }
    if learns_context(note) {
        assert(learns_context(all[notes.len() as int]));
    }
    if context_learns(all) {
        let i = choose|i: int| 0 <= i < all.len() && learns_context(#[trigger] all[i]);
        if i < notes.len() {
            assert(learns_context(notes[i]));
        }
    }
}

/// Checks and classifies the steps between two places.
pub fn prepare_chunk(
    a: &Alphabet,
    s: &StepSetting,
    base_tick: u64,
    steps: &Vec<(u32, Option<u32>)>,
    start: usize,
    end: usize,
) -> (r: LeoResult<PreparedChunk>)
    requires
        start <= end <= steps.len(),
    ensures
        match r {
            Ok(chunk) => all_sound(*a, steps@, start as int, end as int) && chunk.holds(
                *a,
                *s,
                base_tick,
                steps@,
                start as int,
                end as int,
            ),
            Err(e) => exists|at: int|
                #[trigger] first_problem(*a, steps@, start as int, end as int, at) && e.says(
                    LeoErrorKind::Cuda,
                    step_problem(*a, steps@[at])->0,
                ),
        },
{
    let mut device_steps: Vec<DeviceStep> = Vec::new();
    let mut notes: Vec<StepNote> = Vec::new();
    let mut learned_steps: u64 = 0;
    let mut context_learning: bool = false;
    let mut at: usize = start;
    while at < end
        invariant
            start <= at <= end <= steps.len(),
            all_sound(*a, steps@, start as int, at as int),
            notes@ == notes_of(*a, *s, base_tick, steps@, start as int, at as int),
            device_steps@ == device_steps_of(*a, notes@),
            learned_steps == learned_count(notes@),
            learned_steps <= notes.len(),
            context_learning == context_learns(notes@),
        decreases end - at,
    {
        let step: (u32, Option<u32>) = steps[at];
        let tick: u64 = base_tick.saturating_add((at - start) as u64);
        match check_step(a, step.0, step.1) {
            Err(e) => {
                assert(first_problem(*a, steps@, start as int, end as int, at as int));
                return Err(e);
            },
            Ok(target_index) => {
                let (note, device_step) = note_step(a, s, tick, step.0, step.1, target_index);
                let ghost before = notes@;
                proof {
                    lemma_push_note(before, note);
                }
                if note.learned {
                    learned_steps = learned_steps + 1;
                    context_learning = context_learning || note.context_enabled;
                }
                notes.push(note);
                device_steps.push(device_step);
                assert(notes@ =~= notes_of(*a, *s, base_tick, steps@, start as int, at + 1));
                assert(device_steps@ =~= device_steps_of(*a, notes@));
            },
        }
        at = at + 1;
    }
    Ok(PreparedChunk { device_steps, notes, learned_steps, context_learning })
}

/// Where the chunk that starts at `start` ends.
pub open spec fn chunk_end_of(start: int, len: int) -> int {
    if start + TRAINING_STEP_BATCH_CAPACITY < len {
        start + TRAINING_STEP_BATCH_CAPACITY
    } else {
        len
    }
}

/// Where the chunk that starts at `start` ends.
pub fn chunk_end(start: usize, len: usize) -> (r: usize)
    requires
        start <= len,
    ensures
        r == chunk_end_of(start as int, len as int),
{
    if len - start > TRAINING_STEP_BATCH_CAPACITY {
        start + TRAINING_STEP_BATCH_CAPACITY
    } else {
        len
    }
}

/// Chunks follow each other without gap or overlap: each holds at least one step while some
/// are left and never more than the device takes.
pub proof fn law_chunks_advance(start: int, len: int)
    requires
        0 <= start < len,
    ensures
        start < chunk_end_of(start, len) <= len,
        chunk_end_of(start, len) - start <= TRAINING_STEP_BATCH_CAPACITY,
        chunk_end_of(start, len) < len ==> chunk_end_of(start, len) - start
            == TRAINING_STEP_BATCH_CAPACITY,
{
}

/// A step without a target never learns, and neither does any step of a frozen run.
pub proof fn law_learning_needs_target_and_strength(
    a: Alphabet,
    s: StepSetting,
    tick: u64,
    step: (u32, Option<u32>),
)
    ensures
        note_of(a, s, tick, step).learned ==> step.1 is Some && s.learns,
        s.frozen ==> note_of(a, s, tick, step).context_enabled,
{
}

/// How notes split: the notes of a stretch of steps are those of its first part followed by
/// those of the rest, taken from the tick that the first part reached.
pub proof fn law_chunking_keeps_notes(
    a: Alphabet,
    s: StepSetting,
    base_tick: u64,
    steps: Seq<(u32, Option<u32>)>,
    start: int,
    middle: int,
    end: int,
)
    requires
        0 <= start <= middle <= end <= steps.len(),
        end - start <= u64::MAX,
    ensures
        notes_of(a, s, base_tick, steps, start, end) == notes_of(
            a,
            s,
            base_tick,
            steps,
            start,
            middle,
        ) + notes_of(
            a,
            s,
            capped_sum(base_tick, (middle - start) as u64),
            steps,
            middle,
            end,
        ),
{
    let whole = notes_of(a, s, base_tick, steps, start, end);
    let head = notes_of(a, s, base_tick, steps, start, middle);
    let later = capped_sum(base_tick, (middle - start) as u64);
    let tail = notes_of(a, s, later, steps, middle, end);
    assert forall|i: int| 0 <= i < whole.len() implies whole[i] == (head + tail)[i] by {
        if i >= head.len() {
            let k = i - head.len();
            assert(capped_sum(later, k as u64) == capped_sum(base_tick, i as u64));
        }
    }
    assert(whole =~= head + tail);
}

/// A timeline of steps for the streaming replay: steps with a target are trained, the others
/// only advance the state.
#[derive(Debug, Clone)]
pub struct PreparedTimeline {
    pub device_steps: Vec<DeviceStep>,
    /// The note of each step with a target.
    pub notes: Vec<Option<StepNote>>,
    /// How many steps keep traces.
    pub trace_steps: usize,
    pub learned_steps: u64,
    pub context_learning: bool,
}

/// What the host keeps of a step of a timeline.
pub open spec fn timeline_note_of(
    a: Alphabet,
    s: StepSetting,
    tick: u64,
    step: (u32, Option<u32>),
) -> Option<StepNote> {
    if step.1 is Some {
        Some(note_of(a, s, tick, step))
    } else {
        None
    }
}

/// A step of a timeline as the device reads it.
pub open spec fn timeline_device_step_of(
    a: Alphabet,
    symbol: u32,
    note: Option<StepNote>,
) -> DeviceStep {
    match note {
        Some(n) => device_step_of(a, n),
        None => DeviceStep {
            symbol,
            target_index: FROZEN_ADVANCE,
            context_enabled: 1,
            supervision: Supervision::Off,
        },
    }
}

/// The notes that are there.
pub open spec fn present(notes: Seq<Option<StepNote>>) -> Seq<StepNote>
    decreases notes.len(),
{
    if notes.len() == 0 {
        seq![]
    } else {
        match notes.last() {
            Some(n) => present(notes.drop_last()).push(n),
            None => present(notes.drop_last()),
        }
    }
}

impl PreparedTimeline {
    /// The timeline holds the steps between two places.
    pub open spec fn holds(
        self,
        a: Alphabet,
        s: StepSetting,
        base_tick: u64,
        steps: Seq<(u32, Option<u32>)>,
        start: int,
        end: int,
    ) -> bool {
        &&& self.notes.len() == end - start
        &&& self.device_steps.len() == end - start
        &&& forall|i: int|
            0 <= i < end - start ==> #[trigger] self.notes@[i] == timeline_note_of(
                a,
                s,
                capped_sum(base_tick, i as u64),
                steps[start + i],
            )
        &&& forall|i: int|
            0 <= i < end - start ==> #[trigger] self.device_steps@[i] == timeline_device_step_of(
                a,
                steps[start + i].0,
                self.notes@[i],
            )
        &&& self.trace_steps == if s.frozen {
            0
        } else {
            present(self.notes@).len()
        }
        &&& self.learned_steps == learned_count(present(self.notes@))
        &&& self.context_learning == context_learns(present(self.notes@))
    }
}

proof fn lemma_push_present(notes: Seq<Option<StepNote>>, note: Option<StepNote>)
    ensures
        present(notes.push(note)) == (match note {
            Some(n) => present(notes).push(n),
            None => present(notes),
        }),
        present(notes).len() <= notes.len(),
    decreases notes.len(),
{
    assert(notes.push(note).drop_last() =~= notes);
    if notes.len() > 0 {
        lemma_push_present(notes.drop_last(), notes.last());
        assert(notes.drop_last().push(notes.last()) =~= notes);
    }
}

/// Checks and classifies the steps of a timeline between two places.
pub fn prepare_timeline(
    a: &Alphabet,
    s: &StepSetting,
    base_tick: u64,
    steps: &Vec<(u32, Option<u32>)>,
    start: usize,
    end: usize,
) -> (r: LeoResult<PreparedTimeline>)
    requires
        start <= end <= steps.len(),
    ensures
        match r {
            Ok(timeline) => all_sound(*a, steps@, start as int, end as int) && timeline.holds(
                *a,
                *s,
                base_tick,
                steps@,
                start as int,
                end as int,
            ),
            Err(e) => exists|at: int|
                #[trigger] first_problem(*a, steps@, start as int, end as int, at) && e.says(
                    LeoErrorKind::Cuda,
                    step_problem(*a, steps@[at])->0,
                ),
        },
{
    let mut line = PreparedTimeline {
        device_steps: Vec::new(),
        notes: Vec::new(),
        trace_steps: 0,
        learned_steps: 0,
        context_learning: false,
    };
    let mut at: usize = start;
    while at < end
        invariant
            start <= at <= end <= steps.len(),
            all_sound(*a, steps@, start as int, at as int),
            line.holds(*a, *s, base_tick, steps@, start as int, at as int),
            line.learned_steps <= line.notes.len(),
            line.trace_steps <= line.notes.len(),
        decreases end - at,
    {
        let step: (u32, Option<u32>) = steps[at];
        let tick: u64 = base_tick.saturating_add((at - start) as u64);
        match check_step(a, step.0, step.1) {
            Err(e) => {
                assert(first_problem(*a, steps@, start as int, end as int, at as int));
                return Err(e);
            },
            Ok(target_index) => {
                let ghost before = line.notes@;
                if target_index.is_some() {
                    let (note, device_step) = note_step(a, s, tick, step.0, step.1, target_index);
                    proof {
                        lemma_push_present(before, Some(note));
                        lemma_push_note(present(before), note);
                    }
                    if !s.frozen {
                        line.trace_steps = line.trace_steps + 1;
                    }
                    if note.learned {
                        line.learned_steps = line.learned_steps + 1;
                        line.context_learning = line.context_learning || note.context_enabled;
                    }
                    line.notes.push(Some(note));
                    line.device_steps.push(device_step);
                } else {
                    proof {
                        lemma_push_present(before, None);
                    }
                    line.notes.push(None);
                    line.device_steps.push(
                        DeviceStep {
                            symbol: step.0,
                            target_index: FROZEN_ADVANCE,
                            context_enabled: 1,
                            supervision: Supervision::Off,
                        },
                    );
                }
            },
        }
        at = at + 1;
    }
    Ok(line)
}

/// What is wrong with a step that only advances the state.
pub open spec fn advance_problem(a: Alphabet, step: (u32, Option<u32>)) -> Option<Seq<char>> {
    if a.accepts(step.0) {
        None
    } else {
        Some("invalid input symbol in frozen state advance: "@ + decimal(step.0 as nat) + ""@)
    }
}

/// The first step between two places that cannot advance the state.
pub open spec fn first_advance_problem(
    a: Alphabet,
    steps: Seq<(u32, Option<u32>)>,
    start: int,
    end: int,
    at: int,
) -> bool {
    &&& start <= at < end
    &&& advance_problem(a, steps[at]) is Some
    &&& forall|j: int| start <= j < at ==> advance_problem(a, #[trigger] steps[j]) is None
}

/// No step has a target.
pub open spec fn unsupervised(steps: Seq<(u32, Option<u32>)>) -> bool {
    forall|i: int| 0 <= i < steps.len() ==> (#[trigger] steps[i]).1 is None
}

/// Refuses steps with a target.
pub fn refuse_targets(steps: &Vec<(u32, Option<u32>)>) -> (r: LeoResult<()>)
    ensures
        unsupervised(steps@) ==> r is Ok,
        !unsupervised(steps@) ==> fails(
            r,
            LeoErrorKind::Cuda,
            "frozen state advance does not accept supervised targets"@,
        ),
{
    let mut i: usize = 0;
    while i < steps.len()
        invariant
            i <= steps.len(),
            forall|j: int| 0 <= j < i ==> (#[trigger] steps@[j]).1 is None,
        decreases steps.len() - i,
    {
        let step: (u32, Option<u32>) = steps[i];
        if step.1.is_some() {
            assert(steps@[i as int].1 is Some);
            return Err(
                LeoError::cuda(
                    "frozen state advance does not accept supervised targets".to_owned(),
                ),
            );
        }
        i = i + 1;
    }
    Ok(())
}

/// A step that only advances the state, as the device reads it.
pub open spec fn advance_step_of(step: (u32, Option<u32>)) -> DeviceStep {
    DeviceStep {
        symbol: step.0,
        target_index: NO_TARGET,
        context_enabled: 0,
        supervision: Supervision::Off,
    }
}

/// Checks the steps between two places that only advance the state.
pub fn prepare_advance(
    a: &Alphabet,
    steps: &Vec<(u32, Option<u32>)>,
    start: usize,
    end: usize,
) -> (r: LeoResult<Vec<DeviceStep>>)
    requires
        start <= end <= steps.len(),
    ensures
        match r {
            Ok(device_steps) => {
                &&& forall|j: int|
                    start <= j < end ==> advance_problem(*a, #[trigger] steps@[j]) is None
                &&& device_steps@ == Seq::new(
                    (end - start) as nat,
                    |i: int| advance_step_of(steps@[start + i]),
                )
            },
            Err(e) => exists|at: int|
                #[trigger] first_advance_problem(*a, steps@, start as int, end as int, at)
                    && e.says(LeoErrorKind::Cuda, advance_problem(*a, steps@[at])->0),
        },
{
    let mut device_steps: Vec<DeviceStep> = Vec::new();
    let mut at: usize = start;
    while at < end
        invariant
            start <= at <= end <= steps.len(),
            forall|j: int| start <= j < at ==> advance_problem(*a, #[trigger] steps@[j]) is None,
            device_steps@ == Seq::new(
                (at - start) as nat,
                |i: int| advance_step_of(steps@[start + i]),
            ),
        decreases end - at,
    {
        let step: (u32, Option<u32>) = steps[at];
        if !a.is_input_symbol(step.0) {
            assert(first_advance_problem(*a, steps@, start as int, end as int, at as int));
            return Err(
                LeoError::cuda(
                    with_number(
                        "invalid input symbol in frozen state advance: ",
                        step.0 as u64,
                        "",
                    ),
                ),
            );
        }
        device_steps.push(
            DeviceStep {
                symbol: step.0,
                target_index: NO_TARGET,
                context_enabled: 0,
                supervision: Supervision::Off,
            },
        );
        at = at + 1;
        assert(device_steps@ =~= Seq::new(
            (at - start) as nat,
            |i: int| advance_step_of(steps@[start + i]),
        ));
    }
    Ok(device_steps)
}

/// Steps between two places are alike: all have a target, or none has.
pub open spec fn alike(steps: Seq<(u32, Option<u32>)>, start: int, end: int) -> bool {
    forall|i: int, j: int|
        start <= i < end && start <= j < end ==> ((#[trigger] steps[i]).1 is Some) == ((
        #[trigger] steps[j]).1 is Some)
}

/// The end of the longest stretch of like steps from `start` on.
pub fn run_end(steps: &Vec<(u32, Option<u32>)>, start: usize) -> (r: usize)
    requires
        start < steps.len(),
    ensures
        start < r <= steps.len(),
        alike(steps@, start as int, r as int),
        r < steps.len() ==> !alike(steps@, start as int, r + 1),
{
    let first: (u32, Option<u32>) = steps[start];
    let supervised: bool = first.1.is_some();
    let mut end: usize = start + 1;
    while end < steps.len()
        invariant
            start < end <= steps.len(),
            supervised == (steps@[start as int].1 is Some),
            alike(steps@, start as int, end as int),
        ensures
            start < end <= steps.len(),
            alike(steps@, start as int, end as int),
            end < steps.len() ==> !alike(steps@, start as int, end + 1),
        decreases steps.len() - end,
    {
        let step: (u32, Option<u32>) = steps[end];
        if step.1.is_some() != supervised {
            assert((steps@[start as int].1 is Some) != (steps@[end as int].1 is Some));
            break;
        }
        assert forall|i: int, j: int| start <= i < end + 1 && start <= j < end + 1 implies ((
        #[trigger] steps@[i]).1 is Some) == ((#[trigger] steps@[j]).1 is Some) by {
            assert((steps@[i].1 is Some) == (steps@[start as int].1 is Some));
            assert((steps@[j].1 is Some) == (steps@[start as int].1 is Some));
        }
        end = end + 1;
    }
    end
}

/// One stretch of like steps.
#[derive(Debug, Clone, Copy, PartialEq, Eq, Structural)]
pub struct StepRun {
    pub start: usize,
    pub end: usize,
    /// The steps of the run have targets.
    pub supervised: bool,
}

/// The runs cover the first `upto` steps in order; each is as long as it can be.
pub open spec fn runs_cover(
    steps: Seq<(u32, Option<u32>)>,
    runs: Seq<StepRun>,
    upto: int,
) -> bool {
    &&& runs.len() == 0 ==> upto == 0
    &&& runs.len() > 0 ==> runs[0].start == 0 && runs.last().end == upto
    &&& forall|k: int| 0 < k < runs.len() ==> (#[trigger] runs[k]).start == runs[before(k)].end
    &&& forall|k: int|
        0 <= k < runs.len() ==> {
            let run = #[trigger] runs[k];
            &&& run.start < run.end <= steps.len()
            &&& alike(steps, run.start as int, run.end as int)
            &&& run.end < steps.len() ==> !alike(steps, run.start as int, run.end + 1)
            &&& run.supervised == (steps[run.start as int].1 is Some)
        }
}

/// The place before another.
pub open spec fn before(k: int) -> int {
    k - 1
}

/// Cuts a timeline into stretches of like steps.
pub fn split_runs(steps: &Vec<(u32, Option<u32>)>) -> (r: Vec<StepRun>)
    ensures
        runs_cover(steps@, r@, steps.len() as int),
{
    let mut runs: Vec<StepRun> = Vec::new();
    let mut at: usize = 0;
    while at < steps.len()
        invariant
            at <= steps.len(),
            runs_cover(steps@, runs@, at as int),
        decreases steps.len() - at,
    {
        let end: usize = run_end(steps, at);
        let step: (u32, Option<u32>) = steps[at];
        let ghost earlier = runs@;
        runs.push(StepRun { start: at, end, supervised: step.1.is_some() });
        assert forall|k: int| 0 < k < runs@.len() implies (#[trigger] runs@[k]).start
            == runs@[before(k)].end by {
            if k < earlier.len() {
                assert(earlier[k].start == earlier[before(k)].end);
            }
        }
        assert forall|k: int| 0 <= k < runs@.len() implies ({
            let run = #[trigger] runs@[k];
            &&& run.start < run.end <= steps@.len()
            &&& alike(steps@, run.start as int, run.end as int)
            &&& run.end < steps@.len() ==> !alike(steps@, run.start as int, run.end + 1)
            &&& run.supervised == (steps@[run.start as int].1 is Some)
        }) by {
            if k < earlier.len() {
                assert(runs@[k] == earlier[k]);
            }
        }
        at = end;
    }
    runs
}

/// Every step of a timeline lies in one run, and that run trains it exactly where it has a
/// target.
pub proof fn law_runs_partition_the_timeline(
    steps: Seq<(u32, Option<u32>)>,
    runs: Seq<StepRun>,
    at: int,
)
    requires
        runs_cover(steps, runs, steps.len() as int),
        0 <= at < steps.len(),
    ensures
        exists|k: int|
            0 <= k < runs.len() && (#[trigger] runs[k]).start <= at < runs[k].end
                && runs[k].supervised == (steps[at].1 is Some),
        forall|k: int, l: int|
            0 <= k < l < runs.len() && (#[trigger] runs[k]).start <= at < runs[k].end ==> !((
            #[trigger] runs[l]).start <= at < runs[l].end),
{
    assert forall|k: int, l: int|
        0 <= k < l < runs.len() && (#[trigger] runs[k]).start <= at < runs[k].end implies !((
    #[trigger] runs[l]).start <= at < runs[l].end) by {
        lemma_runs_ascend(steps, runs, k, l);
    }
    lemma_some_run(steps, runs, runs.len() as int, at);
}

proof fn lemma_runs_ascend(
    steps: Seq<(u32, Option<u32>)>,
    runs: Seq<StepRun>,
    k: int,
    l: int,
)
    requires
        runs_cover(steps, runs, steps.len() as int),
        0 <= k < l < runs.len(),
    ensures
        runs[k].end <= runs[l].start,
    decreases l,
{
    assert(runs[l].start == runs[before(l)].end);
    if k < l - 1 {
        lemma_runs_ascend(steps, runs, k, l - 1);
        assert(runs[l - 1].start < runs[l - 1].end);
    }
}

proof fn lemma_some_run(
    steps: Seq<(u32, Option<u32>)>,
    runs: Seq<StepRun>,
    upto: int,
    at: int,
)
    requires
        runs_cover(steps, runs, steps.len() as int),
        0 < upto <= runs.len(),
        0 <= at < runs[upto - 1].end,
    ensures
        exists|k: int|
            0 <= k < runs.len() && (#[trigger] runs[k]).start <= at < runs[k].end
                && runs[k].supervised == (steps[at].1 is Some),
    decreases upto,
{
    let run = runs[upto - 1];
    if run.start <= at {
        assert((steps[run.start as int].1 is Some) == (steps[at].1 is Some));
        assert(runs[upto - 1].start <= at < runs[upto - 1].end);
    } else {
        assert(runs[upto - 1].start == runs[before(upto - 1)].end);
        lemma_some_run(steps, runs, upto - 1, at);
    }
}

} // verus!
