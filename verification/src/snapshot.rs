//! One packed snapshot of what the lanes of a story batch changed: where each lane's indices
//! and values lie in the shared buffers, and how they are taken apart again.

use crate::context::capped;
use crate::error::{fails, LeoError, LeoErrorKind, LeoResult};
use crate::parallel::StatisticsDelta;
use crate::runtime::{capped_product, ParameterChanges};
use crate::scalar::Scalar;
use vstd::prelude::*;

verus! {

/// How many change counters a lane has.
pub const CHANGE_COUNTERS: usize = 5;

/// A stretch of a packed buffer.
#[derive(Debug, Clone, Copy, PartialEq, Eq, Structural)]
pub struct SnapshotSpan {
    pub offset: usize,
    pub len: usize,
}

impl SnapshotSpan {
    /// The first place behind the stretch.
    pub open spec fn end(self) -> int {
        self.offset + self.len
    }

    /// The stretch lies inside a buffer of `n` elements.
    pub open spec fn inside(self, n: int) -> bool {
        self.end() <= n
    }
}

/// How many parameters of each kind a lane changed.
#[derive(Debug, Clone, Copy, PartialEq, Eq, Structural)]
pub struct ChangeCounts {
    pub threshold: usize,
    pub recurrent: usize,
    pub input: usize,
    pub output: usize,
    pub context: usize,
}

/// Where the changes of one lane lie.
#[derive(Debug, Clone, Copy, PartialEq, Eq, Structural)]
pub struct LaneSnapshotLayout {
    pub threshold_indices: SnapshotSpan,
    pub recurrent_indices: SnapshotSpan,
    pub input_indices: SnapshotSpan,
    pub output_indices: SnapshotSpan,
    pub context_indices: SnapshotSpan,
    pub context_observations: SnapshotSpan,
    pub context_keys: SnapshotSpan,
    pub threshold_values: SnapshotSpan,
    pub recurrent_values: SnapshotSpan,
    pub input_values: SnapshotSpan,
    pub output_values: SnapshotSpan,
    pub context_embeddings: SnapshotSpan,
    pub output_bias: Option<SnapshotSpan>,
    pub context_output: Option<SnapshotSpan>,
}

/// The first free places of the three packed buffers.
#[derive(Debug, Clone, Copy, PartialEq, Eq, Structural)]
pub struct SnapshotCursors {
    pub words: usize,
    pub keys: usize,
    pub values: usize,
}

/// The sizes that a snapshot is laid out with.
#[derive(Debug, Clone, Copy, PartialEq, Eq, Structural)]
pub struct SnapshotShape {
    pub output_classes: usize,
    pub embedding_dim: usize,
    pub context_outputs: usize,
}

/// The place behind a stretch, held at the largest value.
pub open spec fn after_span(cursor: usize, len: int) -> usize {
    capped(cursor + len) as usize
}

/// A stretch at the cursor.
pub open spec fn span_at(cursor: usize, len: int) -> SnapshotSpan {
    SnapshotSpan { offset: cursor, len: len as usize }
}

/// Takes a stretch and moves the cursor behind it.
pub fn take_span(cursor: &mut usize, len: usize) -> (r: SnapshotSpan)
    ensures
        r == span_at(*old(cursor), len as int),
        *final(cursor) == after_span(*old(cursor), len as int),
{
    let span = SnapshotSpan { offset: *cursor, len };
    *cursor = (*cursor).saturating_add(len);
    span
}

/// The layout of one lane, from some cursors on.
#[verifier::opaque]
pub open spec fn lane_layout(
    c: SnapshotCursors,
    n: ChangeCounts,
    bias_dirty: bool,
    context_dirty: bool,
    s: SnapshotShape,
) -> (LaneSnapshotLayout, SnapshotCursors) {
    let outputs = capped(n.output * s.output_classes);
    let embeddings = capped(n.context * s.embedding_dim);
    let w1 = after_span(c.words, n.threshold as int);
    let w2 = after_span(w1, n.recurrent as int);
    let w3 = after_span(w2, n.input as int);
    let w4 = after_span(w3, n.output as int);
    let w5 = after_span(w4, n.context as int);
    let w6 = after_span(w5, n.context as int);
    let k1 = after_span(c.keys, n.context as int);
    let v1 = after_span(c.values, n.threshold as int);
    let v2 = after_span(v1, n.recurrent as int);
    let v3 = after_span(v2, n.input as int);
    let v4 = after_span(v3, outputs);
    let v5 = after_span(v4, embeddings);
    let v6 = if bias_dirty {
        after_span(v5, s.output_classes as int)
    } else {
        v5
    };
    let v7 = if context_dirty {
        after_span(v6, s.context_outputs as int)
    } else {
        v6
    };
    (
        LaneSnapshotLayout {
            threshold_indices: span_at(c.words, n.threshold as int),
            recurrent_indices: span_at(w1, n.recurrent as int),
            input_indices: span_at(w2, n.input as int),
            output_indices: span_at(w3, n.output as int),
            context_indices: span_at(w4, n.context as int),
            context_observations: span_at(w5, n.context as int),
            context_keys: span_at(c.keys, n.context as int),
            threshold_values: span_at(c.values, n.threshold as int),
            recurrent_values: span_at(v1, n.recurrent as int),
            input_values: span_at(v2, n.input as int),
            output_values: span_at(v3, outputs),
            context_embeddings: span_at(v4, embeddings),
            output_bias: if bias_dirty {
                Some(span_at(v5, s.output_classes as int))
            } else {
                None
            },
            context_output: if context_dirty {
                Some(span_at(v6, s.context_outputs as int))
            } else {
                None
            },
        },
        SnapshotCursors { words: w6, keys: k1, values: v7 },
    )
}

/// Lays out one lane and moves the cursors behind it.
pub fn layout_lane(
    cursors: &mut SnapshotCursors,
    n: &ChangeCounts,
    bias_dirty: bool,
    context_dirty: bool,
    s: &SnapshotShape,
) -> (r: LaneSnapshotLayout)
    ensures
        (r, *final(cursors)) == lane_layout(*old(cursors), *n, bias_dirty, context_dirty, *s),
{
    let mut words: usize = cursors.words;
    let mut keys: usize = cursors.keys;
    let mut values: usize = cursors.values;
    let threshold_indices = take_span(&mut words, n.threshold);
    let recurrent_indices = take_span(&mut words, n.recurrent);
    let input_indices = take_span(&mut words, n.input);
    let output_indices = take_span(&mut words, n.output);
    let context_indices = take_span(&mut words, n.context);
    let context_observations = take_span(&mut words, n.context);
    let context_keys = take_span(&mut keys, n.context);
    let threshold_values = take_span(&mut values, n.threshold);
    let recurrent_values = take_span(&mut values, n.recurrent);
    let input_values = take_span(&mut values, n.input);
    let output_values = take_span(&mut values, capped_product(n.output, s.output_classes));
    let context_embeddings = take_span(&mut values, capped_product(n.context, s.embedding_dim));
    let output_bias: Option<SnapshotSpan> = if bias_dirty {
        Some(take_span(&mut values, s.output_classes))
    } else {
        None
    };
    let context_output: Option<SnapshotSpan> = if context_dirty {
        Some(take_span(&mut values, s.context_outputs))
    } else {
        None
    };
    *cursors = SnapshotCursors { words, keys, values };
    proof {
        reveal(lane_layout);
    }
    LaneSnapshotLayout {
        threshold_indices,
        recurrent_indices,
        input_indices,
        output_indices,
        context_indices,
        context_observations,
        context_keys,
        threshold_values,
        recurrent_values,
        input_values,
        output_values,
        context_embeddings,
        output_bias,
        context_output,
    }
}

/// What a snapshot takes along.
#[derive(Debug, Clone, Copy, PartialEq, Eq, Structural)]
pub enum SnapshotKind {
    /// Everything that the lanes changed.
    Full,
    /// The context entries alone.
    ContextOnly,
}

/// The counters of a lane as they were read.
pub open spec fn counts_of(counts: Seq<u32>, lane: int) -> ChangeCounts {
    ChangeCounts {
        threshold: counts[lane * 5] as usize,
        recurrent: counts[lane * 5 + 1] as usize,
        input: counts[lane * 5 + 2] as usize,
        output: counts[lane * 5 + 3] as usize,
        context: counts[lane * 5 + 4] as usize,
    }
}

/// The counters of what a snapshot takes along.
pub open spec fn counts_taken(kind: SnapshotKind, n: ChangeCounts) -> ChangeCounts {
    match kind {
        SnapshotKind::Full => n,
        SnapshotKind::ContextOnly => ChangeCounts {
            threshold: 0,
            recurrent: 0,
            input: 0,
            output: 0,
            context: n.context,
        },
    }
}

/// The cursors behind the first `lanes` lanes.
pub open spec fn cursors_after(
    kind: SnapshotKind,
    counts: Seq<u32>,
    bias_dirty: Seq<bool>,
    context_dirty: Seq<bool>,
    s: SnapshotShape,
    lanes: int,
) -> SnapshotCursors
    decreases lanes,
{
    if lanes <= 0 {
        SnapshotCursors { words: 0, keys: 0, values: 0 }
    } else {
        layout_of(kind, counts, bias_dirty, context_dirty, s, lanes - 1).1
    }
}

/// The layout of a lane, and the cursors behind it.
pub open spec fn layout_of(
    kind: SnapshotKind,
    counts: Seq<u32>,
    bias_dirty: Seq<bool>,
    context_dirty: Seq<bool>,
    s: SnapshotShape,
    lane: int,
) -> (LaneSnapshotLayout, SnapshotCursors)
    decreases lane + 1,
{
    if lane < 0 {
        (
            lane_layout(
                SnapshotCursors { words: 0, keys: 0, values: 0 },
                ChangeCounts { threshold: 0, recurrent: 0, input: 0, output: 0, context: 0 },
                false,
                false,
                s,
            ).0,
            SnapshotCursors { words: 0, keys: 0, values: 0 },
        )
    } else {
        lane_layout(
            layout_of(kind, counts, bias_dirty, context_dirty, s, lane - 1).1,
            counts_taken(kind, counts_of(counts, lane)),
            kind == SnapshotKind::Full && bias_dirty[lane],
            kind == SnapshotKind::Full && context_dirty[lane],
            s,
        )
    }
}

/// The layout of a whole snapshot.
#[derive(Debug, Clone)]
pub struct SnapshotPlan {
    pub lanes: Vec<LaneSnapshotLayout>,
    /// The sizes of the packed buffers.
    pub totals: SnapshotCursors,
}

/// The counters of a lane as they were read.
pub fn read_counts(counts: &Vec<u32>, lane: usize) -> (r: ChangeCounts)
    requires
        lane * 5 + 5 <= counts.len(),
    ensures
        r == counts_of(counts@, lane as int),
{
    let base: usize = lane * 5;
    ChangeCounts {
        threshold: counts[base] as usize,
        recurrent: counts[base + 1] as usize,
        input: counts[base + 2] as usize,
        output: counts[base + 3] as usize,
        context: counts[base + 4] as usize,
    }
}

/// The message of a snapshot whose inputs do not match its lanes.
pub open spec fn mismatch_message(kind: SnapshotKind) -> Seq<char> {
    match kind {
        SnapshotKind::Full => "batched story snapshot metadata does not match lane count"@,
        SnapshotKind::ContextOnly =>
            "context-only batch snapshot metadata does not match lane count"@,
    }
}

/// The inputs of a snapshot match its lanes.
pub open spec fn metadata_matches(
    kind: SnapshotKind,
    lanes: nat,
    bias_dirty: nat,
    context_dirty: nat,
    revisions: nat,
    statistics: nat,
) -> bool {
    &&& revisions == lanes
    &&& statistics == lanes
    &&& kind == SnapshotKind::Full ==> bias_dirty == lanes && context_dirty == lanes
}

/// Refuses a snapshot whose inputs do not match its lanes.
pub fn check_metadata(
    kind: SnapshotKind,
    lanes: usize,
    bias_dirty: usize,
    context_dirty: usize,
    revisions: usize,
    statistics: usize,
) -> (r: LeoResult<()>)
    ensures
        metadata_matches(
            kind,
            lanes as nat,
            bias_dirty as nat,
            context_dirty as nat,
            revisions as nat,
            statistics as nat,
        ) ==> r is Ok,
        !metadata_matches(
            kind,
            lanes as nat,
            bias_dirty as nat,
            context_dirty as nat,
            revisions as nat,
            statistics as nat,
        ) ==> fails(r, LeoErrorKind::Cuda, mismatch_message(kind)),
{
    match kind {
        SnapshotKind::Full => if bias_dirty != lanes || context_dirty != lanes || revisions != lanes
            || statistics != lanes {
            Err(
                LeoError::cuda(
                    "batched story snapshot metadata does not match lane count".to_owned(),
                ),
            )
        } else {
            Ok(())
        },
        SnapshotKind::ContextOnly => if revisions != lanes || statistics != lanes {
            Err(
                LeoError::cuda(
                    "context-only batch snapshot metadata does not match lane count".to_owned(),
                ),
            )
        } else {
            Ok(())
        },
    }
}

/// The plan lays out every lane behind the one before it.
pub open spec fn snapshot_planned(
    kind: SnapshotKind,
    counts: Seq<u32>,
    bias_dirty: Seq<bool>,
    context_dirty: Seq<bool>,
    s: SnapshotShape,
    lanes: int,
    plan: SnapshotPlan,
) -> bool {
    &&& plan.lanes.len() == lanes
    &&& forall|l: int|
        0 <= l < lanes ==> #[trigger] plan.lanes@[l] == layout_of(
            kind,
            counts,
            bias_dirty,
            context_dirty,
            s,
            l,
        ).0
    &&& plan.totals == cursors_after(kind, counts, bias_dirty, context_dirty, s, lanes)
}

/// Lays out a snapshot. `counts` holds five counters for each lane.
pub fn plan_snapshot(
    kind: SnapshotKind,
    lanes: usize,
    counts: &Vec<u32>,
    bias_dirty: &Vec<bool>,
    context_dirty: &Vec<bool>,
    s: &SnapshotShape,
) -> (r: SnapshotPlan)
    requires
        counts.len() == lanes * 5,
        kind == SnapshotKind::Full ==> bias_dirty.len() == lanes && context_dirty.len() == lanes,
    ensures
        snapshot_planned(kind, counts@, bias_dirty@, context_dirty@, *s, lanes as int, r),
{
    let mut cursors = SnapshotCursors { words: 0, keys: 0, values: 0 };
    let mut list: Vec<LaneSnapshotLayout> = Vec::new();
    let mut l: usize = 0;
    while l < lanes
        invariant
            l <= lanes,
            counts.len() == lanes * 5,
            kind == SnapshotKind::Full ==> bias_dirty.len() == lanes && context_dirty.len()
                == lanes,
            list.len() == l,
            forall|k: int|
                0 <= k < l ==> #[trigger] list@[k] == layout_of(
                    kind,
                    counts@,
                    bias_dirty@,
                    context_dirty@,
                    *s,
                    k,
                ).0,
            cursors == cursors_after(kind, counts@, bias_dirty@, context_dirty@, *s, l as int),
        decreases lanes - l,
    {
        let read: ChangeCounts = read_counts(counts, l);
        let taken: ChangeCounts = match kind {
            SnapshotKind::Full => read,
            SnapshotKind::ContextOnly => ChangeCounts {
                threshold: 0,
                recurrent: 0,
                input: 0,
                output: 0,
                context: read.context,
            },
        };
        let bias: bool = match kind {
            SnapshotKind::Full => bias_dirty[l],
            SnapshotKind::ContextOnly => false,
        };
        let context: bool = match kind {
            SnapshotKind::Full => context_dirty[l],
            SnapshotKind::ContextOnly => false,
        };
        let layout: LaneSnapshotLayout = layout_lane(&mut cursors, &taken, bias, context, s);
        list.push(layout);
        proof {
            let here = l as int;
            let start = cursors_after(kind, counts@, bias_dirty@, context_dirty@, *s, here);
            assert(start == layout_of(
                kind,
                counts@,
                bias_dirty@,
                context_dirty@,
                *s,
                here - 1,
            ).1);
            assert(cursors_after(kind, counts@, bias_dirty@, context_dirty@, *s, here + 1)
                == layout_of(kind, counts@, bias_dirty@, context_dirty@, *s, here).1);
        }
        l = l + 1;
    }
    SnapshotPlan { lanes: list, totals: cursors }
}

/// No cursor has run into its largest value.
pub open spec fn in_range(c: SnapshotCursors) -> bool {
    c.words < usize::MAX && c.keys < usize::MAX && c.values < usize::MAX
}

/// The stretches of a lane follow each other between two cursors, without gap or overlap.
pub open spec fn tiles(
    l: LaneSnapshotLayout,
    from: SnapshotCursors,
    to: SnapshotCursors,
) -> bool {
    &&& l.threshold_indices.offset == from.words
    &&& l.recurrent_indices.offset == l.threshold_indices.end()
    &&& l.input_indices.offset == l.recurrent_indices.end()
    &&& l.output_indices.offset == l.input_indices.end()
    &&& l.context_indices.offset == l.output_indices.end()
    &&& l.context_observations.offset == l.context_indices.end()
    &&& to.words == l.context_observations.end()
    &&& l.context_keys.offset == from.keys
    &&& to.keys == l.context_keys.end()
    &&& l.threshold_values.offset == from.values
    &&& l.recurrent_values.offset == l.threshold_values.end()
    &&& l.input_values.offset == l.recurrent_values.end()
    &&& l.output_values.offset == l.input_values.end()
    &&& l.context_embeddings.offset == l.output_values.end()
    &&& {
        let v5 = l.context_embeddings.end();
        let v6 = match l.output_bias {
            Some(span) => span.end(),
            None => v5,
        };
        let v7 = match l.context_output {
            Some(span) => span.end(),
            None => v6,
        };
        &&& l.output_bias matches Some(span) ==> span.offset == v5
        &&& l.context_output matches Some(span) ==> span.offset == v6
        &&& to.values == v7
    }
}

/// The stretches of a lane follow each other without gap or overlap, as long as the buffers
/// can be addressed.
pub proof fn law_lane_spans_tile(
    c: SnapshotCursors,
    n: ChangeCounts,
    bias_dirty: bool,
    context_dirty: bool,
    s: SnapshotShape,
)
    requires
        in_range(lane_layout(c, n, bias_dirty, context_dirty, s).1),
    ensures
        tiles(
            lane_layout(c, n, bias_dirty, context_dirty, s).0,
            c,
            lane_layout(c, n, bias_dirty, context_dirty, s).1,
        ),
{
    reveal(lane_layout);
    assert(0 <= n.output * s.output_classes) by (nonlinear_arith);
    assert(0 <= n.context * s.embedding_dim) by (nonlinear_arith);
}

/// The lanes of a snapshot lie one behind the other: what comes before a lane ends where the
/// lane starts, and the last one ends with the buffers.
pub proof fn law_snapshot_lanes_are_disjoint(
    kind: SnapshotKind,
    counts: Seq<u32>,
    bias_dirty: Seq<bool>,
    context_dirty: Seq<bool>,
    s: SnapshotShape,
    lane: int,
    lanes: int,
)
    requires
        0 <= lane < lanes,
        in_range(cursors_after(kind, counts, bias_dirty, context_dirty, s, lanes)),
    ensures
        ({
            let from = cursors_after(kind, counts, bias_dirty, context_dirty, s, lane);
            let to = cursors_after(kind, counts, bias_dirty, context_dirty, s, lane + 1);
            let total = cursors_after(kind, counts, bias_dirty, context_dirty, s, lanes);
            &&& tiles(layout_of(kind, counts, bias_dirty, context_dirty, s, lane).0, from, to)
            &&& to.words <= total.words
            &&& to.keys <= total.keys
            &&& to.values <= total.values
            &&& in_range(to)
        }),
    decreases lanes - lane,
{
    let to = cursors_after(kind, counts, bias_dirty, context_dirty, s, lane + 1);
    let from = cursors_after(kind, counts, bias_dirty, context_dirty, s, lane);
    assert(to == layout_of(kind, counts, bias_dirty, context_dirty, s, lane).1);
    assert(from == layout_of(kind, counts, bias_dirty, context_dirty, s, lane - 1).1);
    if lane + 1 < lanes {
        law_snapshot_lanes_are_disjoint(
            kind,
            counts,
            bias_dirty,
            context_dirty,
            s,
            lane + 1,
            lanes,
        );
        let later = cursors_after(kind, counts, bias_dirty, context_dirty, s, lane + 2);
        lemma_tiles_ascend(
            layout_of(kind, counts, bias_dirty, context_dirty, s, lane + 1).0,
            to,
            later,
        );
    }
    assert(in_range(to));
    assert(layout_of(kind, counts, bias_dirty, context_dirty, s, lane) == lane_layout(
        from,
        counts_taken(kind, counts_of(counts, lane)),
        kind == SnapshotKind::Full && bias_dirty[lane],
        kind == SnapshotKind::Full && context_dirty[lane],
        s,
    ));
    law_lane_spans_tile(
        from,
        counts_taken(kind, counts_of(counts, lane)),
        kind == SnapshotKind::Full && bias_dirty[lane],
        kind == SnapshotKind::Full && context_dirty[lane],
        s,
    );
}

/// Stretches that follow each other never lead back.
proof fn lemma_tiles_ascend(l: LaneSnapshotLayout, from: SnapshotCursors, to: SnapshotCursors)
    requires
        tiles(l, from, to),
    ensures
        from.words <= to.words,
        from.keys <= to.keys,
        from.values <= to.values,
{
}

/// Stretches between two cursors lie inside buffers that reach as far.
proof fn lemma_tiles_inside(
    l: LaneSnapshotLayout,
    from: SnapshotCursors,
    to: SnapshotCursors,
    words: int,
    keys: int,
    values: int,
)
    requires
        tiles(l, from, to),
        to.words <= words,
        to.keys <= keys,
        to.values <= values,
    ensures
        layout_inside(l, words, keys, values),
{
}

/// What a lane changed, by value.
#[derive(Debug, Clone)]
pub struct TrackedModelValues {
    pub threshold: Vec<Scalar>,
    pub recurrent_weight: Vec<Scalar>,
    pub input_weight: Vec<Scalar>,
    /// The output weights of each listed neuron, class by class.
    pub output_weight_by_neuron: Vec<Scalar>,
    pub output_bias: Option<Vec<Scalar>>,
    pub context_keys: Vec<u64>,
    pub context_observations: Vec<u32>,
    pub context_embeddings: Vec<Scalar>,
    pub context_output_weight: Option<Vec<Scalar>>,
    pub revision_increment: u64,
    pub statistics: StatisticsDelta,
}

/// The elements of a stretch.
pub open spec fn cut<T>(s: Seq<T>, span: SnapshotSpan) -> Seq<T> {
    s.subrange(span.offset as int, span.end())
}

/// Words as indices.
pub open spec fn as_indices(s: Seq<u32>) -> Seq<usize> {
    Seq::new(s.len(), |i: int| s[i] as usize)
}

fn cut_values(all: &Vec<Scalar>, span: &SnapshotSpan) -> (r: Vec<Scalar>)
    requires
        span.inside(all.len() as int),
    ensures
        r@ == cut(all@, *span),
{
    let mut out: Vec<Scalar> = Vec::new();
    let mut i: usize = 0;
    while i < span.len
        invariant
            span.inside(all.len() as int),
            i <= span.len,
            out.len() == i,
            forall|k: int| 0 <= k < i ==> #[trigger] out@[k] == all@[span.offset + k],
        decreases span.len - i,
    {
        out.push(all[span.offset + i]);
        i = i + 1;
    }
    assert(out@ =~= cut(all@, *span));
    out
}

fn cut_keys(all: &Vec<u64>, span: &SnapshotSpan) -> (r: Vec<u64>)
    requires
        span.inside(all.len() as int),
    ensures
        r@ == cut(all@, *span),
{
    let mut out: Vec<u64> = Vec::new();
    let mut i: usize = 0;
    while i < span.len
        invariant
            span.inside(all.len() as int),
            i <= span.len,
            out.len() == i,
            forall|k: int| 0 <= k < i ==> #[trigger] out@[k] == all@[span.offset + k],
        decreases span.len - i,
    {
        out.push(all[span.offset + i]);
        i = i + 1;
    }
    assert(out@ =~= cut(all@, *span));
    out
}

fn cut_words(all: &Vec<u32>, span: &SnapshotSpan) -> (r: Vec<u32>)
    requires
        span.inside(all.len() as int),
    ensures
        r@ == cut(all@, *span),
{
    let mut out: Vec<u32> = Vec::new();
    let mut i: usize = 0;
    while i < span.len
        invariant
            span.inside(all.len() as int),
            i <= span.len,
            out.len() == i,
            forall|k: int| 0 <= k < i ==> #[trigger] out@[k] == all@[span.offset + k],
        decreases span.len - i,
    {
        out.push(all[span.offset + i]);
        i = i + 1;
    }
    assert(out@ =~= cut(all@, *span));
    out
}

fn cut_indices(all: &Vec<u32>, span: &SnapshotSpan) -> (r: Vec<usize>)
    requires
        span.inside(all.len() as int),
    ensures
        r@ == as_indices(cut(all@, *span)),
{
    let mut out: Vec<usize> = Vec::new();
    let mut i: usize = 0;
    while i < span.len
        invariant
            span.inside(all.len() as int),
            i <= span.len,
            out.len() == i,
            forall|k: int| 0 <= k < i ==> #[trigger] out@[k] == all@[span.offset + k] as usize,
        decreases span.len - i,
    {
        out.push(all[span.offset + i] as usize);
        i = i + 1;
    }
    assert(out@ =~= as_indices(cut(all@, *span)));
    out
}

/// Every stretch of a lane lies inside the packed buffers.
pub open spec fn layout_inside(
    l: LaneSnapshotLayout,
    words: int,
    keys: int,
    values: int,
) -> bool {
    &&& l.threshold_indices.inside(words)
    &&& l.recurrent_indices.inside(words)
    &&& l.input_indices.inside(words)
    &&& l.output_indices.inside(words)
    &&& l.context_indices.inside(words)
    &&& l.context_observations.inside(words)
    &&& l.context_keys.inside(keys)
    &&& l.threshold_values.inside(values)
    &&& l.recurrent_values.inside(values)
    &&& l.input_values.inside(values)
    &&& l.output_values.inside(values)
    &&& l.context_embeddings.inside(values)
    &&& l.output_bias matches Some(span) ==> span.inside(values)
    &&& l.context_output matches Some(span) ==> span.inside(values)
}

/// The changes are those that the layout names.
pub open spec fn changes_cut(
    l: LaneSnapshotLayout,
    words: Seq<u32>,
    bias_dirty: bool,
    context_dirty: bool,
    c: ParameterChanges,
) -> bool {
    &&& c.threshold@ == as_indices(cut(words, l.threshold_indices))
    &&& c.recurrent_weight@ == as_indices(cut(words, l.recurrent_indices))
    &&& c.input_weight@ == as_indices(cut(words, l.input_indices))
    &&& c.output_neurons@ == as_indices(cut(words, l.output_indices))
    &&& c.context_slots@ == as_indices(cut(words, l.context_indices))
    &&& c.output_bias_dirty == bias_dirty
    &&& c.context_output_dirty == context_dirty
}

/// The list is the stretch, or both are missing.
pub open spec fn optional_cut(
    values: Seq<Scalar>,
    span: Option<SnapshotSpan>,
    list: Option<Vec<Scalar>>,
) -> bool {
    match (span, list) {
        (Some(s), Some(v)) => v@ == cut(values, s),
        (None, None) => true,
        _ => false,
    }
}

/// The values are those that the layout names.
pub open spec fn values_cut(
    l: LaneSnapshotLayout,
    words: Seq<u32>,
    keys: Seq<u64>,
    values: Seq<Scalar>,
    revision: u64,
    statistics: StatisticsDelta,
    t: TrackedModelValues,
) -> bool {
    &&& t.threshold@ == cut(values, l.threshold_values)
    &&& t.recurrent_weight@ == cut(values, l.recurrent_values)
    &&& t.input_weight@ == cut(values, l.input_values)
    &&& t.output_weight_by_neuron@ == cut(values, l.output_values)
    &&& optional_cut(values, l.output_bias, t.output_bias)
    &&& t.context_keys@ == cut(keys, l.context_keys)
    &&& t.context_observations@ == cut(words, l.context_observations)
    &&& t.context_embeddings@ == cut(values, l.context_embeddings)
    &&& optional_cut(values, l.context_output, t.context_output_weight)
    &&& t.revision_increment == revision
    &&& t.statistics == statistics
}

fn cut_optional(all: &Vec<Scalar>, span: &Option<SnapshotSpan>) -> (r: Option<Vec<Scalar>>)
    requires
        *span matches Some(s) ==> s.inside(all.len() as int),
    ensures
        optional_cut(all@, *span, r),
{
    match span {
        Some(s) => Some(cut_values(all, s)),
        None => None,
    }
}

/// Takes the changes of one lane out of the packed buffers.
pub fn unpack_lane(
    layout: &LaneSnapshotLayout,
    words: &Vec<u32>,
    keys: &Vec<u64>,
    values: &Vec<Scalar>,
    bias_dirty: bool,
    context_dirty: bool,
    revision_increment: u64,
    statistics: StatisticsDelta,
) -> (r: (ParameterChanges, TrackedModelValues))
    requires
        layout_inside(*layout, words.len() as int, keys.len() as int, values.len() as int),
    ensures
        changes_cut(*layout, words@, bias_dirty, context_dirty, r.0),
        values_cut(*layout, words@, keys@, values@, revision_increment, statistics, r.1),
{
    let changes = ParameterChanges {
        threshold: cut_indices(words, &layout.threshold_indices),
        recurrent_weight: cut_indices(words, &layout.recurrent_indices),
        input_weight: cut_indices(words, &layout.input_indices),
        output_neurons: cut_indices(words, &layout.output_indices),
        context_slots: cut_indices(words, &layout.context_indices),
        output_bias_dirty: bias_dirty,
        context_output_dirty: context_dirty,
    };
    let tracked_values = TrackedModelValues {
        threshold: cut_values(values, &layout.threshold_values),
        recurrent_weight: cut_values(values, &layout.recurrent_values),
        input_weight: cut_values(values, &layout.input_values),
        output_weight_by_neuron: cut_values(values, &layout.output_values),
        output_bias: cut_optional(values, &layout.output_bias),
        context_keys: cut_keys(keys, &layout.context_keys),
        context_observations: cut_words(words, &layout.context_observations),
        context_embeddings: cut_values(values, &layout.context_embeddings),
        context_output_weight: cut_optional(values, &layout.context_output),
        revision_increment,
        statistics,
    };
    (changes, tracked_values)
}

/// Takes the changes of every lane out of the packed buffers.
pub fn unpack_snapshot(
    kind: SnapshotKind,
    plan: &SnapshotPlan,
    words: &Vec<u32>,
    keys: &Vec<u64>,
    values: &Vec<Scalar>,
    counts: &Vec<u32>,
    bias_dirty: &Vec<bool>,
    context_dirty: &Vec<bool>,
    s: &SnapshotShape,
    revisions: &Vec<u64>,
    statistics: &Vec<StatisticsDelta>,
) -> (r: Vec<(ParameterChanges, TrackedModelValues)>)
    requires
        snapshot_planned(
            kind,
            counts@,
            bias_dirty@,
            context_dirty@,
            *s,
            plan.lanes.len() as int,
            *plan,
        ),
        in_range(plan.totals),
        words.len() == plan.totals.words,
        keys.len() == plan.totals.keys,
        values.len() == plan.totals.values,
        metadata_matches(
            kind,
            plan.lanes@.len(),
            bias_dirty@.len(),
            context_dirty@.len(),
            revisions@.len(),
            statistics@.len(),
        ),
    ensures
        r.len() == plan.lanes.len(),
        forall|l: int|
            0 <= l < r.len() ==> {
                let entry = #[trigger] r@[l];
                let full = kind == SnapshotKind::Full;
                &&& changes_cut(
                    plan.lanes@[l],
                    words@,
                    full && bias_dirty@[l],
                    full && context_dirty@[l],
                    entry.0,
                )
                &&& values_cut(
                    plan.lanes@[l],
                    words@,
                    keys@,
                    values@,
                    revisions@[l],
                    statistics@[l],
                    entry.1,
                )
            },
{
    let mut out: Vec<(ParameterChanges, TrackedModelValues)> = Vec::new();
    let mut l: usize = 0;
    let count: usize = plan.lanes.len();
    while l < count
        invariant
            l <= count == plan.lanes.len(),
            snapshot_planned(
                kind,
                counts@,
                bias_dirty@,
                context_dirty@,
                *s,
                count as int,
                *plan,
            ),
            in_range(plan.totals),
            words.len() == plan.totals.words,
            keys.len() == plan.totals.keys,
            values.len() == plan.totals.values,
            metadata_matches(
                kind,
                plan.lanes@.len(),
                bias_dirty@.len(),
                context_dirty@.len(),
                revisions@.len(),
                statistics@.len(),
            ),
            out.len() == l,
            forall|k: int|
                0 <= k < l ==> {
                    let entry = #[trigger] out@[k];
                    let full = kind == SnapshotKind::Full;
                    &&& changes_cut(
                        plan.lanes@[k],
                        words@,
                        full && bias_dirty@[k],
                        full && context_dirty@[k],
                        entry.0,
                    )
                    &&& values_cut(
                        plan.lanes@[k],
                        words@,
                        keys@,
                        values@,
                        revisions@[k],
                        statistics@[k],
                        entry.1,
                    )
                },
        decreases count - l,
    {
        let layout: LaneSnapshotLayout = plan.lanes[l];
        proof {
            law_snapshot_lanes_are_disjoint(
                kind,
                counts@,
                bias_dirty@,
                context_dirty@,
                *s,
                l as int,
                count as int,
            );
            let from = cursors_after(kind, counts@, bias_dirty@, context_dirty@, *s, l as int);
            let to = cursors_after(kind, counts@, bias_dirty@, context_dirty@, *s, l + 1);
            lemma_tiles_inside(
                layout,
                from,
                to,
                words.len() as int,
                keys.len() as int,
                values.len() as int,
            );
        }
        let bias: bool = match kind {
            SnapshotKind::Full => bias_dirty[l],
            SnapshotKind::ContextOnly => false,
        };
        let context: bool = match kind {
            SnapshotKind::Full => context_dirty[l],
            SnapshotKind::ContextOnly => false,
        };
        let entry: (ParameterChanges, TrackedModelValues) = unpack_lane(
            &layout,
            words,
            keys,
            values,
            bias,
            context,
            revisions[l],
            statistics[l],
        );
        out.push(entry);
        l = l + 1;
    }
    out
}

} // verus!
