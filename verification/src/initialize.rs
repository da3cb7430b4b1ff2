//! Deterministic sparse initialization, one draw at a time.
//!
//! The builders say which number they need next and take it in; the numbers come from the
//! caller's generator. A recurrent synapse is drawn until it differs from the neuron's
//! other synapses, 128 times at most.

use crate::error::{fails, LeoError, LeoErrorKind, LeoResult};
use crate::model::{
    is_delay, SynapseArrays, BRANCH_CONTEXT_GATE, BRANCH_EXCITATORY, BRANCH_INHIBITORY,
    BRANCH_TEMPORAL,
};
use crate::scalar::Scalar;
use crate::text::{decimal, with_number};
use vstd::prelude::*;

verus! {

/// How often a synapse is drawn before the builder gives up.
pub const DRAWS_PER_SYNAPSE: usize = 128;

/// The delay that a draw below 100 stands for: half of them one tick, a quarter two, fifteen
/// four and ten eight.
pub open spec fn delay_of_draw(draw: usize) -> u8 {
    if draw < 50 {
        1
    } else if draw < 75 {
        2
    } else if draw < 90 {
        4
    } else {
        8
    }
}

/// The delay that a draw below 100 stands for.
pub fn sample_delay(draw: usize) -> (r: u8)
    ensures
        r == delay_of_draw(draw),
        is_delay(r),
{
    if draw < 50 {
        1
    } else if draw < 75 {
        2
    } else if draw < 90 {
        4
    } else {
        8
    }
}

/// The block that a local synapse aims at: the source's own or a neighbour, inside the
/// network.
pub open spec fn neighbour_block(source_block: int, draw: int, block_count: int) -> int {
    let block = source_block + draw - 1;
    if block < 0 {
        0
    } else if block > block_count - 1 {
        block_count - 1
    } else {
        block
    }
}

/// The branch that an excitatory synapse ends on, for a draw below three.
pub open spec fn branch_of_draw(draw: usize) -> u8 {
    if draw == 0 {
        BRANCH_EXCITATORY
    } else if draw == 1 {
        BRANCH_TEMPORAL
    } else {
        BRANCH_CONTEXT_GATE
    }
}

/// The branch that a symbol's `index`-th synapse ends on.
pub open spec fn input_branch(index: int) -> u8 {
    if index % 8 == 6 {
        BRANCH_TEMPORAL
    } else if index % 8 == 7 {
        BRANCH_CONTEXT_GATE
    } else {
        BRANCH_EXCITATORY
    }
}

/// The branch that a symbol's `index`-th synapse ends on.
pub fn input_branch_for(index: usize) -> (r: u8)
    ensures
        r == input_branch(index as int),
        r != BRANCH_INHIBITORY,
        r <= BRANCH_CONTEXT_GATE,
{
    let place: usize = index % 8;
    if place == 6 {
        BRANCH_TEMPORAL
    } else if place == 7 {
        BRANCH_CONTEXT_GATE
    } else {
        BRANCH_EXCITATORY
    }
}

/// Where a synapse ends.
#[derive(Debug, Clone, Copy, PartialEq, Eq, Structural)]
pub struct Ending {
    pub target: usize,
    pub branch: u8,
}

/// What the network looks like to the builder.
#[derive(Debug, Clone, Copy)]
pub struct NetworkShape {
    pub neuron_count: usize,
    pub block_count: usize,
    pub neurons_per_block: usize,
    pub synapses_per_neuron: usize,
}

impl NetworkShape {
    /// Blocks of equal size cover the neurons, and synapses can be counted.
    pub open spec fn wf(self) -> bool {
        &&& 0 < self.block_count
        &&& 0 < self.neurons_per_block
        &&& self.block_count * self.neurons_per_block == self.neuron_count
        &&& self.neuron_count <= u32::MAX
        &&& self.neuron_count * self.synapses_per_neuron <= usize::MAX
        &&& self.synapses_per_neuron * 3 <= usize::MAX
    }

    /// Whether a neuron's synapse stays near: the first three quarters do.
    pub open spec fn is_local(self, local_slot: int) -> bool {
        local_slot < self.synapses_per_neuron * 3 / 4
    }
}

/// The number that a builder needs next.
#[derive(Debug, Clone, Copy, PartialEq, Eq, Structural)]
pub enum DrawRequest {
    /// A number below three: which neighbouring block.
    Neighbour,
    /// A number below the block size: which neuron of the block.
    WithinBlock(usize),
    /// A number below the neuron count: which neuron of the network.
    Anywhere(usize),
    /// A number below three: which branch.
    Branch,
    /// A number below a hundred: which delay.
    Delay,
    /// A weight, negative where the source is inhibitory.
    Weight(bool),
    /// Nothing: every synapse is built.
    Nothing,
}

/// Where the builder is in drawing one synapse.
#[derive(Debug, Clone, Copy, PartialEq, Eq, Structural)]
pub enum DrawStage {
    Start,
    InBlock(usize),
    OnTarget(usize),
    ForDelay(Ending),
    ForWeight(Ending, u8),
}

/// Builds the recurrent synapses.
#[derive(Debug)]
pub struct RecurrentBuilder {
    pub shape: NetworkShape,
    pub neuron_type: Vec<u8>,
    pub source: usize,
    pub local_slot: usize,
    /// How often the current synapse was drawn.
    pub draws: usize,
    pub stage: DrawStage,
    /// Where the current neuron's synapses end.
    pub used: Vec<Ending>,
    pub synapses: SynapseArrays,
}

/// A built synapse keeps the rules of its source: it ends in the network, on the branch of
/// its kind, has a delay and a weight of its sign.
pub open spec fn synapse_ok(
    shape: NetworkShape,
    neuron_type: Seq<u8>,
    s: SynapseArrays,
    slot: int,
    source: int,
) -> bool {
    &&& s.target_neuron[slot] < shape.neuron_count
    &&& is_delay(s.delay[slot])
    &&& s.target_branch[slot] <= BRANCH_CONTEXT_GATE
    &&& if neuron_type[source] == 0 {
        &&& s.target_branch[slot] != BRANCH_INHIBITORY
        &&& (Scalar { bits: 0 }).at_most(s.weight[slot])
    } else {
        &&& s.target_branch[slot] == BRANCH_INHIBITORY
        &&& s.weight[slot].at_most(Scalar { bits: 0 })
    }
    &&& s.target_neuron[slot] == source ==> s.target_branch[slot] == BRANCH_TEMPORAL
}

impl RecurrentBuilder {
    /// The synapses built so far.
    pub open spec fn built(self) -> int {
        self.synapses.target_neuron.len() as int
    }

    /// What is built keeps the rules, and no two synapses of a neuron end at the same place.
    pub open spec fn wf(self) -> bool {
        let c = self.shape.synapses_per_neuron as int;
        &&& self.shape.wf()
        &&& 0 < c
        &&& self.neuron_type.len() == self.shape.neuron_count
        &&& self.source <= self.shape.neuron_count
        &&& self.local_slot < c
        &&& self.source == self.shape.neuron_count ==> self.local_slot == 0
        &&& self.built() == self.source * c + self.local_slot
        &&& self.synapses.capacity_per_neuron == c
        &&& self.synapses.target_branch.len() == self.built()
        &&& self.synapses.delay.len() == self.built()
        &&& self.synapses.weight.len() == self.built()
        &&& self.draws < DRAWS_PER_SYNAPSE
        &&& forall|i: int|
            0 <= i < self.built() ==> #[trigger] synapse_ok(
                self.shape,
                self.neuron_type@,
                self.synapses,
                i,
                i / c,
            )
        &&& match self.stage {
            DrawStage::Start => true,
            DrawStage::InBlock(block) => block < self.shape.block_count
                && self.shape.is_local(self.local_slot as int),
            DrawStage::OnTarget(target) => target < self.shape.neuron_count
                && self.source < self.shape.neuron_count && self.neuron_type[self.source as int]
                == 0,
            DrawStage::ForDelay(e) => self.taken(e),
            DrawStage::ForWeight(e, delay) => self.taken(e) && is_delay(delay),
        }
        &&& self.used.len() == self.local_slot + (if self.choosing() {
            0int
        } else {
            1
        })
        &&& self.used@.no_duplicates()
        &&& forall|k: int|
            0 <= k < self.local_slot ==> self.source < self.shape.neuron_count
                && #[trigger] self.used[k] == (Ending {
                target: self.synapses.target_neuron[self.source * c + k] as usize,
                branch: self.synapses.target_branch[self.source * c + k],
            })
        &&& forall|s: int, a: int, b: int|
            0 <= s < self.source && 0 <= a < b < c ==> #[trigger] ending_at(
                self.synapses,
                s * c + a,
            ) != #[trigger] ending_at(self.synapses, s * c + b)
    }

    /// The place where the current synapse ends is still being chosen.
    pub open spec fn choosing(self) -> bool {
        match self.stage {
            DrawStage::ForDelay(_) => false,
            DrawStage::ForWeight(_, _) => false,
            _ => true,
        }
    }

    /// The place was chosen for the current synapse: it obeys the rules of its source and
    /// stands last on the list of used ones.
    pub open spec fn taken(self, e: Ending) -> bool {
        &&& self.source < self.shape.neuron_count
        &&& e.target < self.shape.neuron_count
        &&& e.branch <= BRANCH_CONTEXT_GATE
        &&& (self.neuron_type[self.source as int] == 0 <==> e.branch != BRANCH_INHIBITORY)
        &&& e.target == self.source ==> e.branch == BRANCH_TEMPORAL
        &&& self.used.len() > 0
        &&& self.used@.last() == e
    }
}

/// Where a synapse ends.
pub open spec fn ending_at(s: SynapseArrays, slot: int) -> (u32, u8) {
    (s.target_neuron[slot], s.target_branch[slot])
}

impl RecurrentBuilder {
    /// The number that is needed next.
    pub open spec fn wanted(self) -> DrawRequest {
        if self.source == self.shape.neuron_count {
            DrawRequest::Nothing
        } else {
            match self.stage {
                DrawStage::Start => if self.shape.is_local(self.local_slot as int) {
                    DrawRequest::Neighbour
                } else {
                    DrawRequest::Anywhere(self.shape.neuron_count)
                },
                DrawStage::InBlock(_) => DrawRequest::WithinBlock(self.shape.neurons_per_block),
                DrawStage::OnTarget(_) => DrawRequest::Branch,
                DrawStage::ForDelay(_) => DrawRequest::Delay,
                DrawStage::ForWeight(_, _) => DrawRequest::Weight(
                    self.neuron_type[self.source as int] != 0,
                ),
            }
        }
    }

    /// A draw that answers the request.
    pub open spec fn answers(self, draw: usize) -> bool {
        match self.wanted() {
            DrawRequest::Neighbour => draw < 3,
            DrawRequest::WithinBlock(n) => draw < n,
            DrawRequest::Anywhere(n) => draw < n,
            DrawRequest::Branch => draw < 3,
            DrawRequest::Delay => draw < 100,
            DrawRequest::Weight(_) => false,
            DrawRequest::Nothing => false,
        }
    }

    /// Whether a synapse may end there: not on its own neuron, but for delayed evidence, and
    /// not where another synapse of the neuron ends.
    pub open spec fn may_end(self, e: Ending) -> bool {
        !(e.target == self.source && e.branch != BRANCH_TEMPORAL) && !self.used@.contains(e)
    }

    /// What comes of proposing a place for the current synapse.
    pub open spec fn proposed(self, after: RecurrentBuilder, e: Ending, r: LeoResult<()>) -> bool {
        if self.may_end(e) {
            &&& r is Ok
            &&& after.stage == DrawStage::ForDelay(e)
            &&& after.used@ == self.used@.push(e)
            &&& after.draws == self.draws
        } else if self.draws + 1 < DRAWS_PER_SYNAPSE {
            &&& r is Ok
            &&& after.stage == DrawStage::Start
            &&& after.used@ == self.used@
            &&& after.draws == self.draws + 1
        } else {
            &&& fails(
                r,
                LeoErrorKind::Internal,
                "could not initialize unique synapse for neuron "@ + decimal(self.source as nat)
                    + ""@,
            )
            &&& after.stage == DrawStage::Start
            &&& after.used@ == self.used@
            &&& after.draws == self.draws
        }
    }

    /// What comes of a target for the current synapse.
    pub open spec fn aimed(self, after: RecurrentBuilder, target: usize, r: LeoResult<()>) -> bool {
        if self.neuron_type[self.source as int] == 0 {
            &&& r is Ok
            &&& after.stage == DrawStage::OnTarget(target)
            &&& after.used@ == self.used@
            &&& after.draws == self.draws
        } else {
            self.proposed(after, Ending { target, branch: BRANCH_INHIBITORY }, r)
        }
    }

    /// What comes of a draw.
    pub open spec fn drew(self, after: RecurrentBuilder, draw: usize, r: LeoResult<()>) -> bool {
        &&& after.shape == self.shape
        &&& after.neuron_type == self.neuron_type
        &&& after.source == self.source
        &&& after.local_slot == self.local_slot
        &&& after.synapses == self.synapses
        &&& match self.stage {
            DrawStage::Start => if self.shape.is_local(self.local_slot as int) {
                &&& r is Ok
                &&& after.stage == DrawStage::InBlock(
                    neighbour_block(
                        self.source as int / self.shape.neurons_per_block as int,
                        draw as int,
                        self.shape.block_count as int,
                    ) as usize,
                )
                &&& after.used@ == self.used@
                &&& after.draws == self.draws
            } else {
                self.aimed(after, draw, r)
            },
            DrawStage::InBlock(block) => self.aimed(
                after,
                (block * self.shape.neurons_per_block + draw) as usize,
                r,
            ),
            DrawStage::OnTarget(target) => self.proposed(
                after,
                Ending { target, branch: branch_of_draw(draw) },
                r,
            ),
            DrawStage::ForDelay(e) => {
                &&& r is Ok
                &&& after.stage == DrawStage::ForWeight(e, delay_of_draw(draw))
                &&& after.used@ == self.used@
                &&& after.draws == self.draws
            },
            DrawStage::ForWeight(_, _) => true,
        }
    }

    /// What comes of a weight: the current synapse is built, and the next one is begun.
    pub open spec fn weighed(self, after: RecurrentBuilder, weight: Scalar) -> bool {
        let e = self.stage->ForWeight_0;
        let s = after.synapses;
        let t = self.synapses;
        let last = self.local_slot + 1 == self.shape.synapses_per_neuron;
        &&& after.shape == self.shape
        &&& after.neuron_type == self.neuron_type
        &&& after.stage == DrawStage::Start
        &&& after.draws == 0
        &&& after.source == self.source + (if last {
            1int
        } else {
            0
        })
        &&& after.local_slot == (if last {
            0int
        } else {
            self.local_slot + 1
        })
        &&& after.used@ == (if last {
            Seq::<Ending>::empty()
        } else {
            self.used@
        })
        &&& s.capacity_per_neuron == t.capacity_per_neuron
        &&& s.target_neuron@ == t.target_neuron@.push(e.target as u32)
        &&& s.target_branch@ == t.target_branch@.push(e.branch)
        &&& s.delay@ == t.delay@.push(self.stage->ForWeight_1)
        &&& s.weight@ == t.weight@.push(weight)
    }

    /// A builder that has built nothing.
    pub fn new(shape: NetworkShape, neuron_type: Vec<u8>) -> (r: Self)
        requires
            shape.wf(),
            0 < shape.synapses_per_neuron,
            neuron_type.len() == shape.neuron_count,
        ensures
            r.wf(),
            r.shape == shape,
            r.neuron_type == neuron_type,
            r.built() == 0,
            r.stage == DrawStage::Start,
            r.draws == 0,
    {
        RecurrentBuilder {
            shape,
            neuron_type,
            source: 0,
            local_slot: 0,
            draws: 0,
            stage: DrawStage::Start,
            used: Vec::new(),
            synapses: SynapseArrays {
                capacity_per_neuron: shape.synapses_per_neuron,
                target_neuron: Vec::new(),
                target_branch: Vec::new(),
                delay: Vec::new(),
                weight: Vec::new(),
            },
        }
    }

    /// The number that is needed next.
    pub fn request(&self) -> (r: DrawRequest)
        requires
            self.wf(),
        ensures
            r == self.wanted(),
    {
        if self.source == self.shape.neuron_count {
            return DrawRequest::Nothing;
        }
        match self.stage {
            DrawStage::Start => {
                if self.local_slot < self.shape.synapses_per_neuron * 3 / 4 {
                    DrawRequest::Neighbour
                } else {
                    DrawRequest::Anywhere(self.shape.neuron_count)
                }
            },
            DrawStage::InBlock(_) => DrawRequest::WithinBlock(self.shape.neurons_per_block),
            DrawStage::OnTarget(_) => DrawRequest::Branch,
            DrawStage::ForDelay(_) => DrawRequest::Delay,
            DrawStage::ForWeight(_, _) => DrawRequest::Weight(self.neuron_type[self.source] != 0),
        }
    }

    fn is_used(&self, e: Ending) -> (r: bool)
        ensures
            r == self.used@.contains(e),
    {
        let mut i: usize = 0;
        while i < self.used.len()
            invariant
                i <= self.used.len(),
                forall|k: int| 0 <= k < i ==> #[trigger] self.used[k] != e,
            decreases self.used.len() - i,
        {
            if self.used[i] == e {
                assert(self.used@[i as int] == e);
                return true;
            }
            i = i + 1;
        }
        false
    }

    fn propose(&mut self, e: Ending) -> (r: LeoResult<()>)
        requires
            old(self).wf(),
            old(self).choosing(),
            old(self).source < old(self).shape.neuron_count,
            e.target < old(self).shape.neuron_count,
            e.branch <= BRANCH_CONTEXT_GATE,
            old(self).neuron_type[old(self).source as int] == 0 <==> e.branch != BRANCH_INHIBITORY,
        ensures
            final(self).wf(),
            old(self).proposed(*final(self), e, r),
            final(self).shape == old(self).shape,
            final(self).neuron_type == old(self).neuron_type,
            final(self).source == old(self).source,
            final(self).local_slot == old(self).local_slot,
            final(self).synapses == old(self).synapses,
    {
        let own: bool = e.target == self.source && e.branch != BRANCH_TEMPORAL;
        if !own && !self.is_used(e) {
            let ghost before = self.used@;
            self.used.push(e);
            self.stage = DrawStage::ForDelay(e);
            proof {
                assert forall|a: int, b: int|
                    0 <= a < self.used.len() && 0 <= b < self.used.len() && a
                        != b implies self.used@[a] != self.used@[b] by {
                    if a == before.len() {
                        assert(before.contains(before[b]));
                    } else if b == before.len() {
                        assert(before.contains(before[a]));
                    }
                }
            }
            return Ok(());
        }
        self.stage = DrawStage::Start;
        if self.draws + 1 < DRAWS_PER_SYNAPSE {
            self.draws = self.draws + 1;
            return Ok(());
        }
        Err(
            LeoError::internal(
                with_number(
                    "could not initialize unique synapse for neuron ",
                    self.source as u64,
                    "",
                ),
            ),
        )
    }

    fn aim(&mut self, target: usize) -> (r: LeoResult<()>)
        requires
            old(self).wf(),
            old(self).choosing(),
            old(self).source < old(self).shape.neuron_count,
            target < old(self).shape.neuron_count,
        ensures
            final(self).wf(),
            old(self).aimed(*final(self), target, r),
            final(self).shape == old(self).shape,
            final(self).neuron_type == old(self).neuron_type,
            final(self).source == old(self).source,
            final(self).local_slot == old(self).local_slot,
            final(self).synapses == old(self).synapses,
    {
        if self.neuron_type[self.source] == 0 {
            self.stage = DrawStage::OnTarget(target);
            return Ok(());
        }
        self.propose(Ending { target, branch: BRANCH_INHIBITORY })
    }

    /// Takes in the number that was asked for.
    pub fn supply(&mut self, draw: usize) -> (r: LeoResult<()>)
        requires
            old(self).wf(),
            old(self).answers(draw),
        ensures
            final(self).wf(),
            old(self).drew(*final(self), draw, r),
    {
        match self.stage {
            DrawStage::Start => {
                if self.local_slot < self.shape.synapses_per_neuron * 3 / 4 {
                    let own: usize = self.source / self.shape.neurons_per_block;
                    proof {
                        crate::model::lemma_source_of_slot(
                            self.source as int,
                            self.shape.block_count as int,
                            self.shape.neurons_per_block as int,
                        );
                    }
                    let block: usize = if draw == 0 {
                        if own == 0 {
                            0
                        } else {
                            own - 1
                        }
                    } else if draw == 1 || own == self.shape.block_count - 1 {
                        own
                    } else {
                        own + 1
                    };
                    self.stage = DrawStage::InBlock(block);
                    Ok(())
                } else {
                    self.aim(draw)
                }
            },
            DrawStage::InBlock(block) => {
                proof {
                    crate::runtime::lemma_place(
                        block as int,
                        draw as int,
                        self.shape.block_count as int,
                        self.shape.neurons_per_block as int,
                    );
                    assert(0 <= block * self.shape.neurons_per_block) by (nonlinear_arith);
                }
                let target: usize = block * self.shape.neurons_per_block + draw;
                self.aim(target)
            },
            DrawStage::OnTarget(target) => {
                let branch: u8 = if draw == 0 {
                    BRANCH_EXCITATORY
                } else if draw == 1 {
                    BRANCH_TEMPORAL
                } else {
                    BRANCH_CONTEXT_GATE
                };
                self.propose(Ending { target, branch })
            },
            DrawStage::ForDelay(e) => {
                self.stage = DrawStage::ForWeight(e, sample_delay(draw));
                Ok(())
            },
            DrawStage::ForWeight(_, _) => Ok(()),
        }
    }

    /// Takes in the weight that was asked for; the synapse is then built.
    pub fn supply_weight(&mut self, weight: Scalar)
        requires
            old(self).wf(),
            old(self).stage is ForWeight,
            old(self).neuron_type[old(self).source as int] == 0 ==> (Scalar { bits: 0 }).at_most(
                weight,
            ),
            old(self).neuron_type[old(self).source as int] != 0 ==> weight.at_most(
                Scalar { bits: 0 },
            ),
        ensures
            final(self).wf(),
            old(self).weighed(*final(self), weight),
    {
        let ghost before = *self;
        let ghost c = self.shape.synapses_per_neuron as int;
        let ghost at = self.built();
        if let DrawStage::ForWeight(e, delay) = self.stage {
            self.synapses.target_neuron.push(e.target as u32);
            self.synapses.target_branch.push(e.branch);
            self.synapses.delay.push(delay);
            self.synapses.weight.push(weight);
        }
        proof {
            crate::runtime::lemma_place(
                before.source as int,
                before.local_slot as int,
                before.shape.neuron_count as int,
                c,
            );
            assert forall|i: int| 0 <= i < self.built() implies #[trigger] synapse_ok(
                self.shape,
                self.neuron_type@,
                self.synapses,
                i,
                i / c,
            ) by {
                if i < at {
                    assert(synapse_ok(
                        before.shape,
                        before.neuron_type@,
                        before.synapses,
                        i,
                        i / c,
                    ));
                }
            }
            assert forall|s: int, a: int, b: int|
                0 <= s < before.source && 0 <= a < b < c implies #[trigger] ending_at(
                self.synapses,
                s * c + a,
            ) != #[trigger] ending_at(self.synapses, s * c + b) by {
                lemma_earlier(s, a, before.source as int, c);
                lemma_earlier(s, b, before.source as int, c);
                assert(ending_at(before.synapses, s * c + a) != ending_at(
                    before.synapses,
                    s * c + b,
                ));
            }
            assert forall|k: int| 0 <= k <= before.local_slot implies #[trigger] before.used[k]
                == (Ending {
                target: self.synapses.target_neuron[before.source * c + k] as usize,
                branch: self.synapses.target_branch[before.source * c + k],
            }) by {
                if k == before.local_slot {
                    assert(before.used@.last() == before.used[k]);
                }
            }
        }
        self.stage = DrawStage::Start;
        self.draws = 0;
        if self.local_slot + 1 < self.shape.synapses_per_neuron {
            self.local_slot = self.local_slot + 1;
        } else {
            proof {
                assert forall|s: int, a: int, b: int|
                    0 <= s < before.source + 1 && 0 <= a < b < c implies #[trigger] ending_at(
                    self.synapses,
                    s * c + a,
                ) != #[trigger] ending_at(self.synapses, s * c + b) by {
                    if s == before.source {
                        assert(before.used[a] != before.used[b]);
                    }
                }
                assert((before.source + 1) * c == before.source * c + c) by (nonlinear_arith);
            }
            self.source = self.source + 1;
            self.local_slot = 0;
            self.used = Vec::new();
        }
    }
}

/// A synapse of an earlier neuron stands before those of a later one.
proof fn lemma_earlier(s: int, a: int, source: int, c: int)
    requires
        0 <= s < source,
        0 <= a < c,
    ensures
        0 <= s * c + a < source * c,
{
    assert(0 <= s * c + a < source * c) by (nonlinear_arith)
        requires
            0 <= s < source,
            0 <= a < c,
    ;
}

/// A finished builder has built every synapse; each keeps the rules of its source, and no
/// two synapses of a neuron end at the same place.
pub proof fn law_finished_network(b: RecurrentBuilder)
    requires
        b.wf(),
        b.wanted() == DrawRequest::Nothing,
    ensures
        b.built() == b.shape.neuron_count * b.shape.synapses_per_neuron,
        forall|i: int|
            0 <= i < b.built() ==> #[trigger] synapse_ok(
                b.shape,
                b.neuron_type@,
                b.synapses,
                i,
                i / b.shape.synapses_per_neuron as int,
            ),
        forall|s: int, x: int, y: int|
            0 <= s < b.shape.neuron_count && 0 <= x < y < b.shape.synapses_per_neuron
                ==> #[trigger] ending_at(b.synapses, s * b.shape.synapses_per_neuron + x)
                != #[trigger] ending_at(b.synapses, s * b.shape.synapses_per_neuron + y),
{
}

/// A local synapse ends in the block of its source or in one beside it.
pub proof fn law_local_synapses_stay_near(source_block: int, draw: int, block_count: int)
    requires
        0 <= source_block < block_count,
        0 <= draw < 3,
    ensures
        0 <= neighbour_block(source_block, draw, block_count) < block_count,
        source_block - 1 <= neighbour_block(source_block, draw, block_count) <= source_block + 1,
{
}

/// Types of the neurons after the first `upto` of a shuffled list became inhibitory.
pub open spec fn with_inhibitory(types: Seq<u8>, ids: Seq<usize>, upto: int) -> Seq<u8>
    decreases upto,
{
    if upto <= 0 {
        types
    } else {
        with_inhibitory(types, ids, upto - 1).update(ids[upto - 1] as int, 1)
    }
}

/// Makes the first `count` neurons of a shuffled list inhibitory.
pub fn mark_inhibitory(neuron_type: &mut Vec<u8>, ids: &Vec<usize>, count: usize)
    requires
        forall|i: int| 0 <= i < ids.len() ==> (#[trigger] ids[i]) < old(neuron_type).len(),
    ensures
        final(neuron_type)@ == with_inhibitory(
            old(neuron_type)@,
            ids@,
            if count < ids.len() {
                count as int
            } else {
                ids.len() as int
            },
        ),
{
    let mut i: usize = 0;
    while i < ids.len() && i < count
        invariant
            i <= ids.len(),
            i <= count,
            neuron_type.len() == old(neuron_type).len(),
            forall|k: int| 0 <= k < ids.len() ==> (#[trigger] ids[k]) < neuron_type.len(),
            neuron_type@ == with_inhibitory(old(neuron_type)@, ids@, i as int),
        decreases ids.len() - i,
    {
        neuron_type.set(ids[i], 1);
        i = i + 1;
    }
}

/// The neuron that the `k`-th synapse of a symbol reaches.
pub open spec fn reaches(targets: Seq<u32>, fanout: int, symbol: int, k: int) -> u32 {
    targets[symbol * fanout + k]
}

/// Builds the synapses by which the symbols reach the network.
#[derive(Debug)]
pub struct InputBuilder {
    pub symbol_count: usize,
    pub fanout: usize,
    pub neuron_count: usize,
    pub symbol: usize,
    pub index: usize,
    /// The neuron that the current synapse reaches, once it is chosen.
    pub chosen: Option<usize>,
    /// The neurons that the current symbol's synapses reach.
    pub used: Vec<usize>,
    pub targets: Vec<u32>,
    pub branches: Vec<u8>,
    pub weights: Vec<Scalar>,
}

impl InputBuilder {
    /// What is built keeps the rules, and no symbol reaches a neuron twice.
    pub open spec fn wf(self) -> bool {
        let f = self.fanout as int;
        &&& 0 < f
        &&& self.neuron_count <= u32::MAX
        &&& self.symbol_count * f <= usize::MAX
        &&& self.symbol <= self.symbol_count
        &&& self.index < f
        &&& self.symbol == self.symbol_count ==> self.index == 0 && self.chosen is None
        &&& self.targets.len() == self.symbol * f + self.index
        &&& self.branches.len() == self.targets.len()
        &&& self.weights.len() == self.targets.len()
        &&& self.used.len() == self.index
        &&& self.used@.no_duplicates()
        &&& (self.chosen matches Some(t) ==> t < self.neuron_count && !self.used@.contains(t))
        &&& forall|k: int|
            0 <= k < self.index ==> #[trigger] self.used[k] == self.targets[self.symbol * f + k]
        &&& forall|i: int|
            0 <= i < self.targets.len() ==> {
                &&& (#[trigger] self.targets[i]) < self.neuron_count
                &&& self.branches[i] == input_branch(i % f)
                &&& (Scalar { bits: 0 }).at_most(self.weights[i])
            }
        &&& forall|s: int, a: int, b: int|
            0 <= s < self.symbol && 0 <= a < b < f ==> #[trigger] reaches(self.targets@, f, s, a)
                != #[trigger] reaches(self.targets@, f, s, b)
    }

    /// What comes of a weight: the current synapse is built, and the next one is begun.
    pub open spec fn weighed(self, after: InputBuilder, weight: Scalar) -> bool {
        let last = self.index + 1 == self.fanout;
        &&& after.symbol_count == self.symbol_count
        &&& after.fanout == self.fanout
        &&& after.neuron_count == self.neuron_count
        &&& after.chosen is None
        &&& after.symbol == self.symbol + (if last {
            1int
        } else {
            0
        })
        &&& after.index == (if last {
            0int
        } else {
            self.index + 1
        })
        &&& after.used@ == (if last {
            Seq::<usize>::empty()
        } else {
            self.used@.push(self.chosen->0)
        })
        &&& after.targets@ == self.targets@.push(self.chosen->0 as u32)
        &&& after.branches@ == self.branches@.push(input_branch(self.index as int))
        &&& after.weights@ == self.weights@.push(weight)
    }

    /// A builder that has built nothing.
    pub fn new(symbol_count: usize, fanout: usize, neuron_count: usize) -> (r: LeoResult<Self>)
        requires
            0 < fanout,
            neuron_count <= u32::MAX,
        ensures
            symbol_count * fanout > usize::MAX ==> fails(
                r,
                LeoErrorKind::Internal,
                "input projection size overflow"@,
            ),
            symbol_count * fanout <= usize::MAX ==> r is Ok,
            r matches Ok(b) ==> {
                &&& b.wf()
                &&& b.symbol_count == symbol_count
                &&& b.fanout == fanout
                &&& b.neuron_count == neuron_count
                &&& b.targets@.len() == 0
                &&& b.chosen is None
            },
    {
        if symbol_count.checked_mul(fanout).is_none() {
            return Err(LeoError::internal("input projection size overflow".to_owned()));
        }
        Ok(
            InputBuilder {
                symbol_count,
                fanout,
                neuron_count,
                symbol: 0,
                index: 0,
                chosen: None,
                used: Vec::new(),
                targets: Vec::new(),
                branches: Vec::new(),
                weights: Vec::new(),
            },
        )
    }

    /// The number that is needed next.
    pub fn request(&self) -> (r: DrawRequest)
        requires
            self.wf(),
        ensures
            r == (if self.symbol == self.symbol_count {
                DrawRequest::Nothing
            } else if self.chosen is Some {
                DrawRequest::Weight(false)
            } else {
                DrawRequest::Anywhere(self.neuron_count)
            }),
    {
        if self.symbol == self.symbol_count {
            DrawRequest::Nothing
        } else if self.chosen.is_some() {
            DrawRequest::Weight(false)
        } else {
            DrawRequest::Anywhere(self.neuron_count)
        }
    }

    /// Takes in a neuron for the current synapse; one that the symbol reaches already is
    /// drawn again.
    pub fn supply(&mut self, draw: usize)
        requires
            old(self).wf(),
            old(self).symbol < old(self).symbol_count,
            old(self).chosen is None,
            draw < old(self).neuron_count,
        ensures
            final(self).wf(),
            *final(self) == (InputBuilder {
                chosen: if old(self).used@.contains(draw) {
                    None
                } else {
                    Some(draw)
                },
                ..*old(self)
            }),
    {
        let mut i: usize = 0;
        while i < self.used.len()
            invariant
                i <= self.used.len(),
                *self == *old(self),
                self.wf(),
                self.chosen is None,
                forall|k: int| 0 <= k < i ==> #[trigger] self.used[k] != draw,
            decreases self.used.len() - i,
        {
            if self.used[i] == draw {
                assert(self.used@[i as int] == draw);
                return;
            }
            i = i + 1;
        }
        self.chosen = Some(draw);
    }

    /// Takes in the weight of the current synapse, which is then built.
    pub fn supply_weight(&mut self, weight: Scalar)
        requires
            old(self).wf(),
            old(self).chosen is Some,
            (Scalar { bits: 0 }).at_most(weight),
        ensures
            final(self).wf(),
            old(self).weighed(*final(self), weight),
    {
        let ghost before = *self;
        let ghost f = self.fanout as int;
        if let Some(target) = self.chosen {
            self.targets.push(target as u32);
            self.branches.push(input_branch_for(self.index));
            self.weights.push(weight);
            self.used.push(target);
        }
        self.chosen = None;
        proof {
            let t = before.chosen->0;
            crate::runtime::lemma_place(
                before.symbol as int,
                before.index as int,
                before.symbol_count as int,
                f,
            );
            assert forall|s: int, a: int, b: int|
                0 <= s < before.symbol && 0 <= a < b < f implies #[trigger] reaches(
                self.targets@,
                f,
                s,
                a,
            ) != #[trigger] reaches(self.targets@, f, s, b) by {
                lemma_earlier(s, a, before.symbol as int, f);
                lemma_earlier(s, b, before.symbol as int, f);
                assert(reaches(before.targets@, f, s, a) != reaches(before.targets@, f, s, b));
            }
            assert forall|a: int, b: int|
                0 <= a < self.used.len() && 0 <= b < self.used.len() && a
                    != b implies self.used@[a] != self.used@[b] by {
                if a == before.used.len() {
                    assert(before.used@.contains(before.used@[b]));
                } else if b == before.used.len() {
                    assert(before.used@.contains(before.used@[a]));
                }
            }
        }
        if self.index + 1 < self.fanout {
            self.index = self.index + 1;
        } else {
            proof {
                assert forall|s: int, a: int, b: int|
                    0 <= s < before.symbol + 1 && 0 <= a < b < f implies #[trigger] reaches(
                    self.targets@,
                    f,
                    s,
                    a,
                ) != #[trigger] reaches(self.targets@, f, s, b) by {
                    if s == before.symbol {
                        assert(self.used[a] != self.used[b]);
                        assert(self.used[a] == self.targets[s * f + a]);
                        assert(self.used[b] == self.targets[s * f + b]);
                    }
                }
                assert((before.symbol + 1) * f == before.symbol * f + f) by (nonlinear_arith);
            }
            self.symbol = self.symbol + 1;
            self.index = 0;
            self.used = Vec::new();
        }
    }
}

/// A finished builder has a full set of synapses for every symbol, and no symbol reaches a
/// neuron twice.
pub proof fn law_finished_inputs(b: InputBuilder)
    requires
        b.wf(),
        b.symbol == b.symbol_count,
    ensures
        b.targets.len() == b.symbol_count * b.fanout,
        forall|s: int, x: int, y: int|
            0 <= s < b.symbol_count && 0 <= x < y < b.fanout ==> #[trigger] reaches(
                b.targets@,
                b.fanout as int,
                s,
                x,
            ) != #[trigger] reaches(b.targets@, b.fanout as int, s, y),
{
}

} // verus!
