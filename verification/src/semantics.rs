//! Versioned contracts that define what a Leo training run means.
//!
//! These versions are intentionally independent from the crate release version.
//! Execution code may become faster without changing these values; a value is
//! bumped only when the corresponding persisted or learning contract changes.

use vstd::prelude::*;

verus! {

pub const MODEL_SCHEMA_VERSION: u32 = 1;

pub const TRAINING_POLICY_VERSION: u32 = 1;

pub const EXECUTION_SEMANTICS_VERSION: u32 = 1;

pub const DATASET_SCHEMA_VERSION: u32 = 1;

pub const CUDA_ABI_VERSION: u32 = 1;

pub const CHECKPOINT_SCHEMA_VERSION: u32 = 1;

pub const TRAINING_POLICY_NAME: &'static str = "bounded-surprise-replay-v1";

pub const EXECUTION_SEMANTICS_NAME: &'static str = "leo-exact-fp32-v1";

/// The versions that a checkpoint was written under.
#[derive(Debug, Clone, Copy, PartialEq, Eq, Structural)]
pub struct SemanticsContract {
    pub model_schema: u32,
    pub training_policy: u32,
    pub execution_semantics: u32,
    pub dataset_schema: u32,
    pub cuda_abi: u32,
}

impl SemanticsContract {
    /// The versions of this library.
    pub fn current() -> (r: Self)
        ensures
            r.model_schema == MODEL_SCHEMA_VERSION,
            r.training_policy == TRAINING_POLICY_VERSION,
            r.execution_semantics == EXECUTION_SEMANTICS_VERSION,
            r.dataset_schema == DATASET_SCHEMA_VERSION,
            r.cuda_abi == CUDA_ABI_VERSION,
    {
        SemanticsContract {
            model_schema: MODEL_SCHEMA_VERSION,
            training_policy: TRAINING_POLICY_VERSION,
            execution_semantics: EXECUTION_SEMANTICS_VERSION,
            dataset_schema: DATASET_SCHEMA_VERSION,
            cuda_abi: CUDA_ABI_VERSION,
        }
    }

    /// The versions in the order in which they are stored.
    pub fn as_array(self) -> (r: [u32; 5])
        ensures
            r@ == seq![
                self.model_schema,
                self.training_policy,
                self.execution_semantics,
                self.dataset_schema,
                self.cuda_abi,
            ],
    {
        let r = [
            self.model_schema,
            self.training_policy,
            self.execution_semantics,
            self.dataset_schema,
            self.cuda_abi,
        ];
        assert(r@ =~= seq![
            self.model_schema,
            self.training_policy,
            self.execution_semantics,
            self.dataset_schema,
            self.cuda_abi,
        ]);
        r
    }
}

} // verus!
