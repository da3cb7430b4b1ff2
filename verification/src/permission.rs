//! Explicit control over persistent learning.

use crate::config::Config;
use crate::error::{fails, LeoError, LeoErrorKind, LeoResult};
use crate::scalar::Scalar;
use crate::text::{equals_lowered, lower, with_word};
use vstd::prelude::*;

verus! {

/// How much a step may change the model for good.
#[derive(Debug, Clone, Copy, PartialEq, Eq, Structural)]
pub enum Permission {
    Frozen,
    Provisional,
    Training,
    Verified,
}

impl Permission {
    /// The permission of a name, whatever the case of its letters.
    pub open spec fn of_name(value: Seq<char>) -> Option<Permission> {
        if lower(value) == "frozen"@ {
            Some(Permission::Frozen)
        } else if lower(value) == "provisional"@ {
            Some(Permission::Provisional)
        } else if lower(value) == "training"@ {
            Some(Permission::Training)
        } else if lower(value) == "verified"@ {
            Some(Permission::Verified)
        } else {
            None
        }
    }

    /// Reads a permission by its name.
    pub fn parse(value: &str) -> (r: LeoResult<Self>)
        ensures
            match Permission::of_name(value@) {
                Some(permission) => r == Ok::<Permission, LeoError>(permission),
                None => fails(r, LeoErrorKind::Internal, "unknown permission: "@ + value@ + ""@),
            },
    {
        if equals_lowered(value, "frozen") {
            Ok(Permission::Frozen)
        } else if equals_lowered(value, "provisional") {
            Ok(Permission::Provisional)
        } else if equals_lowered(value, "training") {
            Ok(Permission::Training)
        } else if equals_lowered(value, "verified") {
            Ok(Permission::Verified)
        } else {
            Err(LeoError::internal(with_word("unknown permission: ", value, "")))
        }
    }

    /// How strongly a permission lets a step learn.
    pub open spec fn strength_in(self, config: Config) -> Scalar {
        match self {
            Permission::Frozen => Scalar { bits: 0 },
            Permission::Provisional => config.learning.provisional_strength,
            Permission::Training => config.learning.training_strength,
            Permission::Verified => config.learning.verified_strength,
        }
    }

    /// How strongly the permission lets a step learn.
    pub fn strength(self, config: &Config) -> (r: Scalar)
        ensures
            r == self.strength_in(*config),
    {
        match self {
            Permission::Frozen => Scalar::zero(),
            Permission::Provisional => config.learning.provisional_strength,
            Permission::Training => config.learning.training_strength,
            Permission::Verified => config.learning.verified_strength,
        }
    }

    /// Whether nothing may be learned.
    pub fn is_frozen(self) -> (r: bool)
        ensures
            r == (self == Permission::Frozen),
    {
        match self {
            Permission::Frozen => true,
            _ => false,
        }
    }
}

/// Under a configuration that keeps its rules every permission but the frozen one learns.
pub proof fn law_only_frozen_does_not_learn(
    p: Permission,
    config: Config,
    output_classes: usize,
    target_active: usize,
)
    requires
        config.violation(output_classes, target_active) is None,
    ensures
        (Scalar { bits: 0 }).below(p.strength_in(config)) <==> p != Permission::Frozen,
{
}

} // verus!
