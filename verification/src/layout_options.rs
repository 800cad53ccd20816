//! How a Terraform graph is laid out: which way it flows and which end its dependencies sit.

use vstd::prelude::*;

verus! {

/// The direction in which layers follow each other.
#[derive(Debug, Clone, Copy, PartialEq, Eq, Structural)]
pub enum TerraformLayoutDirection {
    /// Top to bottom.
    Tb,
    /// Left to right.
    Lr,
}

/// Which end of the layout a resource's dependencies are drawn at.
#[derive(Debug, Clone, Copy, PartialEq, Eq, Structural)]
pub enum TerraformDependencyFlow {
    DependenciesAtTop,
    DependentsAtTop,
}

/// The persisted layout choices.
#[derive(Debug, Clone, Copy, PartialEq, Eq, Structural)]
pub struct TerraformLayoutOptions {
    pub direction: TerraformLayoutDirection,
    pub dependency_flow: TerraformDependencyFlow,
}

impl Default for TerraformLayoutOptions {
    /// Top to bottom, dependencies at the top.
    fn default() -> (r: Self)
        ensures
            r.direction == TerraformLayoutDirection::Tb,
            r.dependency_flow == TerraformDependencyFlow::DependenciesAtTop,
    {
        TerraformLayoutOptions {
            direction: TerraformLayoutDirection::Tb,
            dependency_flow: TerraformDependencyFlow::DependenciesAtTop,
        }
    }
}

} // verus!
