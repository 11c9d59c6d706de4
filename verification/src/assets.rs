//! Animation indices of the asset collection.
use vstd::prelude::*;

verus! {

/// The animations of a dude, in the order of the asset collection.
#[derive(Clone, Copy, Debug, PartialEq, Eq, Structural)]
pub enum DudeAnimations {
    Idle,
    Run,
    Light1,
    Light1Recover,
    Light2,
    Light2Recover,
    Light3,
    Light3Recover,
    StaggerNormal,
    Heavy1,
    Heavy1Recover,
    Heavy2,
    Heavy2Recover,
    Heavy3,
    Heavy3Recover,
    StaggerFlying,
}

impl DudeAnimations {
    /// The position of the animation in the declaration order.
    pub open spec fn spec_index(self) -> usize {
        match self {
            DudeAnimations::Idle => 0,
            DudeAnimations::Run => 1,
            DudeAnimations::Light1 => 2,
            DudeAnimations::Light1Recover => 3,
            DudeAnimations::Light2 => 4,
            DudeAnimations::Light2Recover => 5,
            DudeAnimations::Light3 => 6,
            DudeAnimations::Light3Recover => 7,
            DudeAnimations::StaggerNormal => 8,
            DudeAnimations::Heavy1 => 9,
            DudeAnimations::Heavy1Recover => 10,
            DudeAnimations::Heavy2 => 11,
            DudeAnimations::Heavy2Recover => 12,
            DudeAnimations::Heavy3 => 13,
            DudeAnimations::Heavy3Recover => 14,
            DudeAnimations::StaggerFlying => 15,
        }
    }

    /// The index of the animation's texture in the asset collection.
    pub fn index(self) -> (i: usize)
        ensures
            i == self.spec_index(),
    {
        match self {
            DudeAnimations::Idle => 0,
            DudeAnimations::Run => 1,
            DudeAnimations::Light1 => 2,
            DudeAnimations::Light1Recover => 3,
            DudeAnimations::Light2 => 4,
            DudeAnimations::Light2Recover => 5,
            DudeAnimations::Light3 => 6,
            DudeAnimations::Light3Recover => 7,
            DudeAnimations::StaggerNormal => 8,
            DudeAnimations::Heavy1 => 9,
            DudeAnimations::Heavy1Recover => 10,
            DudeAnimations::Heavy2 => 11,
            DudeAnimations::Heavy2Recover => 12,
            DudeAnimations::Heavy3 => 13,
            DudeAnimations::Heavy3Recover => 14,
            DudeAnimations::StaggerFlying => 15,
        }
    }
}

/// Distinct animations have distinct indices.
pub proof fn lemma_dude_animation_index_injective(a: DudeAnimations, b: DudeAnimations)
    ensures
        a.spec_index() == b.spec_index() ==> a == b,
{
}

} // verus!
