//! Interaction markers: tags attached to focusable level entities, and the
//! chunk swap an interaction can trigger.

use vstd::prelude::*;

use crate::chunk::{ChunkId, ChunkWorld};
use crate::sensor::{on_swap_chunks, spec_swap, SwapChunks};

verus! {

/// Interacting logs the entity; used on debug geometry.
#[derive(Clone, Copy, PartialEq, Eq, Structural, Debug)]
pub struct DebugInteraction;

/// Interacting despawns the entity.
#[derive(Clone, Copy, PartialEq, Eq, Structural, Debug)]
pub struct DespawnInteraction;

/// Interacting swaps two chunks; `persistent` keeps the interaction after
/// the first use.
#[derive(Clone, Copy, PartialEq, Eq, Structural, Debug)]
pub struct SwapChunksInteraction {
    pub chunk_a: u32,
    pub chunk_b: u32,
    pub persistent: bool,
}

/// Interacting plays the named sound effect.
#[derive(Clone, Debug)]
pub struct PlaySoundEffectInteraction(pub String);

/// Interacting picks up the fuse item.
#[derive(Clone, Copy, PartialEq, Eq, Structural, Debug)]
pub struct PickupFuseInteraction;

/// Interacting calls the elevator.
#[derive(Clone, Copy, PartialEq, Eq, Structural, Debug)]
pub struct ElevatorInteraction;

/// Interacting with the carrying entity swaps the two chunks' world
/// translations.
#[derive(Clone, Copy, PartialEq, Eq, Structural, Debug)]
pub struct ChunkSwapInteraction(pub ChunkId, pub ChunkId);

impl ChunkSwapInteraction {
    /// Fires the interaction: the two chunks exchange their world
    /// translations, exactly as a swap sensor's mutation does.
    pub fn trigger(&self, world: &mut ChunkWorld)
        ensures
            final(world).chunks@ == spec_swap(old(world).chunks@, self.0.0, self.1.0),
    {
        on_swap_chunks(world, &SwapChunks(self.0, self.1));
    }
}

} // verus!

verus! {

/// An entity the pointer can hover; hovering gives it focus.
#[derive(Clone, Copy, PartialEq, Eq, Structural, Debug)]
pub struct Focusable;

/// An entity the player can interact with when it is in focus.
#[derive(Clone, Copy, PartialEq, Eq, Structural, Debug)]
pub struct Interactable;

/// The one entity currently in focus: highlighted, and the target of the
/// next interaction.
#[derive(Clone, Copy, PartialEq, Eq, Structural, Debug)]
pub struct FocusTarget;

/// Event: the player interacts with the entity.
#[derive(Clone, Copy, PartialEq, Eq, Structural, Debug)]
pub struct Interact {
    pub entity: u32,
}

/// Whether some listed entity is the one hit.
pub open spec fn spec_contains_entity(es: Seq<u32>, e: u32) -> bool {
    exists|i: int| 0 <= i < es.len() && es[i] == e
}

/// Decides where focus goes after a ray cast: the previous focus target is
/// always dropped, and the entity the ray hit gains focus exactly when it
/// is interactable. The ray cast itself is the spatial service's work; this
/// takes its result.
#[verifier::loop_isolation(false)]
pub fn interactable_in_range(interactables: &Vec<u32>, hit: Option<u32>) -> (focus: Option<u32>)
    ensures
        match hit {
            Some(e) => {
                &&& focus == Some(e) <==> spec_contains_entity(interactables@, e)
                &&& focus is None <==> !spec_contains_entity(interactables@, e)
            },
            None => focus is None,
        },
{
    let e = match hit {
        Some(e) => e,
        None => {
            return None;
        },
    };
    let mut i: usize = 0;
    while i < interactables.len()
        invariant
            0 <= i <= interactables@.len(),
            forall|j: int| 0 <= j < i ==> interactables@[j] != e,
        decreases interactables@.len() - i,
    {
        if interactables[i] == e {
            proof {
                assert(spec_contains_entity(interactables@, e));
            }
            return Some(e);
        }
        i += 1;
    }
    None
}

} // verus!
