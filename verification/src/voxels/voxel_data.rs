//! The state that special voxels carry beyond their id.

use vstd::prelude::*;
use crate::recipes::recipe::Recipes;
use crate::voxels::voxel_data::assembling_machine::{
    craft_delivered, craft_started, AssemblingMachine,
};
use crate::voxels::voxel_data::transport_belt::TransportBelt;
use crate::world::global_coords::GlobalCoords;

pub mod assembling_machine;
pub mod belt_model;
pub mod transport_belt;

verus! {

/// What a special voxel carries.
#[derive(Debug)]
pub enum VoxelAdditionalData {
    Empty,
    AssemblingMachine(AssemblingMachine),
    TransportBelt(TransportBelt),
}

impl VoxelAdditionalData {
    /// The belt, if the voxel is one.
    pub fn transport_belt(&self) -> (belt: Option<&TransportBelt>)
        ensures
            belt == (match self {
                VoxelAdditionalData::TransportBelt(b) => Some(b),
                _ => None,
            }),
    {
        match self {
            VoxelAdditionalData::TransportBelt(b) => Some(b),
            _ => None,
        }
    }

    /// The machine, if the voxel is one.
    pub fn assembling_machine(&self) -> (machine: Option<&AssemblingMachine>)
        ensures
            machine == (match self {
                VoxelAdditionalData::AssemblingMachine(m) => Some(m),
                _ => None,
            }),
    {
        match self {
            VoxelAdditionalData::AssemblingMachine(m) => Some(m),
            _ => None,
        }
    }
}

/// A special voxel: its id, its place and what it carries.
#[derive(Debug)]
pub struct VoxelData {
    pub id: u32,
    pub global_coords: GlobalCoords,
    pub additionally: VoxelAdditionalData,
}

impl VoxelData {
    /// A machine of the voxel names only recipes of the catalog.
    pub open spec fn wf(&self, recipes: &Recipes) -> bool {
        self.additionally matches VoxelAdditionalData::AssemblingMachine(m) ==> m.wf(recipes)
    }

    /// The voxel after one tick at `now`: a machine takes its tick; a belt is
    /// moved by its own caller, and nothing else changes by itself.
    pub open spec fn ticked(&self, recipes: &Recipes, now: u64, after: &VoxelData) -> bool {
        &&& after.id == self.id
        &&& after.global_coords == self.global_coords
        &&& match self.additionally {
            VoxelAdditionalData::AssemblingMachine(m) => {
                &&& after.additionally matches VoxelAdditionalData::AssemblingMachine(m2)
                &&& m2@ == craft_delivered(craft_started(m@, recipes, now), recipes, now)
            },
            _ => after.additionally == self.additionally,
        }
    }

    /// One tick of the voxel at `now`, a time in milliseconds. Returns
    /// whether the voxel has changed.
    pub fn update(&mut self, recipes: &Recipes, now: u64) -> (changed: bool)
        requires
            recipes.wf(),
            old(self).wf(recipes),
        ensures
            final(self).wf(recipes),
            old(self).ticked(recipes, now, final(self)),
            changed == (*final(self) != *old(self)),
    {
        match &mut self.additionally {
            VoxelAdditionalData::AssemblingMachine(machine) => {
                let ghost before = *machine;
                let storage = machine.storage;
                let active = machine.active_recipe;
                machine.update(recipes, now);
                let mut same = match (active, machine.active_recipe) {
                    (Some(a), Some(b)) => a.recipe_id == b.recipe_id && a.finish_at == b.finish_at,
                    (None, None) => true,
                    _ => false,
                };
                let mut i: usize = 0;
                while i < 4
                    invariant
                        0 <= i <= 4,
                        same == (before.active_recipe == machine.active_recipe && forall|k: int|
                            0 <= k < i ==> storage@[k] == machine.storage@[k]),
                    decreases 4 - i,
                {
                    if storage[i] != machine.storage[i] {
                        same = false;
                    }
                    i += 1;
                }
                proof {
                    if same {
                        assert(machine.storage =~= before.storage);
                        assert(machine.structure_coordinates@ == before.structure_coordinates@);
                    } else {
                    }
                }
                !same
            },
            _ => false,
        }
    }
}

} // verus!
