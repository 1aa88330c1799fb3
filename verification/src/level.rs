//! Level assembly: reading a resolved layout and issuing one spawn per
//! entry, in id order, plus the grid bounds of a layout.

use vstd::prelude::*;

use crate::chunk::{
    elements_ok, on_spawn_chunk, spec_chunk_spawned, ChunkId, ChunkWorld, SpawnChunk,
};
use crate::chunk_assets::{
    clone_markers, markers_view, ChunkDescriptor, ChunkElement, ChunkEntry, ChunkLayout,
};
use crate::stash::spec_find_descriptor;

verus! {

/// Marker for the one root that owns a level's chunks.
#[derive(Clone, Copy, PartialEq, Eq, Structural, Debug)]
pub struct Level;

/// Marker carried by everything that belongs to the level scene and is torn
/// down with it.
#[derive(Clone, Copy, PartialEq, Eq, Structural, Debug)]
pub struct LevelComponent;

/// A level component that shows an external model, referenced by path.
#[derive(Clone, Debug)]
pub struct LevelComponentGltf {
    pub path: String,
}

/// The layout entries whose descriptor is loaded — the ones a spawn pass
/// actually spawns, in layout order.
pub open spec fn spec_resolved_entries(
    ds: Seq<ChunkDescriptor>,
    entries: Seq<(u32, ChunkEntry)>,
) -> Seq<(u32, ChunkEntry)> {
    entries.filter(
        |en: (u32, ChunkEntry)| spec_find_descriptor(ds, en.1.descriptor.0@) is Some,
    )
}

/// Issues one spawn intent per layout entry, in id order, against the loaded
/// descriptors and elements. Entries whose descriptor is not loaded spawn
/// nothing (the caller may re-issue the pass later — chunks appear
/// progressively as assets finish loading, and nothing is retried here).
/// Each spawned chunk carries its entry's id, grid cell and markers.
#[verifier::loop_isolation(false)]
pub fn spawn_level_from_layout(
    world: &mut ChunkWorld,
    descriptors: &Vec<ChunkDescriptor>,
    elements: &Vec<ChunkElement>,
    layout: &ChunkLayout,
)
    requires
        elements_ok(elements@),
    ensures
        ({
            let res = spec_resolved_entries(descriptors@, layout.chunks@);
            &&& final(world).chunks@.len() == old(world).chunks@.len() + res.len()
            &&& final(world).chunks@.take(old(world).chunks@.len() as int) == old(world).chunks@
            &&& forall|k: int|
                0 <= k < res.len() ==> spec_chunk_spawned(
                    #[trigger] final(world).chunks@[old(world).chunks@.len() + k],
                    spec_find_descriptor(descriptors@, res[k].1.descriptor.0@)->0,
                    elements@,
                    ChunkId(res[k].0),
                    res[k].1.grid_pos,
                    markers_view(res[k].1.components@),
                )
        }),
{
    let ghost pred = |en: (u32, ChunkEntry)|
        spec_find_descriptor(descriptors@, en.1.descriptor.0@) is Some;
    proof {
        assert(layout.chunks@.take(0) =~= Seq::<(u32, ChunkEntry)>::empty());
        assert(Seq::<(u32, ChunkEntry)>::empty().filter(pred) =~= Seq::<
            (u32, ChunkEntry),
        >::empty());
    }
    let mut i: usize = 0;
    while i < layout.chunks.len()
        invariant
            0 <= i <= layout.chunks@.len(),
            ({
                let res = layout.chunks@.take(i as int).filter(pred);
                &&& world.chunks@.len() == old(world).chunks@.len() + res.len()
                &&& world.chunks@.take(old(world).chunks@.len() as int) == old(world).chunks@
                &&& forall|k: int|
                    0 <= k < res.len() ==> spec_chunk_spawned(
                        #[trigger] world.chunks@[old(world).chunks@.len() + k],
                        spec_find_descriptor(descriptors@, res[k].1.descriptor.0@)->0,
                        elements@,
                        ChunkId(res[k].0),
                        res[k].1.grid_pos,
                        markers_view(res[k].1.components@),
                    )
            }),
        decreases layout.chunks@.len() - i,
    {
        let ghost res_before = layout.chunks@.take(i as int).filter(pred);
        proof {
            assert(layout.chunks@.take(i as int + 1).drop_last() =~= layout.chunks@.take(i as int));
            assert(layout.chunks@.take(i as int + 1).last() == layout.chunks@[i as int]);
            reveal_with_fuel(Seq::filter, 2);
        }
        let entry = &layout.chunks[i].1;
        let event = SpawnChunk {
            id: ChunkId(layout.chunks[i].0),
            grid_position: entry.grid_pos,
            descriptor: entry.descriptor.0.clone(),
            components: clone_markers(&entry.components),
        };
        let ghost wbefore = world.chunks@;
        on_spawn_chunk(world, descriptors, elements, &event);
        proof {
            let res_after = layout.chunks@.take(i as int + 1).filter(pred);
            if pred(layout.chunks@[i as int]) {
                assert(res_after =~= res_before.push(layout.chunks@[i as int]));
                assert(world.chunks@.drop_last() == wbefore);
                assert forall|m: int| 0 <= m < wbefore.len() implies world.chunks@[m]
                    == wbefore[m] by {
                    assert(world.chunks@.drop_last()[m] == world.chunks@[m]);
                }
                assert(world.chunks@.take(old(world).chunks@.len() as int) =~= old(
                    world,
                ).chunks@);
                assert(markers_view(event.components@) == markers_view(
                    layout.chunks@[i as int].1.components@,
                ));
                assert(event.descriptor@ == layout.chunks@[i as int].1.descriptor.0@);
                let newk = res_before.len() as int;
                assert(res_after[newk] == layout.chunks@[i as int]);
                assert(world.chunks@.last() == world.chunks@[old(world).chunks@.len() + newk]);
                assert(spec_chunk_spawned(
                    world.chunks@[old(world).chunks@.len() + newk],
                    spec_find_descriptor(descriptors@, res_after[newk].1.descriptor.0@)->0,
                    elements@,
                    ChunkId(res_after[newk].0),
                    res_after[newk].1.grid_pos,
                    markers_view(res_after[newk].1.components@),
                ));
                assert forall|k: int| 0 <= k < res_after.len() implies spec_chunk_spawned(
                    #[trigger] world.chunks@[old(world).chunks@.len() + k],
                    spec_find_descriptor(descriptors@, res_after[k].1.descriptor.0@)->0,
                    elements@,
                    ChunkId(res_after[k].0),
                    res_after[k].1.grid_pos,
                    markers_view(res_after[k].1.components@),
                ) by {
                    if k < newk {
                        assert(res_after[k] == res_before[k]);
                        assert(world.chunks@[old(world).chunks@.len() + k] == wbefore[old(
                            world,
                        ).chunks@.len() + k]);
                    }
                }
            } else {
                assert(res_after =~= res_before);
            }
        }
        i += 1;
    }
    proof {
        assert(layout.chunks@.take(layout.chunks@.len() as int) =~= layout.chunks@);
    }
}

/// The grid bounds of a layout: the least and greatest x and z among its
/// entries' grid cells, or nothing for an empty layout.
#[verifier::loop_isolation(false)]
pub fn grid_bounds(layout: &ChunkLayout) -> (r: Option<(i32, i32, i32, i32)>)
    ensures
        match r {
            Some((min_x, max_x, min_z, max_z)) => {
                &&& layout.chunks@.len() > 0
                &&& forall|k: int|
                    0 <= k < layout.chunks@.len() ==> min_x <= (#[trigger] layout.chunks@[k]).1.grid_pos.0
                        <= max_x && min_z <= layout.chunks@[k].1.grid_pos.1 <= max_z
                &&& exists|k: int|
                    0 <= k < layout.chunks@.len() && (#[trigger] layout.chunks@[k]).1.grid_pos.0
                        == min_x
                &&& exists|k: int|
                    0 <= k < layout.chunks@.len() && (#[trigger] layout.chunks@[k]).1.grid_pos.0
                        == max_x
                &&& exists|k: int|
                    0 <= k < layout.chunks@.len() && (#[trigger] layout.chunks@[k]).1.grid_pos.1
                        == min_z
                &&& exists|k: int|
                    0 <= k < layout.chunks@.len() && (#[trigger] layout.chunks@[k]).1.grid_pos.1
                        == max_z
            },
            None => layout.chunks@.len() == 0,
        },
{
    if layout.chunks.len() == 0 {
        return None;
    }
    let first = &layout.chunks[0].1;
    let mut min_x = first.grid_pos.0;
    let mut max_x = first.grid_pos.0;
    let mut min_z = first.grid_pos.1;
    let mut max_z = first.grid_pos.1;
    let mut i: usize = 1;
    while i < layout.chunks.len()
        invariant
            1 <= i <= layout.chunks@.len(),
            forall|k: int|
                0 <= k < i ==> min_x <= (#[trigger] layout.chunks@[k]).1.grid_pos.0 <= max_x
                    && min_z <= layout.chunks@[k].1.grid_pos.1 <= max_z,
            exists|k: int|
                0 <= k < i && (#[trigger] layout.chunks@[k]).1.grid_pos.0 == min_x,
            exists|k: int|
                0 <= k < i && (#[trigger] layout.chunks@[k]).1.grid_pos.0 == max_x,
            exists|k: int|
                0 <= k < i && (#[trigger] layout.chunks@[k]).1.grid_pos.1 == min_z,
            exists|k: int|
                0 <= k < i && (#[trigger] layout.chunks@[k]).1.grid_pos.1 == max_z,
        decreases layout.chunks@.len() - i,
    {
        let p = &layout.chunks[i].1;
        if p.grid_pos.0 < min_x {
            min_x = p.grid_pos.0;
        }
        if p.grid_pos.0 > max_x {
            max_x = p.grid_pos.0;
        }
        if p.grid_pos.1 < min_z {
            min_z = p.grid_pos.1;
        }
        if p.grid_pos.1 > max_z {
            max_z = p.grid_pos.1;
        }
        i += 1;
    }
    Some((min_x, max_x, min_z, max_z))
}

} // verus!
