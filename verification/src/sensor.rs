//! The sensor state machine: which chunks the player currently occupies,
//! and the swap / replace / move mutations their sensors fire — at most once
//! per continuous occupancy, re-arming when the player leaves and re-enters.

use vstd::prelude::*;
use vstd::pervasive::VecAdditionalExecFns;

use crate::chunk::{
    spec_chunk_index, spec_chunk_spawned, lemma_chunk_index_first, lemma_chunk_index_found,
    lemma_chunk_index_none, on_despawn_chunk, on_spawn_chunk, Chunk, ChunkId, ChunkWorld,
    DespawnChunk, MoveChunkSensorChunk, ReplaceAssetSensorChunk, SpawnChunk, SwapSensorChunk,
};
use crate::chunk_assets::{ChunkDescriptor, ChunkElement, MarkerV};
use crate::geometry::Vec3;
use crate::stash::spec_find_descriptor;
use crate::chunk::elements_ok;

verus! {

/// Event: exchange the world translations of two chunks.
#[derive(Clone, Copy, PartialEq, Eq, Structural, Debug)]
pub struct SwapChunks(pub ChunkId, pub ChunkId);

/// Event: despawn a chunk and respawn it, at its grid cell, from the named
/// descriptor.
#[derive(Clone, Debug)]
pub struct ReplaceChunkAsset(pub ChunkId, pub String);

/// Event: move a chunk to the given grid cell.
#[derive(Clone, Copy, PartialEq, Eq, Structural, Debug)]
pub struct MoveChunk(pub ChunkId, pub i32, pub i32);

/// One chunk the player currently overlaps, with one arming flag per sensor
/// kind. A flag set means this occupancy's firing check has already run.
#[derive(Clone, Copy, PartialEq, Eq, Structural, Debug)]
pub struct ActivePlayerChunk {
    pub chunk: ChunkId,
    pub swap_sensor_activated: bool,
    pub asset_sensor_activated: bool,
    pub move_sensor_activated: bool,
}

impl ActivePlayerChunk {
    /// A fresh, unarmed entry for the given chunk.
    pub fn new(id: ChunkId) -> (r: ActivePlayerChunk)
        ensures
            r == spec_fresh_entry(id),
    {
        ActivePlayerChunk {
            chunk: id,
            swap_sensor_activated: false,
            asset_sensor_activated: false,
            move_sensor_activated: false,
        }
    }
}

/// A fresh, unarmed entry for the given chunk.
pub open spec fn spec_fresh_entry(id: ChunkId) -> ActivePlayerChunk {
    ActivePlayerChunk {
        chunk: id,
        swap_sensor_activated: false,
        asset_sensor_activated: false,
        move_sensor_activated: false,
    }
}

/// The chunks the player is currently in.
pub struct ActivePlayerChunks(pub Vec<ActivePlayerChunk>);

impl ActivePlayerChunks {
    /// An empty active set: the player overlaps no chunk.
    pub fn new() -> (r: ActivePlayerChunks)
        ensures
            r.0@.len() == 0,
    {
        ActivePlayerChunks(Vec::new())
    }
}

/// Whether the active set already has an entry for the chunk.
pub open spec fn spec_has_entry(s: Seq<ActivePlayerChunk>, id: u32) -> bool {
    exists|i: int| 0 <= i < s.len() && s[i].chunk.0 == id
}

/// The active set after the player enters a chunk: unchanged if an entry for
/// it is already present, else extended by a fresh unarmed entry.
pub open spec fn spec_enter(s: Seq<ActivePlayerChunk>, id: u32) -> Seq<ActivePlayerChunk> {
    if spec_has_entry(s, id) {
        s
    } else {
        s.push(spec_fresh_entry(ChunkId(id)))
    }
}

/// The active set after the player exits a chunk: every entry for it is
/// dropped, which is what re-arms the sensors for a later re-entry.
pub open spec fn spec_exit(s: Seq<ActivePlayerChunk>, id: u32) -> Seq<ActivePlayerChunk> {
    s.filter(|e: ActivePlayerChunk| e.chunk.0 != id)
}

/// Records that the player began overlapping the chunk: a fresh unarmed
/// entry joins the active set, unless one for this chunk is already there.
pub fn on_player_entered_chunk(active: &mut ActivePlayerChunks, chunk: ChunkId)
    ensures
        final(active).0@ == spec_enter(old(active).0@, chunk.0),
{
    let mut i: usize = 0;
    while i < active.0.len()
        invariant
            0 <= i <= active.0@.len(),
            active.0@ == old(active).0@,
            forall|j: int| 0 <= j < i ==> (#[trigger] active.0@[j]).chunk.0 != chunk.0,
        decreases active.0@.len() - i,
    {
        if active.0[i].chunk.0 == chunk.0 {
            proof {
                assert(spec_has_entry(active.0@, chunk.0));
            }
            return ;
        }
        i += 1;
    }
    proof {
        assert(!spec_has_entry(active.0@, chunk.0));
    }
    active.0.push(ActivePlayerChunk::new(chunk));
}

/// Records that the player stopped overlapping the chunk: its entry leaves
/// the active set, so the chunk's sensors can fire again on a later entry.
pub fn on_player_exited_chunk(active: &mut ActivePlayerChunks, chunk: ChunkId)
    ensures
        final(active).0@ == spec_exit(old(active).0@, chunk.0),
{
    let mut kept: Vec<ActivePlayerChunk> = Vec::new();
    let mut i: usize = 0;
    proof {
        assert(old(active).0@.take(0) =~= Seq::<ActivePlayerChunk>::empty());
        assert(Seq::<ActivePlayerChunk>::empty().filter(
            |e: ActivePlayerChunk| e.chunk.0 != chunk.0,
        ) =~= Seq::<ActivePlayerChunk>::empty());
    }
    while i < active.0.len()
        invariant
            0 <= i <= active.0@.len(),
            active.0@ == old(active).0@,
            kept@ == old(active).0@.take(i as int).filter(
                |e: ActivePlayerChunk| e.chunk.0 != chunk.0,
            ),
        decreases active.0@.len() - i,
    {
        proof {
            assert(active.0@.take(i as int + 1).drop_last() =~= active.0@.take(i as int));
            assert(active.0@.take(i as int + 1).last() == active.0@[i as int]);
            reveal_with_fuel(Seq::filter, 2);
        }
        if active.0[i].chunk.0 != chunk.0 {
            kept.push(active.0[i]);
        }
        i += 1;
    }
    proof {
        assert(active.0@.take(active.0@.len() as int) =~= active.0@);
    }
    active.0 = kept;
}

/// A chunk with the given position fields and everything else from `c`.
pub open spec fn spec_with_position(c: Chunk, t: Vec3, gx: i32, gz: i32) -> Chunk {
    Chunk { translation: t, grid_x: gx, grid_z: gz, ..c }
}

/// The world after `Swap(a, b)`: the first chunks carrying `a` and `b`
/// exchange their world translations (and with them their grid cells); if
/// either id is not spawned, nothing changes for the pair.
pub open spec fn spec_swap(chunks: Seq<Chunk>, a: u32, b: u32) -> Seq<Chunk> {
    match (spec_chunk_index(chunks, a), spec_chunk_index(chunks, b)) {
        (Some(i), Some(j)) => chunks.update(
            i,
            spec_with_position(chunks[i], chunks[j].translation, chunks[j].grid_x, chunks[j].grid_z),
        ).update(
            j,
            spec_with_position(chunks[j], chunks[i].translation, chunks[i].grid_x, chunks[i].grid_z),
        ),
        _ => chunks,
    }
}

/// A placeholder chunk used to take a live chunk out of the world while its
/// fields are edited.
fn blank_chunk() -> Chunk {
    Chunk {
        id: ChunkId(0),
        descriptor_name: String::new(),
        translation: Vec3 { x: 0, y: 0, z: 0 },
        grid_x: 0,
        grid_z: 0,
        elements: Vec::new(),
        spawn_markers: Vec::new(),
        lights: Vec::new(),
        swap_sensor: None,
        replace_sensor: None,
        move_sensor: None,
    }
}

/// Position of the first live chunk with the given id, if any.
#[verifier::loop_isolation(false)]
pub fn find_chunk_index(world: &ChunkWorld, id: u32) -> (r: Option<usize>)
    ensures
        match r {
            Some(i) => spec_chunk_index(world.chunks@, id) == Some(i as int),
            None => spec_chunk_index(world.chunks@, id) is None,
        },
{
    let mut i: usize = 0;
    while i < world.chunks.len()
        invariant
            0 <= i <= world.chunks@.len(),
            forall|j: int| 0 <= j < i ==> (#[trigger] world.chunks@[j]).id.0 != id,
        decreases world.chunks@.len() - i,
    {
        if world.chunks[i].id.0 == id {
            proof {
                lemma_chunk_index_first(world.chunks@, id, i as int);
            }
            return Some(i);
        }
        i += 1;
    }
    proof {
        lemma_chunk_index_none(world.chunks@, id);
    }
    None
}

/// Applies `Swap(a, b)`: the two chunks' world translations are exchanged.
/// A pair with a missing id is left untouched — a swap may race a despawn,
/// and that is not an error.
#[verifier::loop_isolation(false)]
pub fn on_swap_chunks(world: &mut ChunkWorld, event: &SwapChunks)
    ensures
        final(world).chunks@ == spec_swap(old(world).chunks@, event.0.0, event.1.0),
{
    let a = event.0.0;
    let b = event.1.0;
    let ia = match find_chunk_index(world, a) {
        Some(i) => i,
        None => {
            return ;
        },
    };
    let ib = match find_chunk_index(world, b) {
        Some(i) => i,
        None => {
            return ;
        },
    };
    proof {
        lemma_chunk_index_found(world.chunks@, a);
        lemma_chunk_index_found(world.chunks@, b);
    }
    let (ta, gxa, gza) = (world.chunks[ia].translation, world.chunks[ia].grid_x, world.chunks[ia].grid_z);
    let (tb, gxb, gzb) = (world.chunks[ib].translation, world.chunks[ib].grid_x, world.chunks[ib].grid_z);
    let mut ca = blank_chunk();
    world.chunks.set_and_swap(ia, &mut ca);
    ca.translation = tb;
    ca.grid_x = gxb;
    ca.grid_z = gzb;
    world.chunks.set_and_swap(ia, &mut ca);
    let mut cb = blank_chunk();
    world.chunks.set_and_swap(ib, &mut cb);
    cb.translation = ta;
    cb.grid_x = gxa;
    cb.grid_z = gza;
    world.chunks.set_and_swap(ib, &mut cb);
    proof {
        assert(final(world).chunks@ =~= spec_swap(old(world).chunks@, a, b));
    }
}

/// The world after `Move(id, x, z)`: the first chunk carrying `id` has its
/// world x/z translation set to the cell `(x, z)`, its y translation kept;
/// nothing changes if the id is not spawned.
pub open spec fn spec_move(chunks: Seq<Chunk>, id: u32, x: i32, z: i32) -> Seq<Chunk> {
    match spec_chunk_index(chunks, id) {
        Some(i) => chunks.update(
            i,
            spec_with_position(
                chunks[i],
                Vec3 {
                    x: (x as i64 * crate::CHUNK_SIZE) as i64,
                    y: chunks[i].translation.y,
                    z: (z as i64 * crate::CHUNK_SIZE) as i64,
                },
                x,
                z,
            ),
        ),
        None => chunks,
    }
}

/// Applies `Move(id, x, z)`: the chunk's world x/z become the cell's world
/// coordinates, y stays. A missing id is a no-op.
#[verifier::loop_isolation(false)]
pub fn on_move_chunk(world: &mut ChunkWorld, event: &MoveChunk)
    ensures
        final(world).chunks@ == spec_move(old(world).chunks@, event.0.0, event.1, event.2),
{
    let id = event.0.0;
    let i = match find_chunk_index(world, id) {
        Some(i) => i,
        None => {
            return ;
        },
    };
    proof {
        lemma_chunk_index_found(world.chunks@, id);
    }
    let mut c = blank_chunk();
    world.chunks.set_and_swap(i, &mut c);
    let y = c.translation.y;
    c.translation = Vec3 { x: (event.1 as i64) * crate::CHUNK_SIZE, y, z: (event.2 as i64) * crate::CHUNK_SIZE };
    c.grid_x = event.1;
    c.grid_z = event.2;
    world.chunks.set_and_swap(i, &mut c);
    proof {
        assert(final(world).chunks@ =~= spec_move(old(world).chunks@, id, event.1, event.2));
    }
}

} // verus!

verus! {

/// Applies `ReplaceAsset(chunk, descriptor)`: the target chunk's current
/// grid cell and id are captured, the chunk is despawned, and the same id is
/// respawned at the same cell from the named descriptor with no markers. A
/// target that is not spawned (already gone) is a no-op, not an error; a
/// descriptor that is not loaded leaves the chunk despawned, as a spawn with
/// an unloaded descriptor does nothing.
pub fn on_replace_chunk_asset(
    world: &mut ChunkWorld,
    descriptors: &Vec<ChunkDescriptor>,
    elements: &Vec<ChunkElement>,
    event: &ReplaceChunkAsset,
)
    requires
        elements_ok(elements@),
    ensures
        match spec_chunk_index(old(world).chunks@, event.0.0) {
            None => final(world).chunks@ == old(world).chunks@,
            Some(i) => ({
                let mid = old(world).chunks@.remove(i);
                let grid = (old(world).chunks@[i].grid_x, old(world).chunks@[i].grid_z);
                match spec_find_descriptor(descriptors@, event.1@) {
                    None => final(world).chunks@ == mid,
                    Some(d) => {
                        &&& final(world).chunks@.len() == mid.len() + 1
                        &&& final(world).chunks@.drop_last() == mid
                        &&& spec_chunk_spawned(
                            final(world).chunks@.last(),
                            d,
                            elements@,
                            event.0,
                            grid,
                            Seq::empty(),
                        )
                    },
                }
            }),
        },
{
    let i = match find_chunk_index(world, event.0.0) {
        Some(i) => i,
        None => {
            return ;
        },
    };
    proof {
        lemma_chunk_index_found(world.chunks@, event.0.0);
    }
    let grid_position = (world.chunks[i].grid_x, world.chunks[i].grid_z);
    on_despawn_chunk(world, &DespawnChunk(event.0));
    let spawn = SpawnChunk {
        id: event.0,
        grid_position,
        descriptor: event.1.clone(),
        components: Vec::new(),
    };
    proof {
        assert(crate::chunk_assets::markers_view(spawn.components@) =~= Seq::<MarkerV>::empty());
    }
    on_spawn_chunk(world, descriptors, elements, &spawn);
}

/// `Swap(a, b)` is involutive on positions: swapping the same pair twice in
/// a row restores every chunk's translation and grid cell exactly, whether
/// or not both ids are spawned.
pub proof fn lemma_swap_involutive(chunks: Seq<Chunk>, a: u32, b: u32)
    ensures
        spec_swap(spec_swap(chunks, a, b), a, b) == chunks,
{
    match (spec_chunk_index(chunks, a), spec_chunk_index(chunks, b)) {
        (Some(i), Some(j)) => {
            lemma_chunk_index_found(chunks, a);
            lemma_chunk_index_found(chunks, b);
            let w1 = spec_swap(chunks, a, b);
            assert(forall|k: int|
                0 <= k < chunks.len() ==> (#[trigger] w1[k]).id == chunks[k].id);
            lemma_chunk_index_first(w1, a, i);
            lemma_chunk_index_first(w1, b, j);
            if i == j {
                assert(w1 =~= chunks);
                assert(spec_swap(w1, a, b) =~= chunks);
            } else {
                assert(w1[i] == spec_with_position(
                    chunks[i],
                    chunks[j].translation,
                    chunks[j].grid_x,
                    chunks[j].grid_z,
                ));
                assert(spec_swap(w1, a, b) =~= chunks);
            }
        },
        _ => {
        },
    }
}

} // verus!

verus! {

/// A chunk with its swap sensor slot set as given.
pub open spec fn spec_with_swap(c: Chunk, s: Option<SwapSensorChunk>) -> Chunk {
    Chunk { swap_sensor: s, ..c }
}

/// A chunk with its move sensor slot set as given.
pub open spec fn spec_with_move(c: Chunk, s: Option<MoveChunkSensorChunk>) -> Chunk {
    Chunk { move_sensor: s, ..c }
}

/// A chunk with its replace sensor slot set as given.
pub open spec fn spec_with_replace(c: Chunk, s: Option<ReplaceAssetSensorChunk>) -> Chunk {
    Chunk { replace_sensor: s, ..c }
}

/// Empties the swap sensor slot of the chunk at `i`.
fn clear_swap_sensor_at(world: &mut ChunkWorld, i: usize)
    requires
        i < old(world).chunks@.len(),
    ensures
        final(world).chunks@ == old(world).chunks@.update(
            i as int,
            spec_with_swap(old(world).chunks@[i as int], None),
        ),
{
    let mut c = blank_chunk();
    world.chunks.set_and_swap(i, &mut c);
    c.swap_sensor = None;
    world.chunks.set_and_swap(i, &mut c);
    proof {
        assert(final(world).chunks@ =~= old(world).chunks@.update(
            i as int,
            spec_with_swap(old(world).chunks@[i as int], None),
        ));
    }
}

/// Empties the move sensor slot of the chunk at `i`.
fn clear_move_sensor_at(world: &mut ChunkWorld, i: usize)
    requires
        i < old(world).chunks@.len(),
    ensures
        final(world).chunks@ == old(world).chunks@.update(
            i as int,
            spec_with_move(old(world).chunks@[i as int], None),
        ),
{
    let mut c = blank_chunk();
    world.chunks.set_and_swap(i, &mut c);
    c.move_sensor = None;
    world.chunks.set_and_swap(i, &mut c);
    proof {
        assert(final(world).chunks@ =~= old(world).chunks@.update(
            i as int,
            spec_with_move(old(world).chunks@[i as int], None),
        ));
    }
}

/// Sets the replace sensor slot of the chunk at `i`.
fn set_replace_sensor_at(world: &mut ChunkWorld, i: usize, s: Option<ReplaceAssetSensorChunk>)
    requires
        i < old(world).chunks@.len(),
    ensures
        final(world).chunks@ == old(world).chunks@.update(
            i as int,
            spec_with_replace(old(world).chunks@[i as int], s),
        ),
{
    let mut c = blank_chunk();
    world.chunks.set_and_swap(i, &mut c);
    c.replace_sensor = s;
    world.chunks.set_and_swap(i, &mut c);
    proof {
        assert(final(world).chunks@ =~= old(world).chunks@.update(
            i as int,
            spec_with_replace(old(world).chunks@[i as int], s),
        ));
    }
}

/// One entry's swap firing check. An armed entry does nothing. An unarmed
/// entry is armed, and if its chunk is spawned and carries a swap sensor,
/// the swap fires now — exactly once for this occupancy — and the sensor is
/// removed unless it asks to be preserved.
pub open spec fn spec_swap_fire(chunks: Seq<Chunk>, e: ActivePlayerChunk) -> (
    Seq<Chunk>,
    ActivePlayerChunk,
    Option<SwapSensorChunk>,
) {
    if e.swap_sensor_activated {
        (chunks, e, None)
    } else {
        let e2 = ActivePlayerChunk { swap_sensor_activated: true, ..e };
        match spec_chunk_index(chunks, e.chunk.0) {
            Some(i) => match chunks[i].swap_sensor {
                Some(s) => {
                    let w2 = spec_swap(chunks, s.chunk_a.0, s.chunk_b.0);
                    let w3 = if s.preserve_after_swap {
                        w2
                    } else {
                        match spec_chunk_index(w2, e.chunk.0) {
                            Some(k) => w2.update(k, spec_with_swap(w2[k], None)),
                            None => w2,
                        }
                    };
                    (w3, e2, Some(s))
                },
                None => (chunks, e2, None),
            },
            None => (chunks, e2, None),
        }
    }
}

/// The swap firing pass over the first `k` active entries, in order: the
/// world after their mutations, the entries armed, and the sensors that
/// fired.
pub open spec fn spec_swap_tick_upto(
    chunks: Seq<Chunk>,
    actives: Seq<ActivePlayerChunk>,
    k: int,
) -> (Seq<Chunk>, Seq<ActivePlayerChunk>, Seq<SwapSensorChunk>)
    decreases k,
{
    if k <= 0 || k > actives.len() {
        (chunks, actives, Seq::empty())
    } else {
        let r1 = spec_swap_tick_upto(chunks, actives, k - 1);
        let r2 = spec_swap_fire(r1.0, r1.1[k - 1]);
        (
            r2.0,
            r1.1.update(k - 1, r2.1),
            if r2.2 is Some {
                r1.2.push(r2.2->0)
            } else {
                r1.2
            },
        )
    }
}

/// The swap firing pass over the whole active set.
pub open spec fn spec_swap_tick(chunks: Seq<Chunk>, actives: Seq<ActivePlayerChunk>) -> (
    Seq<Chunk>,
    Seq<ActivePlayerChunk>,
    Seq<SwapSensorChunk>,
) {
    spec_swap_tick_upto(chunks, actives, actives.len() as int)
}

/// The per-tick swap firing check, one pass over the active set in order:
/// each unarmed entry is armed and, if its chunk carries a swap sensor, the
/// swap fires — so a sensor fires at most once per continuous overlap,
/// however many ticks the overlap lasts. Returns the sensors that fired, in
/// order.
#[verifier::loop_isolation(false)]
pub fn swap_chunks_on_contact_with_sensor(
    world: &mut ChunkWorld,
    active: &mut ActivePlayerChunks,
) -> (fired: Vec<SwapSensorChunk>)
    ensures
        final(world).chunks@ == spec_swap_tick(old(world).chunks@, old(active).0@).0,
        final(active).0@ == spec_swap_tick(old(world).chunks@, old(active).0@).1,
        fired@ == spec_swap_tick(old(world).chunks@, old(active).0@).2,
{
    let mut fired: Vec<SwapSensorChunk> = Vec::new();
    let mut i: usize = 0;
    while i < active.0.len()
        invariant
            0 <= i <= active.0@.len(),
            active.0@.len() == old(active).0@.len(),
            world.chunks@ == spec_swap_tick_upto(old(world).chunks@, old(active).0@, i as int).0,
            active.0@ == spec_swap_tick_upto(old(world).chunks@, old(active).0@, i as int).1,
            fired@ == spec_swap_tick_upto(old(world).chunks@, old(active).0@, i as int).2,
        decreases active.0@.len() - i,
    {
        let ghost r1 = spec_swap_tick_upto(old(world).chunks@, old(active).0@, i as int);
        let e = active.0[i];
        if !e.swap_sensor_activated {
            active.0.set(i, ActivePlayerChunk { swap_sensor_activated: true, ..e });
            match find_chunk_index(world, e.chunk.0) {
                Some(ci) => {
                    proof {
                        lemma_chunk_index_found(world.chunks@, e.chunk.0);
                    }
                    match world.chunks[ci].swap_sensor {
                        Some(s) => {
                            on_swap_chunks(world, &SwapChunks(s.chunk_a, s.chunk_b));
                            if !s.preserve_after_swap {
                                match find_chunk_index(world, e.chunk.0) {
                                    Some(k) => {
                                        proof {
                                            lemma_chunk_index_found(world.chunks@, e.chunk.0);
                                        }
                                        clear_swap_sensor_at(world, k);
                                    },
                                    None => {},
                                }
                            }
                            fired.push(s);
                        },
                        None => {},
                    }
                },
                None => {},
            }
        }
        i += 1;
        proof {
            assert(active.0@ =~= spec_swap_tick_upto(
                old(world).chunks@,
                old(active).0@,
                i as int,
            ).1);
            assert(fired@ =~= spec_swap_tick_upto(old(world).chunks@, old(active).0@, i as int).2);
        }
    }
    fired
}

} // verus!

verus! {

/// One entry's move firing check: arm the entry; if its chunk carries a
/// move sensor, move the target chunk and remove the sensor — a move sensor
/// is one-shot.
pub open spec fn spec_move_fire(chunks: Seq<Chunk>, e: ActivePlayerChunk) -> (
    Seq<Chunk>,
    ActivePlayerChunk,
    Option<MoveChunkSensorChunk>,
) {
    if e.move_sensor_activated {
        (chunks, e, None)
    } else {
        let e2 = ActivePlayerChunk { move_sensor_activated: true, ..e };
        match spec_chunk_index(chunks, e.chunk.0) {
            Some(i) => match chunks[i].move_sensor {
                Some(s) => {
                    let w2 = spec_move(chunks, s.chunk.0, s.x, s.z);
                    let w3 = match spec_chunk_index(w2, e.chunk.0) {
                        Some(k) => w2.update(k, spec_with_move(w2[k], None)),
                        None => w2,
                    };
                    (w3, e2, Some(s))
                },
                None => (chunks, e2, None),
            },
            None => (chunks, e2, None),
        }
    }
}

/// The move firing pass over the first `k` active entries.
pub open spec fn spec_move_tick_upto(
    chunks: Seq<Chunk>,
    actives: Seq<ActivePlayerChunk>,
    k: int,
) -> (Seq<Chunk>, Seq<ActivePlayerChunk>, Seq<MoveChunkSensorChunk>)
    decreases k,
{
    if k <= 0 || k > actives.len() {
        (chunks, actives, Seq::empty())
    } else {
        let r1 = spec_move_tick_upto(chunks, actives, k - 1);
        let r2 = spec_move_fire(r1.0, r1.1[k - 1]);
        (
            r2.0,
            r1.1.update(k - 1, r2.1),
            if r2.2 is Some {
                r1.2.push(r2.2->0)
            } else {
                r1.2
            },
        )
    }
}

/// The move firing pass over the whole active set.
pub open spec fn spec_move_tick(chunks: Seq<Chunk>, actives: Seq<ActivePlayerChunk>) -> (
    Seq<Chunk>,
    Seq<ActivePlayerChunk>,
    Seq<MoveChunkSensorChunk>,
) {
    spec_move_tick_upto(chunks, actives, actives.len() as int)
}

/// The per-tick move firing check: each unarmed entry is armed and, if its
/// chunk carries a move sensor, the target chunk moves to the sensor's grid
/// cell and the sensor is removed — a move fires at most once per entry and
/// never again after that. Returns the sensors that fired, in order.
#[verifier::loop_isolation(false)]
pub fn move_chunk_on_contact_with_sensor(
    world: &mut ChunkWorld,
    active: &mut ActivePlayerChunks,
) -> (fired: Vec<MoveChunkSensorChunk>)
    ensures
        final(world).chunks@ == spec_move_tick(old(world).chunks@, old(active).0@).0,
        final(active).0@ == spec_move_tick(old(world).chunks@, old(active).0@).1,
        fired@ == spec_move_tick(old(world).chunks@, old(active).0@).2,
{
    let mut fired: Vec<MoveChunkSensorChunk> = Vec::new();
    let mut i: usize = 0;
    while i < active.0.len()
        invariant
            0 <= i <= active.0@.len(),
            active.0@.len() == old(active).0@.len(),
            world.chunks@ == spec_move_tick_upto(old(world).chunks@, old(active).0@, i as int).0,
            active.0@ == spec_move_tick_upto(old(world).chunks@, old(active).0@, i as int).1,
            fired@ == spec_move_tick_upto(old(world).chunks@, old(active).0@, i as int).2,
        decreases active.0@.len() - i,
    {
        let e = active.0[i];
        if !e.move_sensor_activated {
            active.0.set(i, ActivePlayerChunk { move_sensor_activated: true, ..e });
            match find_chunk_index(world, e.chunk.0) {
                Some(ci) => {
                    proof {
                        lemma_chunk_index_found(world.chunks@, e.chunk.0);
                    }
                    match world.chunks[ci].move_sensor {
                        Some(s) => {
                            on_move_chunk(world, &MoveChunk(s.chunk, s.x, s.z));
                            match find_chunk_index(world, e.chunk.0) {
                                Some(k) => {
                                    proof {
                                        lemma_chunk_index_found(world.chunks@, e.chunk.0);
                                    }
                                    clear_move_sensor_at(world, k);
                                },
                                None => {},
                            }
                            fired.push(s);
                        },
                        None => {},
                    }
                },
                None => {},
            }
        }
        i += 1;
        proof {
            assert(active.0@ =~= spec_move_tick_upto(
                old(world).chunks@,
                old(active).0@,
                i as int,
            ).1);
            assert(fired@ =~= spec_move_tick_upto(old(world).chunks@, old(active).0@, i as int).2);
        }
    }
    fired
}

/// One entry's replace firing check: arm the entry; if its chunk carries a
/// replace sensor, emit the replace event and update the sensor — inverted
/// (its descriptor exchanged for the target's pre-replace one) when it asks
/// to be, removed otherwise. A missing target leaves an inverting sensor
/// untouched: there is no descriptor to invert against, and that is not an
/// error.
pub open spec fn spec_replace_fire(chunks: Seq<Chunk>, e: ActivePlayerChunk) -> (
    Seq<Chunk>,
    ActivePlayerChunk,
    Option<ReplaceChunkAsset>,
) {
    if e.asset_sensor_activated {
        (chunks, e, None)
    } else {
        let e2 = ActivePlayerChunk { asset_sensor_activated: true, ..e };
        match spec_chunk_index(chunks, e.chunk.0) {
            Some(i) => match chunks[i].replace_sensor {
                Some(s) => {
                    let ev = Some(ReplaceChunkAsset(s.chunk, s.descriptor));
                    if s.invert_after_swap {
                        match spec_chunk_index(chunks, s.chunk.0) {
                            Some(t) => {
                                let inverted = ReplaceAssetSensorChunk {
                                    chunk: s.chunk,
                                    descriptor: chunks[t].descriptor_name,
                                    invert_after_swap: true,
                                };
                                (
                                    chunks.update(
                                        i,
                                        spec_with_replace(chunks[i], Some(inverted)),
                                    ),
                                    e2,
                                    ev,
                                )
                            },
                            None => (chunks, e2, ev),
                        }
                    } else {
                        (chunks.update(i, spec_with_replace(chunks[i], None)), e2, ev)
                    }
                },
                None => (chunks, e2, None),
            },
            None => (chunks, e2, None),
        }
    }
}

/// The replace firing pass over the first `k` active entries.
pub open spec fn spec_replace_tick_upto(
    chunks: Seq<Chunk>,
    actives: Seq<ActivePlayerChunk>,
    k: int,
) -> (Seq<Chunk>, Seq<ActivePlayerChunk>, Seq<ReplaceChunkAsset>)
    decreases k,
{
    if k <= 0 || k > actives.len() {
        (chunks, actives, Seq::empty())
    } else {
        let r1 = spec_replace_tick_upto(chunks, actives, k - 1);
        let r2 = spec_replace_fire(r1.0, r1.1[k - 1]);
        (
            r2.0,
            r1.1.update(k - 1, r2.1),
            if r2.2 is Some {
                r1.2.push(r2.2->0)
            } else {
                r1.2
            },
        )
    }
}

/// The replace firing pass over the whole active set.
pub open spec fn spec_replace_tick(chunks: Seq<Chunk>, actives: Seq<ActivePlayerChunk>) -> (
    Seq<Chunk>,
    Seq<ActivePlayerChunk>,
    Seq<ReplaceChunkAsset>,
) {
    spec_replace_tick_upto(chunks, actives, actives.len() as int)
}

/// The per-tick replace firing check: each unarmed entry is armed and, if
/// its chunk carries a replace sensor, a replace event for the sensor's
/// target and descriptor is emitted — at most once per continuous overlap.
/// The sensor itself is inverted or removed now; the emitted events are the
/// chunk replacements still to apply, in firing order, as replacement is
/// deferred until after the pass (`on_replace_chunk_asset` applies one).
#[verifier::loop_isolation(false)]
pub fn replace_chunk_asset_on_contact_with_sensor(
    world: &mut ChunkWorld,
    active: &mut ActivePlayerChunks,
) -> (fired: Vec<ReplaceChunkAsset>)
    ensures
        final(world).chunks@ == spec_replace_tick(old(world).chunks@, old(active).0@).0,
        final(active).0@ == spec_replace_tick(old(world).chunks@, old(active).0@).1,
        fired@ == spec_replace_tick(old(world).chunks@, old(active).0@).2,
{
    let mut fired: Vec<ReplaceChunkAsset> = Vec::new();
    let mut i: usize = 0;
    while i < active.0.len()
        invariant
            0 <= i <= active.0@.len(),
            active.0@.len() == old(active).0@.len(),
            world.chunks@ == spec_replace_tick_upto(old(world).chunks@, old(active).0@, i as int).0,
            active.0@ == spec_replace_tick_upto(old(world).chunks@, old(active).0@, i as int).1,
            fired@ == spec_replace_tick_upto(old(world).chunks@, old(active).0@, i as int).2,
        decreases active.0@.len() - i,
    {
        let e = active.0[i];
        if !e.asset_sensor_activated {
            active.0.set(i, ActivePlayerChunk { asset_sensor_activated: true, ..e });
            match find_chunk_index(world, e.chunk.0) {
                Some(ci) => {
                    proof {
                        lemma_chunk_index_found(world.chunks@, e.chunk.0);
                    }
                    let sensor: Option<(ChunkId, String, bool)> = match &world.chunks[ci]
                        .replace_sensor {
                        Some(s) => Some((s.chunk, s.descriptor.clone(), s.invert_after_swap)),
                        None => None,
                    };
                    match sensor {
                        Some((target, descriptor, invert)) => {
                            if invert {
                                match find_chunk_index(world, target.0) {
                                    Some(t) => {
                                        proof {
                                            lemma_chunk_index_found(world.chunks@, target.0);
                                        }
                                        let inverted = ReplaceAssetSensorChunk {
                                            chunk: target,
                                            descriptor: world.chunks[t].descriptor_name.clone(),
                                            invert_after_swap: true,
                                        };
                                        set_replace_sensor_at(world, ci, Some(inverted));
                                    },
                                    None => {},
                                }
                            } else {
                                set_replace_sensor_at(world, ci, None);
                            }
                            fired.push(ReplaceChunkAsset(target, descriptor));
                        },
                        None => {},
                    }
                },
                None => {},
            }
        }
        i += 1;
        proof {
            assert(active.0@ =~= spec_replace_tick_upto(
                old(world).chunks@,
                old(active).0@,
                i as int,
            ).1);
            assert(fired@ =~= spec_replace_tick_upto(
                old(world).chunks@,
                old(active).0@,
                i as int,
            ).2);
        }
    }
    fired
}

} // verus!

verus! {

/// `n` swap firing passes in a row over the same active set, with all the
/// fired sensors collected in order.
pub open spec fn spec_swap_ticks(
    chunks: Seq<Chunk>,
    actives: Seq<ActivePlayerChunk>,
    n: nat,
) -> (Seq<Chunk>, Seq<ActivePlayerChunk>, Seq<SwapSensorChunk>)
    decreases n,
{
    if n == 0 {
        (chunks, actives, Seq::empty())
    } else {
        let r1 = spec_swap_ticks(chunks, actives, (n - 1) as nat);
        let r2 = spec_swap_tick(r1.0, r1.1);
        (r2.0, r2.1, r1.2 + r2.2)
    }
}

/// A swap pass over a single already-armed entry changes nothing and fires
/// nothing.
pub proof fn lemma_swap_tick_armed(chunks: Seq<Chunk>, e: ActivePlayerChunk)
    requires
        e.swap_sensor_activated,
    ensures
        spec_swap_tick(chunks, seq![e]).0 == chunks,
        spec_swap_tick(chunks, seq![e]).1 == seq![e],
        spec_swap_tick(chunks, seq![e]).2 == Seq::<SwapSensorChunk>::empty(),
{
    let a = seq![e];
    assert(spec_swap_tick_upto(chunks, a, 0) == (chunks, a, Seq::<SwapSensorChunk>::empty()));
    assert(spec_swap_fire(chunks, e) == (chunks, e, Option::<SwapSensorChunk>::None));
    assert(a.update(0, e) =~= a);
}

/// A swap changes no chunk's identity or sensors, only positions.
pub proof fn lemma_swap_keeps_ids(chunks: Seq<Chunk>, a: u32, b: u32)
    ensures
        spec_swap(chunks, a, b).len() == chunks.len(),
        forall|k: int|
            0 <= k < chunks.len() ==> (#[trigger] spec_swap(chunks, a, b)[k]).id == chunks[k].id
                && spec_swap(chunks, a, b)[k].swap_sensor == chunks[k].swap_sensor,
{
    match (spec_chunk_index(chunks, a), spec_chunk_index(chunks, b)) {
        (Some(i), Some(j)) => {
            lemma_chunk_index_found(chunks, a);
            lemma_chunk_index_found(chunks, b);
        },
        _ => {
        },
    }
}

/// Two worlds whose chunks carry the same ids position for position index
/// every id at the same place.
pub proof fn lemma_index_same_ids(s1: Seq<Chunk>, s2: Seq<Chunk>, id: u32)
    requires
        s1.len() == s2.len(),
        forall|k: int| 0 <= k < s1.len() ==> (#[trigger] s1[k]).id == s2[k].id,
    ensures
        spec_chunk_index(s1, id) == spec_chunk_index(s2, id),
    decreases s1.len(),
{
    if s1.len() > 0 {
        assert(s1[0].id == s2[0].id);
        assert forall|k: int|
            0 <= k < s1.drop_first().len() implies (#[trigger] s1.drop_first()[k]).id
            == s2.drop_first()[k].id by {
            assert(s1.drop_first()[k] == s1[k + 1]);
        }
        lemma_index_same_ids(s1.drop_first(), s2.drop_first(), id);
    }
}

/// At-most-one-fire: a chunk carrying a one-shot swap sensor (one that is
/// not preserved after the swap), continuously overlapped by the player for
/// any number of firing passes, fires the swap exactly once, and the first
/// pass removes the sensor — so the checks fire nothing more, however many
/// passes follow, and nothing even after a later exit and re-entry.
pub proof fn lemma_at_most_one_fire(chunks: Seq<Chunk>, c: u32, n: nat)
    requires
        spec_chunk_index(chunks, c) is Some,
        chunks[spec_chunk_index(chunks, c)->0].swap_sensor is Some,
        !chunks[spec_chunk_index(chunks, c)->0].swap_sensor->0.preserve_after_swap,
        n >= 1,
    ensures
        spec_swap_ticks(chunks, seq![spec_fresh_entry(ChunkId(c))], n).2 == seq![
            chunks[spec_chunk_index(chunks, c)->0].swap_sensor->0,
        ],
        ({
            let w = spec_swap_ticks(chunks, seq![spec_fresh_entry(ChunkId(c))], n).0;
            spec_chunk_index(w, c) == spec_chunk_index(chunks, c) && w[spec_chunk_index(
                chunks,
                c,
            )->0].swap_sensor is None
        }),
    decreases n,
{
    let i = spec_chunk_index(chunks, c)->0;
    let s = chunks[i].swap_sensor->0;
    let e0 = spec_fresh_entry(ChunkId(c));
    let a0 = seq![e0];
    lemma_chunk_index_found(chunks, c);
    let r2 = spec_swap_fire(chunks, e0);
    let e1 = ActivePlayerChunk { swap_sensor_activated: true, ..e0 };
    assert(r2.1 == e1);
    assert(r2.2 == Some(s));
    let t1 = spec_swap_tick(chunks, a0);
    assert(spec_swap_tick_upto(chunks, a0, 0) == (chunks, a0, Seq::<SwapSensorChunk>::empty()));
    assert(a0.update(0, e1) =~= seq![e1]);
    assert(t1.1 == seq![e1]);
    assert(t1.2 =~= seq![s]);
    let w2 = spec_swap(chunks, s.chunk_a.0, s.chunk_b.0);
    lemma_swap_keeps_ids(chunks, s.chunk_a.0, s.chunk_b.0);
    lemma_index_same_ids(w2, chunks, c);
    assert(spec_chunk_index(w2, c) == Some(i));
    let w3 = w2.update(i, spec_with_swap(w2[i], None));
    assert(t1.0 == w3);
    assert forall|k2: int| 0 <= k2 < w3.len() implies (#[trigger] w3[k2]).id == chunks[k2].id by {
        if k2 != i {
            assert(w3[k2] == w2[k2]);
        }
    }
    lemma_index_same_ids(w3, chunks, c);
    assert(spec_chunk_index(w3, c) == Some(i));
    assert(w3[i].swap_sensor is None);
    assert(spec_swap_ticks(chunks, a0, 0) == (chunks, a0, Seq::<SwapSensorChunk>::empty()));
    if n == 1 {
        assert(spec_swap_ticks(chunks, a0, 1).0 == t1.0);
        assert(spec_swap_ticks(chunks, a0, 1).2 =~= Seq::<SwapSensorChunk>::empty() + t1.2);
        assert(spec_swap_ticks(chunks, a0, 1).2 =~= seq![s]);
    } else {
        lemma_swap_ticks_armed_stable(chunks, a0, t1, (n - 1) as nat);
        assert(spec_swap_ticks(chunks, a0, n).2 =~= seq![s]);
    }
}

/// After the first pass armed the lone entry, every later pass leaves the
/// world and the entry alone and fires nothing.
pub proof fn lemma_swap_ticks_armed_stable(
    chunks: Seq<Chunk>,
    a0: Seq<ActivePlayerChunk>,
    t1: (Seq<Chunk>, Seq<ActivePlayerChunk>, Seq<SwapSensorChunk>),
    m: nat,
)
    requires
        t1 == spec_swap_tick(chunks, a0),
        t1.1.len() == 1,
        t1.1[0].swap_sensor_activated,
    ensures
        spec_swap_ticks(chunks, a0, (m + 1) as nat).0 == t1.0,
        spec_swap_ticks(chunks, a0, (m + 1) as nat).1 == t1.1,
        spec_swap_ticks(chunks, a0, (m + 1) as nat).2 == Seq::<SwapSensorChunk>::empty() + t1.2,
    decreases m,
{
    assert(spec_swap_ticks(chunks, a0, 0) == (chunks, a0, Seq::<SwapSensorChunk>::empty()));
    if m == 0 {
        assert(spec_swap_ticks(chunks, a0, 1).0 == t1.0);
        assert(spec_swap_ticks(chunks, a0, 1).1 == t1.1);
        assert(spec_swap_ticks(chunks, a0, 1).2 =~= Seq::<SwapSensorChunk>::empty() + t1.2);
    } else {
        lemma_swap_ticks_armed_stable(chunks, a0, t1, (m - 1) as nat);
        let rprev = spec_swap_ticks(chunks, a0, m as nat);
        assert(rprev.1 =~= seq![t1.1[0]]);
        lemma_swap_tick_armed(rprev.0, t1.1[0]);
        assert(spec_swap_tick(rprev.0, rprev.1).2 =~= Seq::<SwapSensorChunk>::empty());
        assert(spec_swap_ticks(chunks, a0, (m + 1) as nat).2 =~= rprev.2);
    }
}

/// Re-arm on exit and re-entry: a chunk whose swap sensor is preserved
/// after the swap fires once for the first occupancy; after the player
/// leaves and enters again, the next firing pass fires it a second time —
/// two fires in all, one per occupancy.
pub proof fn lemma_rearm_on_reentry(chunks: Seq<Chunk>, c: u32)
    requires
        spec_chunk_index(chunks, c) is Some,
        chunks[spec_chunk_index(chunks, c)->0].swap_sensor is Some,
        chunks[spec_chunk_index(chunks, c)->0].swap_sensor->0.preserve_after_swap,
    ensures
        ({
            let a0 = spec_enter(Seq::empty(), c);
            let t1 = spec_swap_tick(chunks, a0);
            let a1 = spec_exit(t1.1, c);
            let a2 = spec_enter(a1, c);
            let t2 = spec_swap_tick(t1.0, a2);
            t1.2.len() + t2.2.len() == 2
        }),
{
    let i = spec_chunk_index(chunks, c)->0;
    let s = chunks[i].swap_sensor->0;
    lemma_chunk_index_found(chunks, c);
    let e0 = spec_fresh_entry(ChunkId(c));
    assert(!spec_has_entry(Seq::empty(), c));
    let a0 = spec_enter(Seq::empty(), c);
    assert(a0 =~= seq![e0]);
    let r2 = spec_swap_fire(chunks, e0);
    assert(r2.2 == Some(s));
    let t1 = spec_swap_tick(chunks, a0);
    assert(spec_swap_tick_upto(chunks, a0, 0) == (chunks, a0, Seq::<SwapSensorChunk>::empty()));
    let e1 = ActivePlayerChunk { swap_sensor_activated: true, ..e0 };
    assert(t1.0 == spec_swap(chunks, s.chunk_a.0, s.chunk_b.0));
    assert(t1.1 =~= seq![e1]);
    assert(t1.2 =~= seq![s]);
    let a1 = spec_exit(t1.1, c);
    assert(seq![e1].drop_last() =~= Seq::<ActivePlayerChunk>::empty());
    reveal_with_fuel(Seq::filter, 2);
    assert(a1 =~= Seq::<ActivePlayerChunk>::empty());
    assert(!spec_has_entry(a1, c));
    let a2 = spec_enter(a1, c);
    assert(a2 =~= seq![e0]);
    lemma_swap_keeps_ids(chunks, s.chunk_a.0, s.chunk_b.0);
    lemma_index_same_ids(t1.0, chunks, c);
    assert(spec_chunk_index(t1.0, c) == Some(i));
    assert(t1.0[i].swap_sensor == Some(s));
    let r2b = spec_swap_fire(t1.0, e0);
    assert(r2b.2 == Some(s));
    let t2 = spec_swap_tick(t1.0, a2);
    assert(spec_swap_tick_upto(t1.0, a2, 0) == (t1.0, a2, Seq::<SwapSensorChunk>::empty()));
    assert(t2.2 =~= seq![s]);
}

} // verus!

verus! {

/// Once a chunk's swap sensor is gone, a firing pass fires nothing for it,
/// even for a fresh occupancy after exit and re-entry: the pass only arms
/// the entry and leaves the world alone.
pub proof fn lemma_removed_sensor_stays_quiet(chunks: Seq<Chunk>, c: u32)
    requires
        spec_chunk_index(chunks, c) is Some ==> chunks[spec_chunk_index(chunks, c)->0].swap_sensor
            is None,
    ensures
        spec_swap_tick(chunks, seq![spec_fresh_entry(ChunkId(c))]).0 == chunks,
        spec_swap_tick(chunks, seq![spec_fresh_entry(ChunkId(c))]).2 == Seq::<
            SwapSensorChunk,
        >::empty(),
{
    let e0 = spec_fresh_entry(ChunkId(c));
    let a0 = seq![e0];
    assert(spec_swap_tick_upto(chunks, a0, 0) == (chunks, a0, Seq::<SwapSensorChunk>::empty()));
    if spec_chunk_index(chunks, c) is Some {
        lemma_chunk_index_found(chunks, c);
    }
    assert(spec_swap_fire(chunks, e0).0 == chunks);
    assert(spec_swap_fire(chunks, e0).2 is None);
}

} // verus!

verus! {

/// A move pass over a single already-armed entry changes nothing and fires
/// nothing — with arming on the first pass, a move sensor fires at most
/// once per continuous occupancy.
pub proof fn lemma_move_tick_armed(chunks: Seq<Chunk>, e: ActivePlayerChunk)
    requires
        e.move_sensor_activated,
    ensures
        spec_move_tick(chunks, seq![e]).0 == chunks,
        spec_move_tick(chunks, seq![e]).1 == seq![e],
        spec_move_tick(chunks, seq![e]).2 == Seq::<MoveChunkSensorChunk>::empty(),
{
    let a = seq![e];
    assert(spec_move_tick_upto(chunks, a, 0) == (chunks, a, Seq::<MoveChunkSensorChunk>::empty()));
    assert(spec_move_fire(chunks, e) == (chunks, e, Option::<MoveChunkSensorChunk>::None));
    assert(a.update(0, e) =~= a);
}

/// A replace pass over a single already-armed entry changes nothing and
/// emits nothing — with arming on the first pass, a replace sensor fires at
/// most once per continuous occupancy.
pub proof fn lemma_replace_tick_armed(chunks: Seq<Chunk>, e: ActivePlayerChunk)
    requires
        e.asset_sensor_activated,
    ensures
        spec_replace_tick(chunks, seq![e]).0 == chunks,
        spec_replace_tick(chunks, seq![e]).1 == seq![e],
        spec_replace_tick(chunks, seq![e]).2 == Seq::<ReplaceChunkAsset>::empty(),
{
    let a = seq![e];
    assert(spec_replace_tick_upto(chunks, a, 0) == (chunks, a, Seq::<ReplaceChunkAsset>::empty()));
    assert(spec_replace_fire(chunks, e) == (chunks, e, Option::<ReplaceChunkAsset>::None));
    assert(a.update(0, e) =~= a);
}

} // verus!
