//! Runtime chunks: identifiers, sensor components, marker expansion, and the
//! spawn/despawn lifecycle over a [`ChunkWorld`].

use vstd::prelude::*;

use crate::geometry::{Color, Transform, Vec3};
use crate::chunk_assets::{find_element, markers_view, spec_find_element, ChunkDescriptor, ChunkElement,
    ChunkElementShape, ChunkMarker, MarkerV, ReplaceSensorV, ShapeV};
use crate::stash::{find_descriptor, spec_find_descriptor};
use crate::CHUNK_SIZE;

verus! {

/// Stable integer identity of a chunk within a level.
#[derive(Clone, Copy, PartialEq, Eq, Structural, Debug)]
pub struct ChunkId(pub u32);

/// Intent to destroy the chunk with the given id and its whole subtree.
#[derive(Clone, Copy, PartialEq, Eq, Structural, Debug)]
pub struct DespawnChunk(pub ChunkId);

/// Sensor component: when the player enters the carrying chunk, the chunks
/// `chunk_a` and `chunk_b` exchange their world translations.
#[derive(Clone, Copy, PartialEq, Eq, Structural, Debug)]
pub struct SwapSensorChunk {
    /// Id of the chunk to be swapped with `chunk_b`.
    pub chunk_a: ChunkId,
    /// Id of the chunk to be swapped with `chunk_a`.
    pub chunk_b: ChunkId,
    /// Whether the sensor is kept (and re-arms on re-entry) or removed after
    /// the first swap.
    pub preserve_after_swap: bool,
}

/// Sensor component: when the player enters the carrying chunk, the chunk
/// `chunk` is despawned and respawned with the named descriptor.
#[derive(Clone, Debug)]
pub struct ReplaceAssetSensorChunk {
    /// Id of the chunk whose descriptor will be replaced with `descriptor`.
    pub chunk: ChunkId,
    /// Name of the chunk descriptor that will be swapped in.
    pub descriptor: String,
    /// Whether the sensor is inverted (its descriptor exchanged with the
    /// target's previous one) or removed after the first replacement.
    pub invert_after_swap: bool,
}

/// Sensor component: when the player enters the carrying chunk, the chunk
/// `chunk` is moved to grid position `(x, z)`.
#[derive(Clone, Copy, PartialEq, Eq, Structural, Debug)]
pub struct MoveChunkSensorChunk {
    /// Id of the chunk to move.
    pub chunk: ChunkId,
    /// Target grid column.
    pub x: i32,
    /// Target grid row.
    pub z: i32,
}

/// A point light attached to a chunk; all parameters are plain fixed-point
/// integers (lengths in thousandths of a world unit).
#[derive(Clone, Copy, PartialEq, Eq, Structural, Debug)]
pub struct ChunkLight {
    pub transform: Transform,
    pub intensity: i64,
    pub color: Color,
    pub range: i64,
}

/// A player spawn point within a chunk.
#[derive(Clone, Copy, PartialEq, Eq, Structural, Debug)]
pub struct SpawnMarker(pub Transform);

} // verus!

verus! {

/// A collision volume attached to a spawned element, in thousandths of a
/// world unit.
#[derive(Clone, Copy, PartialEq, Eq, Structural, Debug)]
pub enum ColliderShape {
    Cuboid { x: i64, y: i64, z: i64 },
    Sphere { radius: i64 },
}

/// One piece of geometry instantiated under a chunk root: the element data
/// plus the collider derived from its shape.
pub struct SpawnedElement {
    pub name: String,
    pub transform: Transform,
    pub shape: ChunkElementShape,
    pub color: Color,
    pub collider: Option<ColliderShape>,
}

/// Thickness of the flat collider under a plane element.
pub const PLANE_COLLIDER_THICKNESS: i64 = 100;

/// Extent of the fixed fallback collider around an external model.
pub const MODEL_COLLIDER_EXTENT: i64 = 20000;

/// The collider a shape produces: a plane becomes a flat cuboid twice its
/// size, a cube a cuboid of its length, a sphere a sphere of its radius; an
/// external model gets a fixed fallback cuboid only when the element asks
/// for a collider.
pub open spec fn spec_collider_for(shape: ShapeV, has_collider: bool) -> Option<ColliderShape> {
    match shape {
        ShapeV::Plane { size } => Some(
            ColliderShape::Cuboid {
                x: (2 * size) as i64,
                y: PLANE_COLLIDER_THICKNESS,
                z: (2 * size) as i64,
            },
        ),
        ShapeV::Cube { length } => Some(ColliderShape::Cuboid { x: length, y: length, z: length }),
        ShapeV::Sphere { radius } => Some(ColliderShape::Sphere { radius }),
        ShapeV::Gltf { .. } => if has_collider {
            Some(
                ColliderShape::Cuboid {
                    x: MODEL_COLLIDER_EXTENT,
                    y: MODEL_COLLIDER_EXTENT,
                    z: MODEL_COLLIDER_EXTENT,
                },
            )
        } else {
            None
        },
    }
}

/// The geometry record an element instantiates to; deterministic in the
/// element alone.
pub open spec fn spec_element_geometry(e: ChunkElement) -> SpawnedElement {
    SpawnedElement {
        name: e.name,
        transform: e.transform,
        shape: e.shape,
        color: e.color,
        collider: spec_collider_for(e@.shape, e.has_collider),
    }
}

/// Instantiates one element into its spawned geometry record.
pub fn element_geometry(e: &ChunkElement) -> (r: SpawnedElement)
    requires
        crate::chunk_assets::element_v_ok(e@),
    ensures
        r == spec_element_geometry(*e),
{
    let collider: Option<ColliderShape> = match &e.shape {
        ChunkElementShape::Plane { size } => Some(
            ColliderShape::Cuboid {
                x: 2 * *size,
                y: PLANE_COLLIDER_THICKNESS,
                z: 2 * *size,
            },
        ),
        ChunkElementShape::Cube { length } => Some(
            ColliderShape::Cuboid { x: *length, y: *length, z: *length },
        ),
        ChunkElementShape::Sphere { radius } => Some(ColliderShape::Sphere { radius: *radius }),
        ChunkElementShape::Gltf { .. } => if e.has_collider {
            Some(
                ColliderShape::Cuboid {
                    x: MODEL_COLLIDER_EXTENT,
                    y: MODEL_COLLIDER_EXTENT,
                    z: MODEL_COLLIDER_EXTENT,
                },
            )
        } else {
            None
        },
    };
    SpawnedElement {
        name: e.name.clone(),
        transform: e.transform,
        shape: clone_shape(&e.shape),
        color: e.color,
        collider,
    }
}

/// Rebuilds a shape as an equal value.
pub fn clone_shape(s: &ChunkElementShape) -> (r: ChunkElementShape)
    ensures
        r == *s,
{
    match s {
        ChunkElementShape::Plane { size } => ChunkElementShape::Plane { size: *size },
        ChunkElementShape::Cube { length } => ChunkElementShape::Cube { length: *length },
        ChunkElementShape::Sphere { radius } => ChunkElementShape::Sphere { radius: *radius },
        ChunkElementShape::Gltf { mesh_path } => ChunkElementShape::Gltf {
            mesh_path: mesh_path.clone(),
        },
    }
}

} // verus!

verus! {

/// Marker list attached to a chunk root at spawn, before expansion.
#[derive(Debug)]
pub struct ChunkMarkers(pub Vec<ChunkMarker>);

/// The runtime state a marker list expands into. Each sensor slot holds at
/// most one sensor: a later marker of the same kind replaces an earlier one,
/// as inserting a component twice would.
pub struct MarkerExpansion {
    pub spawn_markers: Vec<SpawnMarker>,
    pub lights: Vec<ChunkLight>,
    pub swap_sensor: Option<SwapSensorChunk>,
    pub replace_sensor: Option<ReplaceAssetSensorChunk>,
    pub move_sensor: Option<MoveChunkSensorChunk>,
}

/// Ghost view of a marker expansion.
#[verifier::ext_equal]
pub ghost struct ExpansionV {
    pub spawn_markers: Seq<Transform>,
    pub lights: Seq<ChunkLight>,
    pub swap_sensor: Option<SwapSensorChunk>,
    pub replace_sensor: Option<ReplaceSensorV>,
    pub move_sensor: Option<MoveChunkSensorChunk>,
}

/// The view of an optional replace sensor.
pub open spec fn replace_opt_view(r: Option<ReplaceAssetSensorChunk>) -> Option<ReplaceSensorV> {
    match r {
        Some(s) => Some(s@),
        None => None,
    }
}

impl View for MarkerExpansion {
    type V = ExpansionV;

    open spec fn view(&self) -> ExpansionV {
        ExpansionV {
            spawn_markers: self.spawn_markers@.map_values(|m: SpawnMarker| m.0),
            lights: self.lights@,
            swap_sensor: self.swap_sensor,
            replace_sensor: replace_opt_view(self.replace_sensor),
            move_sensor: self.move_sensor,
        }
    }
}

/// The empty expansion.
pub open spec fn spec_expansion_empty() -> ExpansionV {
    ExpansionV {
        spawn_markers: Seq::empty(),
        lights: Seq::empty(),
        swap_sensor: None,
        replace_sensor: None,
        move_sensor: None,
    }
}

/// Folds one marker into an expansion.
pub open spec fn spec_expand_step(acc: ExpansionV, m: MarkerV) -> ExpansionV {
    match m {
        MarkerV::PlayerSpawn(t) => ExpansionV { spawn_markers: acc.spawn_markers.push(t), ..acc },
        MarkerV::Light(l) => ExpansionV { lights: acc.lights.push(l), ..acc },
        MarkerV::SwapSensor(s) => ExpansionV { swap_sensor: Some(s), ..acc },
        MarkerV::ReplaceAssetSensor(r) => ExpansionV { replace_sensor: Some(r), ..acc },
        MarkerV::MoveChunkSensor(s) => ExpansionV { move_sensor: Some(s), ..acc },
    }
}

/// The runtime state a marker list expands into, marker by marker in order.
pub open spec fn spec_expand_markers(ms: Seq<MarkerV>) -> ExpansionV
    decreases ms.len(),
{
    if ms.len() == 0 {
        spec_expansion_empty()
    } else {
        spec_expand_step(spec_expand_markers(ms.drop_last()), ms.last())
    }
}

/// Expands a marker list into concrete runtime state, synchronously: spawn
/// points and lights accumulate in order, and the last sensor of each kind
/// wins the slot.
pub fn instantiate_markers(markers: &Vec<ChunkMarker>) -> (r: MarkerExpansion)
    ensures
        r@ == spec_expand_markers(markers_view(markers@)),
{
    let mut out = MarkerExpansion {
        spawn_markers: Vec::new(),
        lights: Vec::new(),
        swap_sensor: None,
        replace_sensor: None,
        move_sensor: None,
    };
    proof {
        assert(markers_view(markers@).take(0) =~= Seq::<MarkerV>::empty());
        assert(out@ =~= spec_expand_markers(markers_view(markers@).take(0)));
    }
    let mut i: usize = 0;
    while i < markers.len()
        invariant
            0 <= i <= markers@.len(),
            out@ == spec_expand_markers(markers_view(markers@).take(i as int)),
        decreases markers@.len() - i,
    {
        let ghost pre = markers_view(markers@).take(i as int);
        proof {
            assert(markers_view(markers@).take(i as int + 1).drop_last() =~= pre);
            assert(markers_view(markers@).take(i as int + 1).last() == markers@[i as int]@);
        }
        match &markers[i] {
            ChunkMarker::PlayerSpawn(t) => {
                out.spawn_markers.push(SpawnMarker(*t));
                proof {
                    assert(out@.spawn_markers =~= spec_expand_markers(
                        markers_view(markers@).take(i as int + 1),
                    ).spawn_markers);
                }
            },
            ChunkMarker::Light(l) => {
                out.lights.push(*l);
            },
            ChunkMarker::SwapSensor(s) => {
                out.swap_sensor = Some(*s);
            },
            ChunkMarker::ReplaceAssetSensor(s) => {
                out.replace_sensor = Some(
                    ReplaceAssetSensorChunk {
                        chunk: s.chunk,
                        descriptor: s.descriptor.clone(),
                        invert_after_swap: s.invert_after_swap,
                    },
                );
            },
            ChunkMarker::MoveChunkSensor(s) => {
                out.move_sensor = Some(*s);
            },
        }
        proof {
            assert(out@ =~= spec_expand_markers(markers_view(markers@).take(i as int + 1)));
        }
        i += 1;
    }
    proof {
        assert(markers_view(markers@).take(markers@.len() as int) =~= markers_view(markers@));
    }
    out
}

} // verus!

verus! {

/// A live chunk: the root's identity, world transform and grid cell, the
/// geometry spawned under it, and the runtime state its markers expanded to.
/// Despawning a chunk drops this whole record, subtree and all.
pub struct Chunk {
    pub id: ChunkId,
    /// Name of the descriptor this chunk was spawned from.
    pub descriptor_name: String,
    /// World translation of the chunk root, in thousandths of a world unit.
    pub translation: Vec3,
    /// Grid cell this chunk currently occupies; kept in step with
    /// `translation`.
    pub grid_x: i32,
    pub grid_z: i32,
    pub elements: Vec<SpawnedElement>,
    pub spawn_markers: Vec<SpawnMarker>,
    pub lights: Vec<ChunkLight>,
    pub swap_sensor: Option<SwapSensorChunk>,
    pub replace_sensor: Option<ReplaceAssetSensorChunk>,
    pub move_sensor: Option<MoveChunkSensorChunk>,
}

/// A chunk is well-formed when its world translation lies on its grid cell.
pub open spec fn chunk_wf(c: Chunk) -> bool {
    &&& c.translation.x == c.grid_x as int * CHUNK_SIZE
    &&& c.translation.z == c.grid_z as int * CHUNK_SIZE
}

/// The live chunks of one level, in spawn order.
pub struct ChunkWorld {
    pub chunks: Vec<Chunk>,
}

impl ChunkWorld {
    /// An empty world with no chunks spawned.
    pub fn new() -> (r: ChunkWorld)
        ensures
            r.chunks@.len() == 0,
    {
        ChunkWorld { chunks: Vec::new() }
    }

    /// Every chunk sits on its grid cell.
    pub open spec fn wf(&self) -> bool {
        forall|i: int| 0 <= i < self.chunks@.len() ==> chunk_wf(#[trigger] self.chunks@[i])
    }

    /// No two chunks share an id.
    pub open spec fn ids_unique(&self) -> bool {
        forall|i: int, j: int|
            0 <= i < j < self.chunks@.len() ==> self.chunks@[i].id.0 != self.chunks@[j].id.0
    }
}

/// Intent to spawn a chunk with the given id at a grid cell, from the named
/// descriptor, with the given markers attached.
pub struct SpawnChunk {
    pub id: ChunkId,
    pub grid_position: (i32, i32),
    pub descriptor: String,
    pub components: Vec<ChunkMarker>,
}

/// Every element of the registry is serializable (names valid, scalars
/// bounded); holds of any registry built by discovery or the editor.
pub open spec fn elements_ok(es: Seq<ChunkElement>) -> bool {
    forall|i: int| 0 <= i < es.len() ==> crate::chunk_assets::element_v_ok(#[trigger] es[i]@)
}

/// The geometry spawned for a descriptor: each element name resolved against
/// the loaded elements, in order, names that are not loaded skipped.
pub open spec fn spec_resolved_elements(es: Seq<ChunkElement>, names: Seq<Seq<char>>) -> Seq<
    SpawnedElement,
>
    decreases names.len(),
{
    if names.len() == 0 {
        Seq::empty()
    } else {
        let rec = spec_resolved_elements(es, names.drop_last());
        match spec_find_element(es, names.last()) {
            Some(e) => rec.push(spec_element_geometry(e)),
            None => rec,
        }
    }
}

/// What the chunk spawned for `ev` from descriptor `d` holds: identity and
/// markers from the intent, the world transform of its grid cell, and the
/// geometry `d` resolves to.
pub open spec fn spec_chunk_spawned(
    c: Chunk,
    d: ChunkDescriptor,
    es: Seq<ChunkElement>,
    id: ChunkId,
    grid: (i32, i32),
    markers: Seq<MarkerV>,
) -> bool {
    let exp = spec_expand_markers(markers);
    &&& c.id == id
    &&& c.descriptor_name == d.name
    &&& c.grid_x == grid.0
    &&& c.grid_z == grid.1
    &&& c.translation == (Vec3 {
        x: (grid.0 as i64 * CHUNK_SIZE) as i64,
        y: 0,
        z: (grid.1 as i64 * CHUNK_SIZE) as i64,
    })
    &&& c.elements@ == spec_resolved_elements(es, d@.elements)
    &&& c.spawn_markers@.map_values(|m: SpawnMarker| m.0) == exp.spawn_markers
    &&& c.lights@ == exp.lights
    &&& c.swap_sensor == exp.swap_sensor
    &&& replace_opt_view(c.replace_sensor) == exp.replace_sensor
    &&& c.move_sensor == exp.move_sensor
}

/// Spawns the chunk `event` asks for. If the named descriptor is not loaded
/// the world is left untouched — the caller may retry once it is; this is
/// not an error. Elements of the descriptor that are not loaded are skipped
/// for this spawn. The spawned chunk is appended after the existing chunks.
pub fn on_spawn_chunk(
    world: &mut ChunkWorld,
    descriptors: &Vec<ChunkDescriptor>,
    elements: &Vec<ChunkElement>,
    event: &SpawnChunk,
)
    requires
        elements_ok(elements@),
    ensures
        match spec_find_descriptor(descriptors@, event.descriptor@) {
            None => final(world).chunks@ == old(world).chunks@,
            Some(d) => {
                &&& final(world).chunks@.len() == old(world).chunks@.len() + 1
                &&& final(world).chunks@.drop_last() == old(world).chunks@
                &&& spec_chunk_spawned(
                    final(world).chunks@.last(),
                    d,
                    elements@,
                    event.id,
                    event.grid_position,
                    markers_view(event.components@),
                )
            },
        },
{
    let d = match find_descriptor(descriptors, &event.descriptor) {
        Some(d) => d,
        None => {
            return ;
        },
    };
    let translation = Vec3 {
        x: (event.grid_position.0 as i64) * CHUNK_SIZE,
        y: 0,
        z: (event.grid_position.1 as i64) * CHUNK_SIZE,
    };
    let mut spawned: Vec<SpawnedElement> = Vec::new();
    let mut i: usize = 0;
    proof {
        assert(d@.elements.take(0) =~= Seq::<Seq<char>>::empty());
    }
    while i < d.elements.len()
        invariant
            0 <= i <= d.elements@.len(),
            d@.elements.len() == d.elements@.len(),
            elements_ok(elements@),
            spawned@ == spec_resolved_elements(elements@, d@.elements.take(i as int)),
        decreases d.elements@.len() - i,
    {
        proof {
            assert(d@.elements.take(i as int + 1).drop_last() =~= d@.elements.take(i as int));
            assert(d@.elements.take(i as int + 1).last() == d@.elements[i as int]);
            assert(d@.elements[i as int] == d.elements@[i as int].0@);
        }
        match find_element(elements, &d.elements[i].0) {
            Some(e) => {
                proof {
                    let ghost fe = spec_find_element(elements@, d@.elements[i as int]);
                    lemma_find_element_in(elements@, d@.elements[i as int]);
                }
                spawned.push(element_geometry(e));
            },
            None => {},
        }
        i += 1;
    }
    proof {
        assert(d@.elements.take(d@.elements.len() as int) =~= d@.elements);
    }
    let expansion = instantiate_markers(&event.components);
    let chunk = Chunk {
        id: event.id,
        descriptor_name: d.name.clone(),
        translation,
        grid_x: event.grid_position.0,
        grid_z: event.grid_position.1,
        elements: spawned,
        spawn_markers: expansion.spawn_markers,
        lights: expansion.lights,
        swap_sensor: expansion.swap_sensor,
        replace_sensor: expansion.replace_sensor,
        move_sensor: expansion.move_sensor,
    };
    world.chunks.push(chunk);
    proof {
        assert(final(world).chunks@.drop_last() =~= old(world).chunks@);
    }
}

/// A found element is one of the registry's elements, so it is serializable
/// whenever the registry is.
pub proof fn lemma_find_element_in(es: Seq<ChunkElement>, name: Seq<char>)
    requires
        spec_find_element(es, name) is Some,
    ensures
        exists|i: int| 0 <= i < es.len() && es[i] == spec_find_element(es, name)->0,
    decreases es.len(),
{
    if es.len() > 0 {
        if es[0].name@ == name {
            assert(es[0] == spec_find_element(es, name)->0);
        } else {
            lemma_find_element_in(es.drop_first(), name);
            let i = choose|i: int|
                0 <= i < es.drop_first().len() && es.drop_first()[i] == spec_find_element(
                    es.drop_first(),
                    name,
                )->0;
            assert(es[i + 1] == spec_find_element(es, name)->0);
        }
    }
}

} // verus!

verus! {

/// Position of the first live chunk with the given id, if any.
pub open spec fn spec_chunk_index(chunks: Seq<Chunk>, id: u32) -> Option<int>
    decreases chunks.len(),
{
    if chunks.len() == 0 {
        None
    } else if chunks[0].id.0 == id {
        Some(0)
    } else {
        match spec_chunk_index(chunks.drop_first(), id) {
            Some(i) => Some(i + 1),
            None => None,
        }
    }
}

/// `spec_chunk_index` finds exactly the first match.
pub proof fn lemma_chunk_index_first(chunks: Seq<Chunk>, id: u32, i: int)
    requires
        0 <= i < chunks.len(),
        chunks[i].id.0 == id,
        forall|j: int| 0 <= j < i ==> (#[trigger] chunks[j]).id.0 != id,
    ensures
        spec_chunk_index(chunks, id) == Some(i),
    decreases i,
{
    if i > 0 {
        lemma_chunk_index_first(chunks.drop_first(), id, i - 1);
    }
}

/// When no chunk carries the id, `spec_chunk_index` finds nothing.
pub proof fn lemma_chunk_index_none(chunks: Seq<Chunk>, id: u32)
    requires
        forall|j: int| 0 <= j < chunks.len() ==> (#[trigger] chunks[j]).id.0 != id,
    ensures
        spec_chunk_index(chunks, id) is None,
    decreases chunks.len(),
{
    if chunks.len() > 0 {
        lemma_chunk_index_none(chunks.drop_first(), id);
    }
}

/// Whatever `spec_chunk_index` finds is in range and the first match.
pub proof fn lemma_chunk_index_found(chunks: Seq<Chunk>, id: u32)
    requires
        spec_chunk_index(chunks, id) is Some,
    ensures
        0 <= spec_chunk_index(chunks, id)->0 < chunks.len(),
        chunks[spec_chunk_index(chunks, id)->0].id.0 == id,
        forall|j: int| 0 <= j < spec_chunk_index(chunks, id)->0 ==> (#[trigger] chunks[j]).id.0 != id,
    decreases chunks.len(),
{
    if chunks.len() > 0 && chunks[0].id.0 != id {
        lemma_chunk_index_found(chunks.drop_first(), id);
        let i = spec_chunk_index(chunks, id)->0;
        assert forall|j: int| 0 <= j < i implies (#[trigger] chunks[j]).id.0 != id by {
            if j > 0 {
                assert(chunks[j] == chunks.drop_first()[j - 1]);
            }
        }
    }
}

/// When `spec_chunk_index` finds nothing, no chunk carries the id.
pub proof fn lemma_chunk_index_none_inv(chunks: Seq<Chunk>, id: u32)
    requires
        spec_chunk_index(chunks, id) is None,
    ensures
        forall|j: int| 0 <= j < chunks.len() ==> (#[trigger] chunks[j]).id.0 != id,
    decreases chunks.len(),
{
    if chunks.len() > 0 {
        lemma_chunk_index_none_inv(chunks.drop_first(), id);
        assert forall|j: int| 0 <= j < chunks.len() implies (#[trigger] chunks[j]).id.0 != id by {
            if j > 0 {
                assert(chunks[j] == chunks.drop_first()[j - 1]);
            }
        }
    }
}

/// The world after despawning `id`: the first chunk with that id is removed,
/// subtree and all; a world without such a chunk is left as it is.
pub open spec fn spec_despawn(chunks: Seq<Chunk>, id: u32) -> Seq<Chunk> {
    match spec_chunk_index(chunks, id) {
        Some(i) => chunks.remove(i),
        None => chunks,
    }
}

/// Destroys the first live chunk with the event's id, and with it every
/// element, light and sensor it owned. A miss is a no-op, not an error: the
/// chunk may already be gone.
#[verifier::loop_isolation(false)]
pub fn on_despawn_chunk(world: &mut ChunkWorld, event: &DespawnChunk)
    ensures
        final(world).chunks@ == spec_despawn(old(world).chunks@, event.0.0),
{
    let id = event.0.0;
    let mut i: usize = 0;
    while i < world.chunks.len()
        invariant
            0 <= i <= world.chunks@.len(),
            world.chunks@ == old(world).chunks@,
            forall|j: int| 0 <= j < i ==> (#[trigger] world.chunks@[j]).id.0 != id,
        decreases world.chunks@.len() - i,
    {
        if world.chunks[i].id.0 == id {
            proof {
                lemma_chunk_index_first(world.chunks@, id, i as int);
            }
            world.chunks.remove(i);
            return ;
        }
        i += 1;
    }
    proof {
        lemma_chunk_index_none(world.chunks@, id);
    }
}

/// Despawn is complete and idempotent: in a world whose chunk ids are
/// unique, despawning `id` leaves no chunk with that id — nothing of its
/// subtree survives, since a chunk owns its subtree — and despawning the
/// same id a second time is a no-op.
pub proof fn lemma_despawn_completeness(chunks: Seq<Chunk>, id: u32)
    requires
        forall|i: int, j: int| 0 <= i < j < chunks.len() ==> chunks[i].id.0 != chunks[j].id.0,
    ensures
        forall|j: int|
            0 <= j < spec_despawn(chunks, id).len() ==> (#[trigger] spec_despawn(chunks, id)[j]).id.0
                != id,
        spec_despawn(spec_despawn(chunks, id), id) == spec_despawn(chunks, id),
{
    let after = spec_despawn(chunks, id);
    match spec_chunk_index(chunks, id) {
        Some(i) => {
            lemma_chunk_index_found(chunks, id);
            assert forall|j: int| 0 <= j < after.len() implies (#[trigger] after[j]).id.0 != id by {
                if j < i {
                    assert(after[j] == chunks[j]);
                } else {
                    assert(after[j] == chunks[j + 1]);
                }
            }
        },
        None => {
            lemma_chunk_index_none_inv(chunks, id);
        },
    }
    lemma_chunk_index_none(after, id);
}

/// Spawning is idempotent on geometry: any two chunks spawned from the same
/// loaded elements, the same descriptor and the same grid cell — at any
/// time, into any world, under any ids or markers — carry identical element
/// subtrees (same names, shapes, transforms, colors and colliders, in the
/// same order) and the same world transform. Re-spawning a resolved
/// descriptor reproduces its geometry exactly.
pub proof fn lemma_spawn_geometry_deterministic(
    c1: Chunk,
    c2: Chunk,
    d: ChunkDescriptor,
    es: Seq<ChunkElement>,
    id1: ChunkId,
    id2: ChunkId,
    grid: (i32, i32),
    m1: Seq<MarkerV>,
    m2: Seq<MarkerV>,
)
    requires
        spec_chunk_spawned(c1, d, es, id1, grid, m1),
        spec_chunk_spawned(c2, d, es, id2, grid, m2),
    ensures
        c1.elements@ == c2.elements@,
        c1.translation == c2.translation,
        c1.descriptor_name == c2.descriptor_name,
{
}

} // verus!

verus! {

/// The resolved descriptor reference a replace sensor carries alongside
/// itself: the name handle its descriptor field resolves to when the
/// sensor is inserted.
#[derive(Clone, Debug)]
pub struct ReplaceAssetSensorChunkHandle {
    pub asset: crate::chunk_assets::Wrapper<String>,
}

impl ReplaceAssetSensorChunk {
    /// Resolves this sensor's descriptor name into the handle that is kept
    /// next to it, as happens when the sensor is inserted on a chunk.
    pub fn resolve_handle(&self) -> (r: ReplaceAssetSensorChunkHandle)
        ensures
            r.asset.0@ == self.descriptor@,
    {
        ReplaceAssetSensorChunkHandle { asset: crate::chunk_assets::Wrapper(self.descriptor.clone()) }
    }
}

} // verus!
