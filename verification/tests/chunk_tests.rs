use feverdream_trap_core::chunk::{
    on_despawn_chunk, on_spawn_chunk, ChunkId, ChunkWorld, ColliderShape, DespawnChunk,
    SpawnChunk, SwapSensorChunk,
};
use feverdream_trap_core::chunk_assets::{
    ChunkDescriptor, ChunkElement, ChunkElementShape, ChunkMarker, Wrapper,
};
use feverdream_trap_core::geometry::{Color, Transform};

fn element(name: &str, shape: ChunkElementShape) -> ChunkElement {
    ChunkElement {
        name: String::from(name),
        transform: Transform::identity(),
        shape,
        color: Color::white(),
        has_collider: true,
    }
}

fn descriptor(name: &str, elements: &[&str]) -> ChunkDescriptor {
    ChunkDescriptor {
        name: String::from(name),
        elements: elements.iter().map(|e| Wrapper(String::from(*e))).collect(),
    }
}

fn sample_assets() -> (Vec<ChunkElement>, Vec<ChunkDescriptor>) {
    let elements = vec![
        element("floor", ChunkElementShape::Plane { size: 2500 }),
        element("crate", ChunkElementShape::Cube { length: 2000 }),
        element("orb", ChunkElementShape::Sphere { radius: 1500 }),
    ];
    let descriptors = vec![
        descriptor("room_a", &["floor", "crate"]),
        descriptor("room_b", &["floor", "orb"]),
        descriptor("half_loaded", &["floor", "missing"]),
    ];
    (elements, descriptors)
}

fn spawn(world: &mut ChunkWorld, descriptors: &Vec<ChunkDescriptor>, elements: &Vec<ChunkElement>, id: u32, grid: (i32, i32), name: &str, markers: Vec<ChunkMarker>) {
    let event = SpawnChunk {
        id: ChunkId(id),
        grid_position: grid,
        descriptor: String::from(name),
        components: markers,
    };
    on_spawn_chunk(world, descriptors, elements, &event);
}

#[test]
fn spawn_places_chunk_on_grid() {
    let (elements, descriptors) = sample_assets();
    let mut world = ChunkWorld::new();
    spawn(&mut world, &descriptors, &elements, 7, (2, -1), "room_a", vec![]);
    assert_eq!(world.chunks.len(), 1);
    let c = &world.chunks[0];
    assert_eq!(c.id, ChunkId(7));
    assert_eq!(c.descriptor_name, "room_a");
    assert_eq!((c.translation.x, c.translation.y, c.translation.z), (10000, 0, -5000));
    assert_eq!((c.grid_x, c.grid_z), (2, -1));
    assert_eq!(c.elements.len(), 2);
    assert_eq!(c.elements[0].name, "floor");
    // A plane's collider is a flat cuboid twice the plane's size.
    assert_eq!(c.elements[0].collider, Some(ColliderShape::Cuboid { x: 5000, y: 100, z: 5000 }));
    assert_eq!(c.elements[1].collider, Some(ColliderShape::Cuboid { x: 2000, y: 2000, z: 2000 }));
}

#[test]
fn spawn_missing_descriptor_is_noop() {
    let (elements, descriptors) = sample_assets();
    let mut world = ChunkWorld::new();
    spawn(&mut world, &descriptors, &elements, 0, (0, 0), "nowhere", vec![]);
    assert_eq!(world.chunks.len(), 0);
}

#[test]
fn spawn_skips_unloaded_elements() {
    let (elements, descriptors) = sample_assets();
    let mut world = ChunkWorld::new();
    spawn(&mut world, &descriptors, &elements, 0, (0, 0), "half_loaded", vec![]);
    assert_eq!(world.chunks.len(), 1);
    assert_eq!(world.chunks[0].elements.len(), 1);
    assert_eq!(world.chunks[0].elements[0].name, "floor");
}

#[test]
fn spawn_twice_is_deterministic() {
    // Spawning the same resolved descriptor twice at the same grid position
    // produces identical element subtrees.
    let (elements, descriptors) = sample_assets();
    let mut world = ChunkWorld::new();
    spawn(&mut world, &descriptors, &elements, 1, (0, 0), "room_b", vec![]);
    spawn(&mut world, &descriptors, &elements, 2, (0, 0), "room_b", vec![]);
    assert_eq!(world.chunks.len(), 2);
    let (a, b) = (&world.chunks[0], &world.chunks[1]);
    assert_eq!(a.translation, b.translation);
    assert_eq!(a.elements.len(), b.elements.len());
    for (x, y) in a.elements.iter().zip(b.elements.iter()) {
        assert_eq!(x.name, y.name);
        assert_eq!(x.transform, y.transform);
        assert_eq!(x.color, y.color);
        assert_eq!(x.collider, y.collider);
    }
}

#[test]
fn markers_expand_into_runtime_state() {
    let (elements, descriptors) = sample_assets();
    let mut world = ChunkWorld::new();
    let markers = vec![
        ChunkMarker::PlayerSpawn(Transform::from_xyz(0, 500, 0)),
        ChunkMarker::SwapSensor(SwapSensorChunk {
            chunk_a: ChunkId(1),
            chunk_b: ChunkId(2),
            preserve_after_swap: false,
        }),
        // A later sensor of the same kind replaces the earlier one.
        ChunkMarker::SwapSensor(SwapSensorChunk {
            chunk_a: ChunkId(3),
            chunk_b: ChunkId(4),
            preserve_after_swap: true,
        }),
    ];
    spawn(&mut world, &descriptors, &elements, 0, (0, 0), "room_a", markers);
    let c = &world.chunks[0];
    assert_eq!(c.spawn_markers.len(), 1);
    assert_eq!(c.spawn_markers[0].0.translation.y, 500);
    let s = c.swap_sensor.expect("sensor");
    assert_eq!(s.chunk_a, ChunkId(3));
    assert!(s.preserve_after_swap);
    assert!(c.replace_sensor.is_none());
    assert!(c.move_sensor.is_none());
}

#[test]
fn despawn_removes_chunk_and_is_idempotent() {
    let (elements, descriptors) = sample_assets();
    let mut world = ChunkWorld::new();
    spawn(&mut world, &descriptors, &elements, 0, (0, 0), "room_a", vec![]);
    spawn(&mut world, &descriptors, &elements, 1, (1, 0), "room_b", vec![]);
    on_despawn_chunk(&mut world, &DespawnChunk(ChunkId(0)));
    assert_eq!(world.chunks.len(), 1);
    assert_eq!(world.chunks[0].id, ChunkId(1));
    // A second despawn of the same id is a no-op, not an error.
    on_despawn_chunk(&mut world, &DespawnChunk(ChunkId(0)));
    assert_eq!(world.chunks.len(), 1);
    assert_eq!(world.chunks[0].id, ChunkId(1));
}
