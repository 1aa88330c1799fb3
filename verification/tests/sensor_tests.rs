use feverdream_trap_core::chunk::{
    on_spawn_chunk, ChunkId, ChunkWorld, MoveChunkSensorChunk, ReplaceAssetSensorChunk,
    SpawnChunk, SwapSensorChunk,
};
use feverdream_trap_core::chunk_assets::{
    ChunkDescriptor, ChunkElement, ChunkElementShape, ChunkEntry, ChunkLayout, ChunkMarker,
    Wrapper,
};
use feverdream_trap_core::geometry::{Color, Transform};
use feverdream_trap_core::level::spawn_level_from_layout;
use feverdream_trap_core::sensor::{
    move_chunk_on_contact_with_sensor, on_player_entered_chunk, on_player_exited_chunk,
    on_replace_chunk_asset, on_swap_chunks, replace_chunk_asset_on_contact_with_sensor,
    swap_chunks_on_contact_with_sensor, ActivePlayerChunks, SwapChunks,
};

fn element(name: &str) -> ChunkElement {
    ChunkElement {
        name: String::from(name),
        transform: Transform::identity(),
        shape: ChunkElementShape::Cube { length: 1000 },
        color: Color::white(),
        has_collider: true,
    }
}

fn descriptor(name: &str, elements: &[&str]) -> ChunkDescriptor {
    ChunkDescriptor {
        name: String::from(name),
        elements: elements.iter().map(|e| Wrapper(String::from(*e))).collect(),
    }
}

fn assets() -> (Vec<ChunkElement>, Vec<ChunkDescriptor>) {
    (
        vec![element("floor")],
        vec![
            descriptor("room_a", &["floor"]),
            descriptor("room_b", &["floor"]),
            descriptor("collapsed_room", &[]),
        ],
    )
}

fn spawn(
    world: &mut ChunkWorld,
    descriptors: &Vec<ChunkDescriptor>,
    elements: &Vec<ChunkElement>,
    id: u32,
    grid: (i32, i32),
    name: &str,
    markers: Vec<ChunkMarker>,
) {
    let event = SpawnChunk {
        id: ChunkId(id),
        grid_position: grid,
        descriptor: String::from(name),
        components: markers,
    };
    on_spawn_chunk(world, descriptors, elements, &event);
}

fn chunk_index(world: &ChunkWorld, id: u32) -> usize {
    world.chunks.iter().position(|c| c.id == ChunkId(id)).expect("chunk")
}

#[test]
fn scenario_swap_on_entry() {
    // Layout {0: (0,0) -> room_a, 1: (1,0) -> room_b}; chunk 0 carries
    // SwapSensor{a: 0, b: 1, preserve: false}. Entering chunk 0 swaps the
    // two chunks' world positions and removes the sensor.
    let (elements, descriptors) = assets();
    let layout = ChunkLayout {
        chunks: vec![
            (
                0,
                ChunkEntry {
                    grid_pos: (0, 0),
                    descriptor: Wrapper(String::from("room_a")),
                    components: vec![ChunkMarker::SwapSensor(SwapSensorChunk {
                        chunk_a: ChunkId(0),
                        chunk_b: ChunkId(1),
                        preserve_after_swap: false,
                    })],
                },
            ),
            (
                1,
                ChunkEntry {
                    grid_pos: (1, 0),
                    descriptor: Wrapper(String::from("room_b")),
                    components: vec![],
                },
            ),
        ],
    };
    let mut world = ChunkWorld::new();
    spawn_level_from_layout(&mut world, &descriptors, &elements, &layout);
    assert_eq!(world.chunks.len(), 2);

    let mut active = ActivePlayerChunks::new();
    on_player_entered_chunk(&mut active, ChunkId(0));
    let fired = swap_chunks_on_contact_with_sensor(&mut world, &mut active);
    assert_eq!(fired.len(), 1);

    let c0 = &world.chunks[chunk_index(&world, 0)];
    let c1 = &world.chunks[chunk_index(&world, 1)];
    // Chunk 0 now sits where chunk 1 was, and vice versa.
    assert_eq!((c0.translation.x, c0.translation.z), (5000, 0));
    assert_eq!((c1.translation.x, c1.translation.z), (0, 0));
    // The sensor was removed from the (now relocated) chunk 0.
    assert!(c0.swap_sensor.is_none());

    // Further ticks of continuous overlap fire nothing more.
    let fired2 = swap_chunks_on_contact_with_sensor(&mut world, &mut active);
    assert_eq!(fired2.len(), 0);
    let fired3 = swap_chunks_on_contact_with_sensor(&mut world, &mut active);
    assert_eq!(fired3.len(), 0);
}

#[test]
fn at_most_one_fire_per_occupancy() {
    let (elements, descriptors) = assets();
    let mut world = ChunkWorld::new();
    let sensor = ChunkMarker::SwapSensor(SwapSensorChunk {
        chunk_a: ChunkId(0),
        chunk_b: ChunkId(1),
        preserve_after_swap: false,
    });
    spawn(&mut world, &descriptors, &elements, 0, (0, 0), "room_a", vec![sensor]);
    spawn(&mut world, &descriptors, &elements, 1, (1, 0), "room_b", vec![]);

    let mut active = ActivePlayerChunks::new();
    on_player_entered_chunk(&mut active, ChunkId(0));
    let mut total = 0;
    for _ in 0..5 {
        total += swap_chunks_on_contact_with_sensor(&mut world, &mut active).len();
    }
    assert_eq!(total, 1);
    // Even a fresh re-entry fires nothing: the one-shot sensor is gone.
    on_player_exited_chunk(&mut active, ChunkId(0));
    on_player_entered_chunk(&mut active, ChunkId(0));
    assert_eq!(swap_chunks_on_contact_with_sensor(&mut world, &mut active).len(), 0);
}

#[test]
fn rearm_on_exit_and_reentry() {
    // With preserve_after_swap = true: enter, fire, exit, enter, fire —
    // exactly two fires in all.
    let (elements, descriptors) = assets();
    let mut world = ChunkWorld::new();
    let sensor = ChunkMarker::SwapSensor(SwapSensorChunk {
        chunk_a: ChunkId(0),
        chunk_b: ChunkId(1),
        preserve_after_swap: true,
    });
    spawn(&mut world, &descriptors, &elements, 0, (0, 0), "room_a", vec![sensor]);
    spawn(&mut world, &descriptors, &elements, 1, (1, 0), "room_b", vec![]);

    let mut active = ActivePlayerChunks::new();
    let mut total = 0;
    on_player_entered_chunk(&mut active, ChunkId(0));
    total += swap_chunks_on_contact_with_sensor(&mut world, &mut active).len();
    total += swap_chunks_on_contact_with_sensor(&mut world, &mut active).len();
    on_player_exited_chunk(&mut active, ChunkId(0));
    on_player_entered_chunk(&mut active, ChunkId(0));
    total += swap_chunks_on_contact_with_sensor(&mut world, &mut active).len();
    assert_eq!(total, 2);
}

#[test]
fn swap_is_involutive_on_positions() {
    let (elements, descriptors) = assets();
    let mut world = ChunkWorld::new();
    spawn(&mut world, &descriptors, &elements, 0, (0, 0), "room_a", vec![]);
    spawn(&mut world, &descriptors, &elements, 1, (4, -3), "room_b", vec![]);
    let before: Vec<_> = world.chunks.iter().map(|c| c.translation).collect();
    on_swap_chunks(&mut world, &SwapChunks(ChunkId(0), ChunkId(1)));
    on_swap_chunks(&mut world, &SwapChunks(ChunkId(0), ChunkId(1)));
    let after: Vec<_> = world.chunks.iter().map(|c| c.translation).collect();
    assert_eq!(before, after);
}

#[test]
fn swap_with_missing_chunk_is_noop() {
    let (elements, descriptors) = assets();
    let mut world = ChunkWorld::new();
    spawn(&mut world, &descriptors, &elements, 0, (2, 2), "room_a", vec![]);
    on_swap_chunks(&mut world, &SwapChunks(ChunkId(0), ChunkId(9)));
    assert_eq!((world.chunks[0].translation.x, world.chunks[0].translation.z), (10000, 10000));
}

#[test]
fn scenario_replace_asset_on_entry() {
    // ReplaceAssetSensor{chunk: 5, descriptor: "collapsed_room",
    // invert: false} on chunk 3: entering chunk 3 despawns chunk 5 and
    // respawns it with "collapsed_room" at its original grid position; the
    // sensor on chunk 3 is removed.
    let (elements, descriptors) = assets();
    let mut world = ChunkWorld::new();
    let sensor = ChunkMarker::ReplaceAssetSensor(ReplaceAssetSensorChunk {
        chunk: ChunkId(5),
        descriptor: String::from("collapsed_room"),
        invert_after_swap: false,
    });
    spawn(&mut world, &descriptors, &elements, 3, (0, 0), "room_a", vec![sensor]);
    spawn(&mut world, &descriptors, &elements, 5, (2, 1), "room_b", vec![]);

    let mut active = ActivePlayerChunks::new();
    on_player_entered_chunk(&mut active, ChunkId(3));
    let fired = replace_chunk_asset_on_contact_with_sensor(&mut world, &mut active);
    assert_eq!(fired.len(), 1);
    assert_eq!(fired[0].0, ChunkId(5));
    assert_eq!(fired[0].1, "collapsed_room");
    // The sensor is gone from chunk 3 before the replacement applies.
    assert!(world.chunks[chunk_index(&world, 3)].replace_sensor.is_none());

    for ev in &fired {
        on_replace_chunk_asset(&mut world, &descriptors, &elements, ev);
    }
    let c5 = &world.chunks[chunk_index(&world, 5)];
    assert_eq!(c5.descriptor_name, "collapsed_room");
    assert_eq!((c5.grid_x, c5.grid_z), (2, 1));
    assert_eq!((c5.translation.x, c5.translation.z), (10000, 5000));
    assert_eq!(c5.elements.len(), 0);
}

#[test]
fn replace_inverts_sensor_with_previous_descriptor() {
    let (elements, descriptors) = assets();
    let mut world = ChunkWorld::new();
    let sensor = ChunkMarker::ReplaceAssetSensor(ReplaceAssetSensorChunk {
        chunk: ChunkId(5),
        descriptor: String::from("collapsed_room"),
        invert_after_swap: true,
    });
    spawn(&mut world, &descriptors, &elements, 3, (0, 0), "room_a", vec![sensor]);
    spawn(&mut world, &descriptors, &elements, 5, (2, 1), "room_b", vec![]);

    let mut active = ActivePlayerChunks::new();
    on_player_entered_chunk(&mut active, ChunkId(3));
    let fired = replace_chunk_asset_on_contact_with_sensor(&mut world, &mut active);
    assert_eq!(fired.len(), 1);
    // The sensor keeps firing duty but now swaps back to the target's
    // pre-replace descriptor.
    let s = world.chunks[chunk_index(&world, 3)].replace_sensor.clone().expect("sensor");
    assert_eq!(s.descriptor, "room_b");
    assert!(s.invert_after_swap);
}

#[test]
fn replace_missing_target_is_noop() {
    let (elements, descriptors) = assets();
    let mut world = ChunkWorld::new();
    let sensor = ChunkMarker::ReplaceAssetSensor(ReplaceAssetSensorChunk {
        chunk: ChunkId(9),
        descriptor: String::from("collapsed_room"),
        invert_after_swap: false,
    });
    spawn(&mut world, &descriptors, &elements, 3, (0, 0), "room_a", vec![sensor]);
    let mut active = ActivePlayerChunks::new();
    on_player_entered_chunk(&mut active, ChunkId(3));
    let fired = replace_chunk_asset_on_contact_with_sensor(&mut world, &mut active);
    // The event still fires; applying it to a world without the target
    // chunk changes nothing and does not panic.
    assert_eq!(fired.len(), 1);
    let len_before = world.chunks.len();
    for ev in &fired {
        on_replace_chunk_asset(&mut world, &descriptors, &elements, ev);
    }
    assert_eq!(world.chunks.len(), len_before);
}

#[test]
fn scenario_move_on_entry() {
    // MoveSensor{chunk: 7, target: (3, -2)} on chunk 2: entering chunk 2
    // moves chunk 7's world translation to (3 * CHUNK_SIZE, unchanged y,
    // -2 * CHUNK_SIZE).
    let (elements, descriptors) = assets();
    let mut world = ChunkWorld::new();
    let sensor = ChunkMarker::MoveChunkSensor(MoveChunkSensorChunk {
        chunk: ChunkId(7),
        x: 3,
        z: -2,
    });
    spawn(&mut world, &descriptors, &elements, 2, (0, 0), "room_a", vec![sensor]);
    spawn(&mut world, &descriptors, &elements, 7, (5, 5), "room_b", vec![]);

    let mut active = ActivePlayerChunks::new();
    on_player_entered_chunk(&mut active, ChunkId(2));
    let fired = move_chunk_on_contact_with_sensor(&mut world, &mut active);
    assert_eq!(fired.len(), 1);
    let c7 = &world.chunks[chunk_index(&world, 7)];
    assert_eq!((c7.translation.x, c7.translation.y, c7.translation.z), (15000, 0, -10000));
    // A move sensor is one-shot: it is removed after firing.
    assert!(world.chunks[chunk_index(&world, 2)].move_sensor.is_none());
    assert_eq!(move_chunk_on_contact_with_sensor(&mut world, &mut active).len(), 0);
}

#[test]
fn enter_does_not_duplicate_entries() {
    let mut active = ActivePlayerChunks::new();
    on_player_entered_chunk(&mut active, ChunkId(4));
    on_player_entered_chunk(&mut active, ChunkId(4));
    assert_eq!(active.0.len(), 1);
    on_player_exited_chunk(&mut active, ChunkId(4));
    assert_eq!(active.0.len(), 0);
}
