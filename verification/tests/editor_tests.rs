use feverdream_trap_core::chunk_assets::{
    ChunkDescriptor, ChunkElement, ChunkElementShape, ChunkEntry, ChunkLayout, Wrapper,
};
use feverdream_trap_core::editor::{
    add_layout_entry, create_descriptor, create_element, delete_layout_entry,
    layout_buffer_from_chunks, reload_layout_buffer, save_all_to_content_files,
    sync_layout_buffer, EguiActionBuffer, LayoutBufferEntry,
};
use feverdream_trap_core::chunk_assets::GameLevel;
use feverdream_trap_core::chunk::ChunkWorld;
use feverdream_trap_core::editor::{update_descriptor_preview, EditorPreview};
use feverdream_trap_core::geometry::{Color, Transform};
use feverdream_trap_core::stash::AssetHandleStash;

fn entry(x: i32, z: i32, descriptor: &str) -> ChunkEntry {
    ChunkEntry {
        grid_pos: (x, z),
        descriptor: Wrapper(String::from(descriptor)),
        components: vec![],
    }
}

fn element(name: &str) -> ChunkElement {
    ChunkElement {
        name: String::from(name),
        transform: Transform::identity(),
        shape: ChunkElementShape::Cube { length: 1000 },
        color: Color::white(),
        has_collider: true,
    }
}

#[test]
fn buffer_renders_positions_as_text() {
    let chunks = vec![(0, entry(3, -2, "room_a")), (4, entry(0, 0, "room_b"))];
    let buffer = layout_buffer_from_chunks(&chunks);
    assert_eq!(buffer.len(), 2);
    assert_eq!(buffer[0].0, 0);
    assert_eq!(buffer[0].1.pos_x, "3");
    assert_eq!(buffer[0].1.pos_z, "-2");
    assert_eq!(buffer[0].1.descriptor.0, "room_a");
    assert_eq!(buffer[1].0, 4);
}

#[test]
fn commit_round_trips_loaded_buffer() {
    let chunks = vec![(0, entry(3, -2, "room_a")), (4, entry(7, 1, "room_b"))];
    let mut buffer = EguiActionBuffer::new();
    reload_layout_buffer(&chunks, &mut buffer);
    let mut layout = ChunkLayout { chunks: vec![] };
    sync_layout_buffer(&buffer, &mut layout);
    assert_eq!(layout.chunks.len(), 2);
    assert_eq!(layout.chunks[0].0, 0);
    assert_eq!(layout.chunks[0].1.grid_pos, (3, -2));
    assert_eq!(layout.chunks[0].1.descriptor.0, "room_a");
    assert_eq!(layout.chunks[1].0, 4);
    assert_eq!(layout.chunks[1].1.grid_pos, (7, 1));
}

#[test]
fn commit_silently_drops_malformed_positions() {
    let mut buffer = EguiActionBuffer::new();
    buffer.layout_buffer = vec![
        (
            0,
            LayoutBufferEntry {
                pos_x: String::from("1"),
                pos_z: String::from("oops"),
                descriptor: Wrapper(String::from("room_a")),
                components: vec![],
            },
        ),
        (
            1,
            LayoutBufferEntry {
                pos_x: String::from("-5"),
                pos_z: String::from("6"),
                descriptor: Wrapper(String::from("room_b")),
                components: vec![],
            },
        ),
    ];
    let mut layout = ChunkLayout { chunks: vec![] };
    sync_layout_buffer(&buffer, &mut layout);
    assert_eq!(layout.chunks.len(), 1);
    assert_eq!(layout.chunks[0].0, 1);
    assert_eq!(layout.chunks[0].1.grid_pos, (-5, 6));
}

#[test]
fn add_entry_takes_lowest_unused_id() {
    let chunks = vec![(0, entry(0, 0, "a")), (1, entry(1, 0, "a")), (3, entry(2, 0, "a"))];
    let mut buffer = EguiActionBuffer::new();
    reload_layout_buffer(&chunks, &mut buffer);
    add_layout_entry(&mut buffer);
    let ids: Vec<u32> = buffer.layout_buffer.iter().map(|e| e.0).collect();
    assert_eq!(ids, vec![0, 1, 2, 3]);
    assert_eq!(buffer.layout_push_counter, 1);
    add_layout_entry(&mut buffer);
    let ids: Vec<u32> = buffer.layout_buffer.iter().map(|e| e.0).collect();
    assert_eq!(ids, vec![0, 1, 2, 3, 4]);
}

#[test]
fn delete_entry_by_id() {
    let chunks = vec![(0, entry(0, 0, "a")), (2, entry(1, 0, "b"))];
    let mut buffer = EguiActionBuffer::new();
    reload_layout_buffer(&chunks, &mut buffer);
    delete_layout_entry(&mut buffer, 0);
    assert_eq!(buffer.layout_buffer.len(), 1);
    assert_eq!(buffer.layout_buffer[0].0, 2);
    // Deleting a missing id changes nothing.
    delete_layout_entry(&mut buffer, 9);
    assert_eq!(buffer.layout_buffer.len(), 1);
}

#[test]
fn create_rejects_empty_names() {
    let mut stash = AssetHandleStash { elements: vec![], descriptors: vec![] };
    assert!(!create_element(&mut stash, &String::new()));
    assert!(!create_descriptor(&mut stash, &String::new()));
    assert!(stash.elements.is_empty());
    assert!(stash.descriptors.is_empty());
    assert!(create_element(&mut stash, &String::from("pillar")));
    assert!(create_descriptor(&mut stash, &String::from("hall")));
    assert_eq!(stash.elements.len(), 1);
    assert_eq!(stash.elements[0].name, "pillar");
    assert_eq!(stash.descriptors.len(), 1);
    assert_eq!(stash.descriptors[0].name, "hall");
}

#[test]
fn save_all_emits_canonical_paths() {
    let elements = vec![element("floor")];
    let descriptors = vec![ChunkDescriptor {
        name: String::from("room_a"),
        elements: vec![Wrapper(String::from("floor")), Wrapper(String::from("missing"))],
    }];
    let layout = ChunkLayout { chunks: vec![(0, entry(0, 0, "room_a"))] };
    let files = save_all_to_content_files(&elements, &descriptors, &layout, &GameLevel::Demo);
    assert_eq!(files.len(), 3);
    assert_eq!(files[0].0, "chunks/elements/floor.chunk.element");
    assert_eq!(files[1].0, "chunks/room_a.chunk");
    // Dangling element references are left out of the saved descriptor.
    assert_eq!(files[1].1, "descriptor \"room_a\" 1 \"floor\" ");
    assert_eq!(files[2].0, "levels/demo.layout");
    assert!(files[2].1.starts_with("layout 1 "));
}

#[test]
fn preview_follows_selection() {
    let elements = vec![element("floor")];
    let descriptors = vec![
        ChunkDescriptor {
            name: String::from("room_a"),
            elements: vec![Wrapper(String::from("floor"))],
        },
        ChunkDescriptor {
            name: String::from("pending"),
            elements: vec![Wrapper(String::from("missing"))],
        },
    ];
    let mut world = ChunkWorld::new();

    let selected = EditorPreview::Descriptor(Wrapper(String::from("room_a")));
    update_descriptor_preview(&mut world, &descriptors, &elements, &selected);
    assert_eq!(world.chunks.len(), 1);
    assert_eq!(world.chunks[0].descriptor_name, "room_a");
    assert_eq!((world.chunks[0].translation.x, world.chunks[0].translation.z), (0, 0));

    // A descriptor whose elements are all still loading previews nothing;
    // the previous preview is torn down.
    let pending = EditorPreview::Descriptor(Wrapper(String::from("pending")));
    update_descriptor_preview(&mut world, &descriptors, &elements, &pending);
    assert_eq!(world.chunks.len(), 0);

    update_descriptor_preview(&mut world, &descriptors, &elements, &selected);
    assert_eq!(world.chunks.len(), 1);
    update_descriptor_preview(&mut world, &descriptors, &elements, &EditorPreview::Inactive);
    assert_eq!(world.chunks.len(), 0);
}
