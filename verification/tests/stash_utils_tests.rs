use feverdream_trap_core::chunk_assets::{
    ChunkDescriptorAsset, ChunkElementAsset, ChunkElementShapeAsset, ChunkLayoutAsset, GameLevel,
};
use feverdream_trap_core::chunk_assets::{ChunkEntry, ChunkLayout, Wrapper};
use feverdream_trap_core::chunk::{on_spawn_chunk, ChunkId, ChunkWorld, ReplaceAssetSensorChunk, SpawnChunk};
use feverdream_trap_core::chunk_assets::ChunkDescriptor;
use feverdream_trap_core::interactions::{interactable_in_range, ChunkSwapInteraction};
use feverdream_trap_core::geometry::{Color, Transform};
use feverdream_trap_core::level::grid_bounds;
use feverdream_trap_core::stash::{
    classify_content_path, str_ends_with, ContentFileKind, ResourceHandles,
};
use feverdream_trap_core::utils::{
    despawn_after, enter_loading_or_gameplay_screen, fade_text, scene_file_path, DespawnAfter,
    Fade, FadeMode, Screen, TickTimer,
};

#[test]
fn level_paths_and_progression() {
    assert_eq!(GameLevel::Demo.path(), "levels/demo.layout");
    assert_eq!(GameLevel::Level1.path(), "levels/level_1.layout");
    assert_eq!(GameLevel::Demo.next(), Some(GameLevel::Level1));
    assert_eq!(GameLevel::Level1.next(), None);
    assert_eq!(ChunkLayoutAsset::path_for_level(&GameLevel::Demo), "levels/demo.layout");
}

#[test]
fn asset_paths_follow_names() {
    let e = ChunkElementAsset {
        name: String::from("floor"),
        transform: Transform::identity(),
        shape: ChunkElementShapeAsset::Cube { length: 1000 },
        color: Color::white(),
        has_collider: true,
    };
    assert_eq!(e.path(), "chunks/elements/floor.chunk.element");
    let d = ChunkDescriptorAsset { name: String::from("room_a"), elements: vec![] };
    assert_eq!(d.path(), "chunks/room_a.chunk");
}

#[test]
fn classification_by_suffix() {
    assert!(str_ends_with("a/b/x.chunk.element", ".chunk.element"));
    assert!(!str_ends_with("x.chunk", ".chunk.element"));
    assert_eq!(classify_content_path("chunks/elements/x.chunk.element"), ContentFileKind::Element);
    assert_eq!(classify_content_path("chunks/room.chunk"), ContentFileKind::Descriptor);
    assert_eq!(classify_content_path("levels/demo.layout"), ContentFileKind::Layout);
    assert_eq!(classify_content_path("shaders/blend.wgsl"), ContentFileKind::Other);
}

#[test]
fn resource_handles_track_readiness() {
    let mut handles = ResourceHandles::new(vec![
        String::from("a.chunk"),
        String::from("b.chunk"),
    ]);
    assert!(!handles.all_loaded());
    handles.resolve_next(true);
    assert!(!handles.all_loaded());
    // One file failing to parse does not stop the rest from becoming ready.
    handles.resolve_next(false);
    assert!(handles.all_loaded());
    assert_eq!(handles.finished.len(), 1);
    assert_eq!(handles.errors.len(), 1);
    assert_eq!(handles.errors[0], "b.chunk");
}

#[test]
fn tick_timer_finishes_once() {
    let mut t = TickTimer::new(100);
    assert!(!t.tick(40));
    assert!(!t.tick(40));
    assert!(t.tick(40));
    assert!(!t.tick(40));
    assert_eq!(t.elapsed_ms, 100);
    assert_eq!(t.fraction_permille(), 1000);
}

#[test]
fn despawn_after_removes_finished() {
    let mut items = vec![
        (1, DespawnAfter::new(50)),
        (2, DespawnAfter::new(500)),
    ];
    let gone = despawn_after(&mut items, 100);
    assert_eq!(gone, vec![1]);
    assert_eq!(items.len(), 1);
    assert_eq!(items[0].0, 2);
    assert_eq!(items[0].1.0.elapsed_ms, 100);
}

#[test]
fn fades_move_alpha_both_ways() {
    let mut fades = vec![Fade::new(FadeMode::In, 1000), Fade::new(FadeMode::Out, 1000)];
    let alphas = fade_text(&mut fades, 250);
    assert_eq!(alphas, vec![250, 750]);
    let alphas = fade_text(&mut fades, 750);
    assert_eq!(alphas, vec![1000, 0]);
    assert!(Fade::new(FadeMode::Out, 300).despawn_after().is_some());
    assert!(Fade::new(FadeMode::In, 300).despawn_after().is_none());
}

#[test]
fn screen_transitions() {
    assert_eq!(enter_loading_or_gameplay_screen(true), Screen::Gameplay);
    assert_eq!(enter_loading_or_gameplay_screen(false), Screen::Loading);
    assert_eq!(scene_file_path(), "assets/game_state.scn.ron");
}

#[test]
fn grid_bounds_cover_all_entries() {
    fn entry(x: i32, z: i32) -> ChunkEntry {
        ChunkEntry { grid_pos: (x, z), descriptor: Wrapper(String::from("d")), components: vec![] }
    }
    let empty = ChunkLayout { chunks: vec![] };
    assert!(grid_bounds(&empty).is_none());
    let layout = ChunkLayout {
        chunks: vec![(0, entry(0, 4)), (1, entry(-3, 0)), (2, entry(2, -7))],
    };
    assert_eq!(grid_bounds(&layout), Some((-3, 2, -7, 4)));
}

#[test]
fn focus_follows_interactable_hits() {
    let interactables = vec![3, 7, 9];
    assert_eq!(interactable_in_range(&interactables, Some(7)), Some(7));
    assert_eq!(interactable_in_range(&interactables, Some(4)), None);
    assert_eq!(interactable_in_range(&interactables, None), None);
}

#[test]
fn replace_sensor_resolves_its_handle() {
    let sensor = ReplaceAssetSensorChunk {
        chunk: ChunkId(5),
        descriptor: String::from("collapsed_room"),
        invert_after_swap: false,
    };
    let handle = sensor.resolve_handle();
    assert_eq!(handle.asset.0, "collapsed_room");
}

#[test]
fn interaction_swap_exchanges_positions() {
    let elements = vec![];
    let descriptors = vec![ChunkDescriptor { name: String::from("bare"), elements: vec![] }];
    let mut world = ChunkWorld::new();
    for (id, grid) in [(1u32, (0, 0)), (2u32, (2, 3))] {
        let event = SpawnChunk {
            id: ChunkId(id),
            grid_position: grid,
            descriptor: String::from("bare"),
            components: vec![],
        };
        on_spawn_chunk(&mut world, &descriptors, &elements, &event);
    }
    ChunkSwapInteraction(ChunkId(1), ChunkId(2)).trigger(&mut world);
    assert_eq!((world.chunks[0].translation.x, world.chunks[0].translation.z), (10000, 15000));
    assert_eq!((world.chunks[1].translation.x, world.chunks[1].translation.z), (0, 0));
}
