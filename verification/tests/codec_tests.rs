use feverdream_trap_core::chunk::{ChunkId, ChunkLight, MoveChunkSensorChunk, ReplaceAssetSensorChunk, SwapSensorChunk};
use feverdream_trap_core::chunk_assets::{
    ChunkDescriptorAsset, ChunkElementAsset, ChunkElementShapeAsset, ChunkEntryAsset,
    ChunkLayoutAsset, ChunkMarker,
};
use feverdream_trap_core::codec::{
    int_string, parse_descriptor, parse_element, parse_layout, parse_plain_int,
    serialize_descriptor, serialize_element, serialize_layout,
};
use feverdream_trap_core::geometry::{Color, Transform};

fn sample_element() -> ChunkElementAsset {
    ChunkElementAsset {
        name: String::from("floor"),
        transform: Transform::identity(),
        shape: ChunkElementShapeAsset::Plane { size: 2500 },
        color: Color::white(),
        has_collider: true,
    }
}

#[test]
fn element_exact_text() {
    let text = serialize_element(&sample_element());
    assert_eq!(
        text,
        "element \"floor\" 0 0 0 0 0 0 1000 1000 1000 1000 plane 2500 1000 1000 1000 1000 1 "
    );
}

#[test]
fn element_round_trip() {
    let e = sample_element();
    let text = serialize_element(&e);
    let back = parse_element(&text).expect("round trip");
    assert_eq!(back.name, e.name);
    assert_eq!(back.transform, e.transform);
    assert!(matches!(back.shape, ChunkElementShapeAsset::Plane { size: 2500 }));
    assert_eq!(back.color, e.color);
    assert_eq!(back.has_collider, e.has_collider);
}

#[test]
fn element_model_round_trip() {
    let e = ChunkElementAsset {
        name: String::from("statue with spaces"),
        transform: Transform::from_xyz(-1500, 0, 99),
        shape: ChunkElementShapeAsset::Gltf { mesh_path: String::from("models/statue.glb") },
        color: Color { r: 0, g: 500, b: 1000, a: 900 },
        has_collider: false,
    };
    let text = serialize_element(&e);
    let back = parse_element(&text).expect("round trip");
    assert_eq!(back.name, e.name);
    assert_eq!(back.transform, e.transform);
    match back.shape {
        ChunkElementShapeAsset::Gltf { mesh_path } => assert_eq!(mesh_path, "models/statue.glb"),
        _ => panic!("wrong shape"),
    }
    assert!(!back.has_collider);
}

#[test]
fn element_rejects_garbage() {
    assert!(parse_element("").is_none());
    assert!(parse_element("layout 0 ").is_none());
    assert!(parse_element("element \"x\" 0 0 0 ").is_none());
    let mut text = serialize_element(&sample_element());
    text.push_str("extra ");
    assert!(parse_element(&text).is_none());
}

#[test]
fn descriptor_round_trip() {
    let d = ChunkDescriptorAsset {
        name: String::from("room_a"),
        elements: vec![String::from("floor"), String::from("wall"), String::from("floor")],
    };
    let text = serialize_descriptor(&d);
    assert_eq!(text, "descriptor \"room_a\" 3 \"floor\" \"wall\" \"floor\" ");
    let back = parse_descriptor(&text).expect("round trip");
    assert_eq!(back.name, d.name);
    assert_eq!(back.elements, d.elements);
}

#[test]
fn descriptor_count_must_match() {
    assert!(parse_descriptor("descriptor \"r\" 2 \"a\" ").is_none());
    assert!(parse_descriptor("descriptor \"r\" 0 \"a\" ").is_none());
    assert!(parse_descriptor("descriptor \"r\" 1 \"a\" ").is_some());
}

fn sample_layout() -> ChunkLayoutAsset {
    ChunkLayoutAsset {
        chunks: vec![
            (
                0,
                ChunkEntryAsset {
                    grid_pos: (0, 0),
                    descriptor: String::from("room_a"),
                    components: vec![
                        ChunkMarker::PlayerSpawn(Transform::from_xyz(0, 1000, 0)),
                        ChunkMarker::SwapSensor(SwapSensorChunk {
                            chunk_a: ChunkId(0),
                            chunk_b: ChunkId(1),
                            preserve_after_swap: false,
                        }),
                    ],
                },
            ),
            (
                1,
                ChunkEntryAsset {
                    grid_pos: (1, 0),
                    descriptor: String::from("room_b"),
                    components: vec![
                        ChunkMarker::Light(ChunkLight {
                            transform: Transform::identity(),
                            intensity: 800,
                            color: Color::white(),
                            range: 12000,
                        }),
                        ChunkMarker::ReplaceAssetSensor(ReplaceAssetSensorChunk {
                            chunk: ChunkId(0),
                            descriptor: String::from("collapsed"),
                            invert_after_swap: true,
                        }),
                        ChunkMarker::MoveChunkSensor(MoveChunkSensorChunk {
                            chunk: ChunkId(1),
                            x: 3,
                            z: -2,
                        }),
                    ],
                },
            ),
        ],
    }
}

#[test]
fn layout_round_trip() {
    let l = sample_layout();
    let text = serialize_layout(&l);
    let back = parse_layout(&text).expect("round trip");
    assert_eq!(back.chunks.len(), 2);
    assert_eq!(back.chunks[0].0, 0);
    assert_eq!(back.chunks[0].1.grid_pos, (0, 0));
    assert_eq!(back.chunks[0].1.descriptor, "room_a");
    assert_eq!(back.chunks[0].1.components.len(), 2);
    match &back.chunks[0].1.components[1] {
        ChunkMarker::SwapSensor(s) => {
            assert_eq!(s.chunk_a, ChunkId(0));
            assert_eq!(s.chunk_b, ChunkId(1));
            assert!(!s.preserve_after_swap);
        }
        _ => panic!("wrong marker"),
    }
    assert_eq!(back.chunks[1].0, 1);
    assert_eq!(back.chunks[1].1.grid_pos, (1, 0));
    assert_eq!(back.chunks[1].1.components.len(), 3);
    match &back.chunks[1].1.components[1] {
        ChunkMarker::ReplaceAssetSensor(r) => {
            assert_eq!(r.chunk, ChunkId(0));
            assert_eq!(r.descriptor, "collapsed");
            assert!(r.invert_after_swap);
        }
        _ => panic!("wrong marker"),
    }
    match &back.chunks[1].1.components[2] {
        ChunkMarker::MoveChunkSensor(m) => {
            assert_eq!(m.chunk, ChunkId(1));
            assert_eq!(m.x, 3);
            assert_eq!(m.z, -2);
        }
        _ => panic!("wrong marker"),
    }
}

#[test]
fn layout_requires_sorted_ids() {
    let mut l = sample_layout();
    l.chunks.swap(0, 1);
    let text = serialize_layout(&l);
    assert!(parse_layout(&text).is_none());
}

#[test]
fn layout_empty_round_trip() {
    let l = ChunkLayoutAsset { chunks: vec![] };
    let text = serialize_layout(&l);
    assert_eq!(text, "layout 0 ");
    let back = parse_layout(&text).expect("round trip");
    assert!(back.chunks.is_empty());
}

#[test]
fn layout_rejects_bad_input() {
    assert!(parse_layout("").is_none());
    assert!(parse_layout("layout ").is_none());
    assert!(parse_layout("layout x ").is_none());
    assert!(parse_layout("layout 1 ").is_none());
    // A chunk id beyond 32 bits is rejected.
    assert!(parse_layout("layout 1 4294967296 0 0 \"d\" 0 ").is_none());
    assert!(parse_layout("layout 1 4294967295 0 0 \"d\" 0 ").is_some());
}

#[test]
fn plain_int_round_trip() {
    assert_eq!(int_string(-42), "-42");
    assert_eq!(int_string(0), "0");
    assert_eq!(int_string(905000), "905000");
    assert_eq!(parse_plain_int("-42", i64::MIN + 1, i64::MAX), Some(-42));
    assert_eq!(parse_plain_int("007", 0, 100), Some(7));
    assert_eq!(parse_plain_int("", 0, 100), None);
    assert_eq!(parse_plain_int("7x", 0, 100), None);
    assert_eq!(parse_plain_int("-", 0, 100), None);
    assert_eq!(parse_plain_int("200", 0, 100), None);
    assert_eq!(parse_plain_int("99999999999999999999999999", 0, i64::MAX), None);
}
