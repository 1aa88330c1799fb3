//! The asset data model: elements, descriptors, markers, layout entries and
//! layouts, in both their serializable ("asset") and runtime forms, with the
//! content paths each kind of file lives under.
//!
//! Asset forms reference other assets by name; runtime forms carry resolved
//! name handles wrapped in [`Wrapper`]. A layout keys its entries by chunk id
//! in a sorted vector, so iteration order is deterministic.

use vstd::prelude::*;
use vstd::string::*;

use crate::chunk::{ChunkLight, MoveChunkSensorChunk, ReplaceAssetSensorChunk, SwapSensorChunk};
use crate::geometry::{scalar_ok, spec_transform_identity, transform_ok, color_ok, Color, Transform};

verus! {

/// A name is serializable when it holds no double quote, the one character
/// the content format reserves.
pub open spec fn valid_name(s: Seq<char>) -> bool {
    forall|i: int| 0 <= i < s.len() ==> s[i] != '"'
}

/// The levels shipped with the game, in progression order.
#[derive(Clone, Copy, PartialEq, Eq, Structural, Debug)]
pub enum GameLevel {
    Demo,
    Level1,
}

impl GameLevel {
    /// The content path of this level's layout file.
    pub fn path(&self) -> (r: String)
        ensures
            *self is Demo ==> r@ == "levels/demo.layout"@,
            *self is Level1 ==> r@ == "levels/level_1.layout"@,
    {
        match self {
            GameLevel::Demo => String::from_str("levels/demo.layout"),
            GameLevel::Level1 => String::from_str("levels/level_1.layout"),
        }
    }

    /// The level after this one in progression order, if any.
    pub fn next(&self) -> (r: Option<GameLevel>)
        ensures
            *self is Demo ==> r == Some(GameLevel::Level1),
            *self is Level1 ==> r is None,
    {
        match self {
            GameLevel::Demo => Some(GameLevel::Level1),
            GameLevel::Level1 => None,
        }
    }
}

/// Serializable shape of one chunk element; lengths in thousandths of a
/// world unit.
#[derive(Clone, Debug)]
pub enum ChunkElementShapeAsset {
    Plane { size: i64 },
    Cube { length: i64 },
    Sphere { radius: i64 },
    Gltf { mesh_path: String },
}

/// Runtime shape of one chunk element. A `Gltf` shape keeps the model path it
/// was resolved from; the model itself is loaded outside this library.
#[derive(Clone, Debug)]
pub enum ChunkElementShape {
    Plane { size: i64 },
    Cube { length: i64 },
    Sphere { radius: i64 },
    Gltf { mesh_path: String },
}

/// Ghost view of a shape: the model path as a character sequence.
pub ghost enum ShapeV {
    Plane { size: i64 },
    Cube { length: i64 },
    Sphere { radius: i64 },
    Gltf { mesh_path: Seq<char> },
}

impl View for ChunkElementShapeAsset {
    type V = ShapeV;

    open spec fn view(&self) -> ShapeV {
        match self {
            ChunkElementShapeAsset::Plane { size } => ShapeV::Plane { size: *size },
            ChunkElementShapeAsset::Cube { length } => ShapeV::Cube { length: *length },
            ChunkElementShapeAsset::Sphere { radius } => ShapeV::Sphere { radius: *radius },
            ChunkElementShapeAsset::Gltf { mesh_path } => ShapeV::Gltf { mesh_path: mesh_path@ },
        }
    }
}

impl View for ChunkElementShape {
    type V = ShapeV;

    open spec fn view(&self) -> ShapeV {
        match self {
            ChunkElementShape::Plane { size } => ShapeV::Plane { size: *size },
            ChunkElementShape::Cube { length } => ShapeV::Cube { length: *length },
            ChunkElementShape::Sphere { radius } => ShapeV::Sphere { radius: *radius },
            ChunkElementShape::Gltf { mesh_path } => ShapeV::Gltf { mesh_path: mesh_path@ },
        }
    }
}

/// Whether a shape's dimensions are within serializable bounds and its model
/// path is a serializable name.
pub open spec fn shape_v_ok(s: ShapeV) -> bool {
    match s {
        ShapeV::Plane { size } => scalar_ok(size as int),
        ShapeV::Cube { length } => scalar_ok(length as int),
        ShapeV::Sphere { radius } => scalar_ok(radius as int),
        ShapeV::Gltf { mesh_path } => valid_name(mesh_path),
    }
}

/// Serializable record of one piece of chunk geometry.
#[derive(Clone, Debug)]
pub struct ChunkElementAsset {
    pub name: String,
    pub transform: Transform,
    pub shape: ChunkElementShapeAsset,
    pub color: Color,
    /// For a `Gltf` shape, whether a collider is attached; primitive shapes
    /// always receive one.
    pub has_collider: bool,
}

/// Runtime form of one piece of chunk geometry.
#[derive(Clone, Debug)]
pub struct ChunkElement {
    pub name: String,
    pub transform: Transform,
    pub shape: ChunkElementShape,
    pub color: Color,
    pub has_collider: bool,
}

/// Ghost view shared by [`ChunkElementAsset`] and [`ChunkElement`].
#[verifier::ext_equal]
pub ghost struct ElementV {
    pub name: Seq<char>,
    pub transform: Transform,
    pub shape: ShapeV,
    pub color: Color,
    pub has_collider: bool,
}

impl View for ChunkElementAsset {
    type V = ElementV;

    open spec fn view(&self) -> ElementV {
        ElementV {
            name: self.name@,
            transform: self.transform,
            shape: self.shape@,
            color: self.color,
            has_collider: self.has_collider,
        }
    }
}

impl View for ChunkElement {
    type V = ElementV;

    open spec fn view(&self) -> ElementV {
        ElementV {
            name: self.name@,
            transform: self.transform,
            shape: self.shape@,
            color: self.color,
            has_collider: self.has_collider,
        }
    }
}

/// Whether an element is serializable: a valid name and bounded scalars.
pub open spec fn element_v_ok(e: ElementV) -> bool {
    &&& valid_name(e.name)
    &&& transform_ok(e.transform)
    &&& shape_v_ok(e.shape)
    &&& color_ok(e.color)
}

impl ChunkElement {
    /// A fresh element: a white unit cube with a collider at the origin.
    pub fn new(name: String) -> (r: ChunkElement)
        ensures
            r@.name == name@,
            r@.transform == spec_transform_identity(),
            r@.shape == (ShapeV::Cube { length: 1000 }),
            r@.color == (Color { r: 1000, g: 1000, b: 1000, a: 1000 }),
            r@.has_collider,
    {
        ChunkElement {
            name,
            transform: Transform::identity(),
            shape: ChunkElementShape::Cube { length: 1000 },
            color: Color::white(),
            has_collider: true,
        }
    }
}

/// Newtype around a resolved asset reference, so that runtime forms are kept
/// apart from the raw names in serializable forms.
#[derive(Clone, Debug)]
pub struct Wrapper<T>(pub T);

/// Serializable record of a chunk descriptor: the names of its elements, in
/// order.
#[derive(Clone, Debug)]
pub struct ChunkDescriptorAsset {
    pub name: String,
    pub elements: Vec<String>,
}

/// Runtime chunk descriptor: an ordered list of element name handles.
#[derive(Clone, Debug)]
pub struct ChunkDescriptor {
    pub name: String,
    pub elements: Vec<Wrapper<String>>,
}

/// Ghost view shared by [`ChunkDescriptorAsset`] and [`ChunkDescriptor`].
#[verifier::ext_equal]
pub ghost struct DescriptorV {
    pub name: Seq<char>,
    pub elements: Seq<Seq<char>>,
}

impl View for ChunkDescriptorAsset {
    type V = DescriptorV;

    open spec fn view(&self) -> DescriptorV {
        DescriptorV {
            name: self.name@,
            elements: self.elements.deep_view(),
        }
    }
}

impl View for ChunkDescriptor {
    type V = DescriptorV;

    open spec fn view(&self) -> DescriptorV {
        DescriptorV {
            name: self.name@,
            elements: Seq::new(self.elements@.len(), |i: int| self.elements@[i].0@),
        }
    }
}

/// Whether a descriptor is serializable: every name valid, and an element
/// count the format's integer fields can carry.
pub open spec fn descriptor_v_ok(d: DescriptorV) -> bool {
    &&& valid_name(d.name)
    &&& forall|i: int| 0 <= i < d.elements.len() ==> valid_name(#[trigger] d.elements[i])
    &&& d.elements.len() <= i64::MAX
}

impl ChunkDescriptor {
    /// A fresh descriptor with no elements yet.
    pub fn new(name: String) -> (r: ChunkDescriptor)
        ensures
            r@.name == name@,
            r@.elements.len() == 0,
    {
        ChunkDescriptor { name, elements: Vec::new() }
    }

    /// Resolves every element of this descriptor against the loaded elements,
    /// in order. Returns `None` as soon as one element name is not loaded: a
    /// descriptor with a pending dependency is not yet usable as a whole.
    pub fn get_elements(&self, chunk_elements: &Vec<ChunkElement>) -> (r: Option<
        Vec<ChunkElement>,
    >)
        ensures
            match r {
                Some(es) => {
                    &&& es@.len() == self@.elements.len()
                    &&& forall|i: int|
                        0 <= i < es@.len() ==> #[trigger] es@[i]@ == spec_find_element(
                            chunk_elements@,
                            self@.elements[i],
                        )->0@
                    &&& forall|i: int|
                        0 <= i < self@.elements.len() ==> spec_find_element(
                            chunk_elements@,
                            #[trigger] self@.elements[i],
                        ) is Some
                },
                None => exists|i: int|
                    0 <= i < self@.elements.len() && spec_find_element(
                        chunk_elements@,
                        #[trigger] self@.elements[i],
                    ) is None,
            },
    {
        let mut out: Vec<ChunkElement> = Vec::new();
        let mut i: usize = 0;
        while i < self.elements.len()
            invariant
                0 <= i <= self.elements@.len(),
                out@.len() == i,
                forall|j: int|
                    0 <= j < i ==> #[trigger] out@[j]@ == spec_find_element(
                        chunk_elements@,
                        self@.elements[j],
                    )->0@,
                forall|j: int|
                    0 <= j < i ==> spec_find_element(
                        chunk_elements@,
                        #[trigger] self@.elements[j],
                    ) is Some,
            decreases self.elements@.len() - i,
        {
            proof {
                assert(self@.elements[i as int] == self.elements@[i as int].0@);
            }
            match find_element(chunk_elements, &self.elements[i].0) {
                Some(e) => {
                    let copy = clone_element(e);
                    out.push(copy);
                },
                None => {
                    proof {
                        assert(spec_find_element(chunk_elements@, self@.elements[i as int])
                            is None);
                    }
                    return None;
                },
            }
            i += 1;
        }
        Some(out)
    }
}

/// The loaded element (if any) whose name is `name`: the first match, though
/// loaded element names are unique in a well-formed stash.
pub open spec fn spec_find_element(es: Seq<ChunkElement>, name: Seq<char>) -> Option<ChunkElement>
    decreases es.len(),
{
    if es.len() == 0 {
        None
    } else if es[0].name@ == name {
        Some(es[0])
    } else {
        spec_find_element(es.drop_first(), name)
    }
}

/// Looks an element up by name among the loaded elements.
pub fn find_element<'a>(es: &'a Vec<ChunkElement>, name: &String) -> (r: Option<&'a ChunkElement>)
    ensures
        match r {
            Some(e) => spec_find_element(es@, name@) == Some(*e),
            None => spec_find_element(es@, name@) is None,
        },
{
    let mut i: usize = 0;
    proof {
        assert(es@.skip(0) =~= es@);
    }
    while i < es.len()
        invariant
            0 <= i <= es@.len(),
            spec_find_element(es@, name@) == spec_find_element(es@.skip(i as int), name@),
        decreases es@.len() - i,
    {
        proof {
            assert(es@.skip(i as int)[0] == es@[i as int]);
            assert(es@.skip(i as int).drop_first() =~= es@.skip(i as int + 1));
        }
        if es[i].name.eq(name) {
            return Some(&es[i]);
        }
        i += 1;
    }
    proof {
        assert(es@.skip(i as int).len() == 0);
    }
    None
}

/// Rebuilds an element, field by field, as an equal value.
pub fn clone_element(e: &ChunkElement) -> (r: ChunkElement)
    ensures
        r == *e,
{
    ChunkElement {
        name: e.name.clone(),
        transform: e.transform,
        shape: match &e.shape {
            ChunkElementShape::Plane { size } => ChunkElementShape::Plane { size: *size },
            ChunkElementShape::Cube { length } => ChunkElementShape::Cube { length: *length },
            ChunkElementShape::Sphere { radius } => ChunkElementShape::Sphere { radius: *radius },
            ChunkElementShape::Gltf { mesh_path } => ChunkElementShape::Gltf {
                mesh_path: mesh_path.clone(),
            },
        },
        color: e.color,
        has_collider: e.has_collider,
    }
}

} // verus!

verus! {

/// A behavior tag attached to a layout entry; expanded into runtime state
/// when the chunk spawns.
#[derive(Clone, Debug)]
pub enum ChunkMarker {
    /// A player spawn point at the given transform.
    PlayerSpawn(Transform),
    /// A point light child.
    Light(ChunkLight),
    /// Entering this chunk swaps two chunks' world translations.
    SwapSensor(SwapSensorChunk),
    /// Entering this chunk replaces another chunk's descriptor.
    ReplaceAssetSensor(ReplaceAssetSensorChunk),
    /// Entering this chunk moves another chunk to a grid position.
    MoveChunkSensor(MoveChunkSensorChunk),
}

/// Ghost view of a replace sensor: the descriptor name as characters.
#[verifier::ext_equal]
pub ghost struct ReplaceSensorV {
    pub chunk: u32,
    pub descriptor: Seq<char>,
    pub invert_after_swap: bool,
}

impl View for ReplaceAssetSensorChunk {
    type V = ReplaceSensorV;

    open spec fn view(&self) -> ReplaceSensorV {
        ReplaceSensorV {
            chunk: self.chunk.0,
            descriptor: self.descriptor@,
            invert_after_swap: self.invert_after_swap,
        }
    }
}

/// Ghost view of a marker.
pub ghost enum MarkerV {
    PlayerSpawn(Transform),
    Light(ChunkLight),
    SwapSensor(SwapSensorChunk),
    ReplaceAssetSensor(ReplaceSensorV),
    MoveChunkSensor(MoveChunkSensorChunk),
}

impl View for ChunkMarker {
    type V = MarkerV;

    open spec fn view(&self) -> MarkerV {
        match self {
            ChunkMarker::PlayerSpawn(t) => MarkerV::PlayerSpawn(*t),
            ChunkMarker::Light(l) => MarkerV::Light(*l),
            ChunkMarker::SwapSensor(s) => MarkerV::SwapSensor(*s),
            ChunkMarker::ReplaceAssetSensor(s) => MarkerV::ReplaceAssetSensor(s@),
            ChunkMarker::MoveChunkSensor(s) => MarkerV::MoveChunkSensor(*s),
        }
    }
}

impl Default for ChunkMarker {
    /// The default marker is a spawn point at the identity transform.
    fn default() -> (r: ChunkMarker)
        ensures
            r@ == MarkerV::PlayerSpawn(spec_transform_identity()),
    {
        ChunkMarker::PlayerSpawn(Transform::identity())
    }
}

/// Whether a marker is serializable: bounded scalars and valid names.
pub open spec fn marker_v_ok(m: MarkerV) -> bool {
    match m {
        MarkerV::PlayerSpawn(t) => transform_ok(t),
        MarkerV::Light(l) => transform_ok(l.transform) && color_ok(l.color) && scalar_ok(
            l.intensity as int,
        ) && scalar_ok(l.range as int),
        MarkerV::SwapSensor(_) => true,
        MarkerV::ReplaceAssetSensor(r) => valid_name(r.descriptor),
        MarkerV::MoveChunkSensor(_) => true,
    }
}

/// The view of a marker list.
pub open spec fn markers_view(ms: Seq<ChunkMarker>) -> Seq<MarkerV> {
    ms.map_values(|m: ChunkMarker| m@)
}

/// Rebuilds a marker, field by field, as a value with the same view.
pub fn clone_marker(m: &ChunkMarker) -> (r: ChunkMarker)
    ensures
        r@ == m@,
{
    match m {
        ChunkMarker::PlayerSpawn(t) => ChunkMarker::PlayerSpawn(*t),
        ChunkMarker::Light(l) => ChunkMarker::Light(*l),
        ChunkMarker::SwapSensor(s) => ChunkMarker::SwapSensor(*s),
        ChunkMarker::ReplaceAssetSensor(s) => ChunkMarker::ReplaceAssetSensor(
            ReplaceAssetSensorChunk {
                chunk: s.chunk,
                descriptor: s.descriptor.clone(),
                invert_after_swap: s.invert_after_swap,
            },
        ),
        ChunkMarker::MoveChunkSensor(s) => ChunkMarker::MoveChunkSensor(*s),
    }
}

/// Rebuilds a marker list as a list with the same view.
pub fn clone_markers(ms: &Vec<ChunkMarker>) -> (r: Vec<ChunkMarker>)
    ensures
        markers_view(r@) == markers_view(ms@),
{
    let mut out: Vec<ChunkMarker> = Vec::new();
    let mut i: usize = 0;
    while i < ms.len()
        invariant
            0 <= i <= ms@.len(),
            out@.len() == i,
            forall|j: int| 0 <= j < i ==> #[trigger] out@[j]@ == ms@[j]@,
        decreases ms@.len() - i,
    {
        out.push(clone_marker(&ms[i]));
        i += 1;
    }
    proof {
        assert(markers_view(out@) =~= markers_view(ms@));
    }
    out
}

/// Serializable form of one layout entry: a grid position, a descriptor name
/// and the markers attached to this chunk.
#[derive(Debug)]
pub struct ChunkEntryAsset {
    pub grid_pos: (i32, i32),
    pub descriptor: String,
    pub components: Vec<ChunkMarker>,
}

/// Runtime form of one layout entry.
#[derive(Debug)]
pub struct ChunkEntry {
    pub grid_pos: (i32, i32),
    pub descriptor: Wrapper<String>,
    pub components: Vec<ChunkMarker>,
}

/// Ghost view shared by [`ChunkEntryAsset`] and [`ChunkEntry`].
#[verifier::ext_equal]
pub ghost struct EntryV {
    pub grid_pos: (i32, i32),
    pub descriptor: Seq<char>,
    pub components: Seq<MarkerV>,
}

impl View for ChunkEntryAsset {
    type V = EntryV;

    open spec fn view(&self) -> EntryV {
        EntryV {
            grid_pos: self.grid_pos,
            descriptor: self.descriptor@,
            components: markers_view(self.components@),
        }
    }
}

impl View for ChunkEntry {
    type V = EntryV;

    open spec fn view(&self) -> EntryV {
        EntryV {
            grid_pos: self.grid_pos,
            descriptor: self.descriptor.0@,
            components: markers_view(self.components@),
        }
    }
}

/// Whether an entry is serializable: a valid descriptor name, serializable
/// markers, and a marker count the format's integer fields can carry.
pub open spec fn entry_v_ok(e: EntryV) -> bool {
    &&& valid_name(e.descriptor)
    &&& forall|i: int| 0 <= i < e.components.len() ==> marker_v_ok(#[trigger] e.components[i])
    &&& e.components.len() <= i64::MAX
}

/// Serializable form of a whole level layout: entries keyed by chunk id, in
/// strictly increasing id order.
#[derive(Debug)]
pub struct ChunkLayoutAsset {
    pub chunks: Vec<(u32, ChunkEntryAsset)>,
}

/// Runtime form of a whole level layout.
#[derive(Debug)]
pub struct ChunkLayout {
    pub chunks: Vec<(u32, ChunkEntry)>,
}

/// Ghost view shared by [`ChunkLayoutAsset`] and [`ChunkLayout`].
#[verifier::ext_equal]
pub ghost struct LayoutV {
    pub chunks: Seq<(u32, EntryV)>,
}

impl View for ChunkLayoutAsset {
    type V = LayoutV;

    open spec fn view(&self) -> LayoutV {
        LayoutV { chunks: Seq::new(self.chunks@.len(), |i: int| (self.chunks@[i].0, self.chunks@[i].1@)) }
    }
}

impl View for ChunkLayout {
    type V = LayoutV;

    open spec fn view(&self) -> LayoutV {
        LayoutV { chunks: Seq::new(self.chunks@.len(), |i: int| (self.chunks@[i].0, self.chunks@[i].1@)) }
    }
}

/// Chunk ids strictly increase along the entry list, which makes them unique
/// and the iteration order deterministic.
pub open spec fn layout_ids_sorted(chunks: Seq<(u32, EntryV)>) -> bool {
    forall|i: int, j: int| 0 <= i < j < chunks.len() ==> chunks[i].0 < chunks[j].0
}

/// Whether a layout is serializable: sorted unique ids, every entry
/// serializable.
pub open spec fn layout_v_ok(l: LayoutV) -> bool {
    &&& layout_ids_sorted(l.chunks)
    &&& forall|i: int| 0 <= i < l.chunks.len() ==> entry_v_ok(#[trigger] l.chunks[i].1)
    &&& l.chunks.len() <= i64::MAX
}

} // verus!

verus! {

/// Content path of an element file: `chunks/elements/<name>.chunk.element`.
pub open spec fn spec_element_path(name: Seq<char>) -> Seq<char> {
    "chunks/elements/"@ + name + ".chunk.element"@
}

/// Content path of a descriptor file: `chunks/<name>.chunk`.
pub open spec fn spec_descriptor_path(name: Seq<char>) -> Seq<char> {
    "chunks/"@ + name + ".chunk"@
}

impl ChunkElementAsset {
    /// The content path this element is saved under.
    pub fn path(&self) -> (r: String)
        ensures
            r@ == spec_element_path(self@.name),
    {
        ChunkElementAsset::path_from_name(&self.name)
    }

    /// The content path of the element with the given name.
    pub fn path_from_name(name: &String) -> (r: String)
        ensures
            r@ == spec_element_path(name@),
    {
        let mut out = String::from_str("chunks/elements/");
        out.append(name.as_str());
        out.append(".chunk.element");
        out
    }
}

impl ChunkDescriptorAsset {
    /// The content path this descriptor is saved under.
    pub fn path(&self) -> (r: String)
        ensures
            r@ == spec_descriptor_path(self@.name),
    {
        ChunkDescriptorAsset::path_from_name(&self.name)
    }

    /// The content path of the descriptor with the given name.
    pub fn path_from_name(name: &String) -> (r: String)
        ensures
            r@ == spec_descriptor_path(name@),
    {
        let mut out = String::from_str("chunks/");
        out.append(name.as_str());
        out.append(".chunk");
        out
    }
}

impl ChunkLayoutAsset {
    /// The content path of the layout file for the given level.
    pub fn path_for_level(level: &GameLevel) -> (r: String)
        ensures
            *level is Demo ==> r@ == "levels/demo.layout"@,
            *level is Level1 ==> r@ == "levels/level_1.layout"@,
    {
        level.path()
    }
}

impl ChunkElement {
    /// Resolves a serializable element record into its runtime form. The
    /// shape and every other field carry over unchanged; loading the model a
    /// `Gltf` shape names is left to the caller.
    pub fn from_asset(a: ChunkElementAsset) -> (r: ChunkElement)
        ensures
            r@ == a@,
    {
        ChunkElement {
            name: a.name,
            transform: a.transform,
            shape: match a.shape {
                ChunkElementShapeAsset::Plane { size } => ChunkElementShape::Plane { size },
                ChunkElementShapeAsset::Cube { length } => ChunkElementShape::Cube { length },
                ChunkElementShapeAsset::Sphere { radius } => ChunkElementShape::Sphere { radius },
                ChunkElementShapeAsset::Gltf { mesh_path } => ChunkElementShape::Gltf { mesh_path },
            },
            color: a.color,
            has_collider: a.has_collider,
        }
    }
}

impl ChunkElementAsset {
    /// The serializable record of a runtime element.
    pub fn from_element(e: &ChunkElement) -> (r: ChunkElementAsset)
        ensures
            r@ == e@,
    {
        ChunkElementAsset {
            name: e.name.clone(),
            transform: e.transform,
            shape: match &e.shape {
                ChunkElementShape::Plane { size } => ChunkElementShapeAsset::Plane { size: *size },
                ChunkElementShape::Cube { length } => ChunkElementShapeAsset::Cube {
                    length: *length,
                },
                ChunkElementShape::Sphere { radius } => ChunkElementShapeAsset::Sphere {
                    radius: *radius,
                },
                ChunkElementShape::Gltf { mesh_path } => ChunkElementShapeAsset::Gltf {
                    mesh_path: mesh_path.clone(),
                },
            },
            color: e.color,
            has_collider: e.has_collider,
        }
    }
}

impl ChunkDescriptor {
    /// Resolves a serializable descriptor into its runtime form: each element
    /// name becomes a name handle, in order.
    pub fn from_asset(a: ChunkDescriptorAsset) -> (r: ChunkDescriptor)
        ensures
            r@ == a@,
    {
        let ghost av = a@;
        let mut elements: Vec<Wrapper<String>> = Vec::new();
        let mut rest = a.elements;
        let mut i: usize = 0;
        let n = rest.len();
        while i < n
            invariant
                0 <= i <= n,
                n == rest@.len(),
                rest.deep_view() == av.elements,
                elements@.len() == i,
                forall|j: int| 0 <= j < i ==> #[trigger] elements@[j].0@ == av.elements[j],
            decreases n - i,
        {
            proof {
                assert(rest.deep_view()[i as int] == rest@[i as int]@);
            }
            let name = rest[i].clone();
            elements.push(Wrapper(name));
            i += 1;
        }
        let r = ChunkDescriptor { name: a.name, elements };
        proof {
            assert(r@.elements =~= av.elements);
        }
        r
    }
}

impl ChunkDescriptorAsset {
    /// The serializable record of a runtime descriptor. Element handles that
    /// do not resolve against the loaded elements are left out, as they have
    /// no asset to refer to.
    pub fn from_descriptor(d: &ChunkDescriptor, chunk_elements: &Vec<ChunkElement>) -> (r:
        ChunkDescriptorAsset)
        ensures
            r@.name == d@.name,
            r@.elements == d@.elements.filter(
                |n: Seq<char>| spec_find_element(chunk_elements@, n) is Some,
            ),
    {
        let ghost dv = d@;
        let mut elements: Vec<String> = Vec::new();
        let mut i: usize = 0;
        proof {
            assert(dv.elements.take(0) =~= Seq::<Seq<char>>::empty());
            assert(Seq::<Seq<char>>::empty().filter(
                |n: Seq<char>| spec_find_element(chunk_elements@, n) is Some,
            ) =~= Seq::<Seq<char>>::empty());
        }
        while i < d.elements.len()
            invariant
                0 <= i <= d.elements@.len(),
                dv == d@,
                d.elements@.len() == dv.elements.len(),
                elements.deep_view() == dv.elements.take(i as int).filter(
                    |n: Seq<char>| spec_find_element(chunk_elements@, n) is Some,
                ),
            decreases d.elements@.len() - i,
        {
            proof {
                assert(dv.elements[i as int] == d.elements@[i as int].0@);
                assert(dv.elements.take(i as int + 1).drop_last() =~= dv.elements.take(i as int));
                assert(dv.elements.take(i as int + 1).last() == dv.elements[i as int]);
                reveal_with_fuel(Seq::filter, 2);
            }
            let ghost before = elements.deep_view();
            if find_element(chunk_elements, &d.elements[i].0).is_some() {
                elements.push(d.elements[i].0.clone());
                proof {
                    assert(elements.deep_view() =~= before.push(dv.elements[i as int]));
                }
            }
            proof {
                assert(dv.elements.take(i as int + 1).filter(
                    |n: Seq<char>| spec_find_element(chunk_elements@, n) is Some,
                ) =~= elements.deep_view());
            }
            i += 1;
        }
        proof {
            assert(dv.elements.take(dv.elements.len() as int) =~= dv.elements);
        }
        let r = ChunkDescriptorAsset { name: d.name.clone(), elements };
        r
    }
}

} // verus!

verus! {

impl ChunkEntry {
    /// Resolves a serializable entry into its runtime form.
    pub fn from_asset(a: ChunkEntryAsset) -> (r: ChunkEntry)
        ensures
            r@ == a@,
    {
        ChunkEntry {
            grid_pos: a.grid_pos,
            descriptor: Wrapper(a.descriptor),
            components: a.components,
        }
    }
}

impl ChunkEntryAsset {
    /// The serializable record of a runtime entry.
    pub fn from_entry(e: &ChunkEntry) -> (r: ChunkEntryAsset)
        ensures
            r@ == e@,
    {
        ChunkEntryAsset {
            grid_pos: e.grid_pos,
            descriptor: e.descriptor.0.clone(),
            components: clone_markers(&e.components),
        }
    }
}

impl ChunkEntryAsset {
    /// Rebuilds an entry record as a value with the same view.
    pub fn clone_entry(&self) -> (r: ChunkEntryAsset)
        ensures
            r@ == self@,
    {
        ChunkEntryAsset {
            grid_pos: self.grid_pos,
            descriptor: self.descriptor.clone(),
            components: clone_markers(&self.components),
        }
    }
}

impl ChunkLayout {
    /// Resolves a serializable layout into its runtime form, entry by entry
    /// in id order.
    pub fn from_asset(a: &ChunkLayoutAsset) -> (r: ChunkLayout)
        ensures
            r@ == a@,
    {
        let mut chunks: Vec<(u32, ChunkEntry)> = Vec::new();
        let mut i: usize = 0;
        while i < a.chunks.len()
            invariant
                0 <= i <= a.chunks@.len(),
                chunks@.len() == i,
                forall|j: int|
                    0 <= j < i ==> (#[trigger] chunks@[j]).0 == a.chunks@[j].0 && chunks@[j].1@
                        == a.chunks@[j].1@,
            decreases a.chunks@.len() - i,
        {
            let id = a.chunks[i].0;
            let entry = ChunkEntry::from_asset(a.chunks[i].1.clone_entry());
            chunks.push((id, entry));
            i += 1;
        }
        let r = ChunkLayout { chunks };
        proof {
            assert(r@.chunks =~= a@.chunks);
        }
        r
    }
}

} // verus!

verus! {

impl ChunkLayoutAsset {
    /// The serializable record of a runtime layout, entry by entry in id
    /// order.
    pub fn from_layout(l: &ChunkLayout) -> (r: ChunkLayoutAsset)
        ensures
            r@ == l@,
    {
        let mut chunks: Vec<(u32, ChunkEntryAsset)> = Vec::new();
        let mut i: usize = 0;
        while i < l.chunks.len()
            invariant
                0 <= i <= l.chunks@.len(),
                chunks@.len() == i,
                forall|j: int|
                    0 <= j < i ==> (#[trigger] chunks@[j]).0 == l.chunks@[j].0 && chunks@[j].1@
                        == l.chunks@[j].1@,
            decreases l.chunks@.len() - i,
        {
            let id = l.chunks[i].0;
            let entry = ChunkEntryAsset::from_entry(&l.chunks[i].1);
            chunks.push((id, entry));
            i += 1;
        }
        let r = ChunkLayoutAsset { chunks };
        proof {
            assert(r@.chunks =~= l@.chunks);
        }
        r
    }
}

} // verus!

verus! {

/// Whether a string is a serializable name, checked character by
/// character.
pub fn name_ok(s: &str) -> (r: bool)
    ensures
        r == valid_name(s@),
{
    let n = s.unicode_len();
    let mut i: usize = 0;
    while i < n
        invariant
            0 <= i <= n,
            n == s@.len(),
            forall|k: int| 0 <= k < i ==> s@[k] != '"',
        decreases n - i,
    {
        if s.get_char(i) == '"' {
            return false;
        }
        i += 1;
    }
    true
}

/// Whether a scalar is within the serializable bound.
pub fn check_scalar(v: i64) -> (r: bool)
    ensures
        r == scalar_ok(v as int),
{
    -crate::geometry::SCALAR_BOUND <= v && v <= crate::geometry::SCALAR_BOUND
}

/// Whether a transform's scalars are all within bounds.
pub fn check_transform(t: &Transform) -> (r: bool)
    ensures
        r == transform_ok(*t),
{
    check_scalar(t.translation.x) && check_scalar(t.translation.y) && check_scalar(
        t.translation.z,
    ) && check_scalar(t.rotation.x) && check_scalar(t.rotation.y) && check_scalar(t.rotation.z)
        && check_scalar(t.rotation.w) && check_scalar(t.scale.x) && check_scalar(t.scale.y)
        && check_scalar(t.scale.z)
}

/// Whether a color's channels are all within bounds.
pub fn check_color(c: &Color) -> (r: bool)
    ensures
        r == color_ok(*c),
{
    check_scalar(c.r) && check_scalar(c.g) && check_scalar(c.b) && check_scalar(c.a)
}

/// Whether a runtime element is serializable.
pub fn check_element(e: &ChunkElement) -> (r: bool)
    ensures
        r == element_v_ok(e@),
{
    let shape_fine = match &e.shape {
        ChunkElementShape::Plane { size } => check_scalar(*size),
        ChunkElementShape::Cube { length } => check_scalar(*length),
        ChunkElementShape::Sphere { radius } => check_scalar(*radius),
        ChunkElementShape::Gltf { mesh_path } => name_ok(mesh_path.as_str()),
    };
    name_ok(e.name.as_str()) && check_transform(&e.transform) && shape_fine && check_color(
        &e.color,
    )
}

/// Whether every element of a registry is serializable.
pub fn check_elements(es: &Vec<ChunkElement>) -> (r: bool)
    ensures
        r == crate::chunk::elements_ok(es@),
{
    let mut i: usize = 0;
    while i < es.len()
        invariant
            0 <= i <= es@.len(),
            forall|k: int| 0 <= k < i ==> element_v_ok((#[trigger] es@[k])@),
        decreases es@.len() - i,
    {
        if !check_element(&es[i]) {
            return false;
        }
        i += 1;
    }
    true
}

/// Whether a runtime descriptor is serializable.
pub fn check_descriptor(d: &ChunkDescriptor) -> (r: bool)
    ensures
        r == descriptor_v_ok(d@),
{
    if !name_ok(d.name.as_str()) {
        return false;
    }
    if d.elements.len() as u64 > i64::MAX as u64 {
        return false;
    }
    let mut i: usize = 0;
    while i < d.elements.len()
        invariant
            0 <= i <= d.elements@.len(),
            d@.elements.len() == d.elements@.len(),
            valid_name(d@.name),
            d.elements@.len() <= i64::MAX,
            forall|k: int| 0 <= k < i ==> valid_name(#[trigger] d@.elements[k]),
        decreases d.elements@.len() - i,
    {
        proof {
            assert(d@.elements[i as int] == d.elements@[i as int].0@);
        }
        if !name_ok(d.elements[i].0.as_str()) {
            return false;
        }
        i += 1;
    }
    true
}

/// Whether every descriptor of a registry is serializable.
pub fn check_descriptors(ds: &Vec<ChunkDescriptor>) -> (r: bool)
    ensures
        r == (forall|i: int| 0 <= i < ds@.len() ==> descriptor_v_ok((#[trigger] ds@[i])@)),
{
    let mut i: usize = 0;
    while i < ds.len()
        invariant
            0 <= i <= ds@.len(),
            forall|k: int| 0 <= k < i ==> descriptor_v_ok((#[trigger] ds@[k])@),
        decreases ds@.len() - i,
    {
        if !check_descriptor(&ds[i]) {
            return false;
        }
        i += 1;
    }
    true
}

/// Whether a runtime marker is serializable.
pub fn check_marker(m: &ChunkMarker) -> (r: bool)
    ensures
        r == marker_v_ok(m@),
{
    match m {
        ChunkMarker::PlayerSpawn(t) => check_transform(t),
        ChunkMarker::Light(l) => check_transform(&l.transform) && check_color(&l.color)
            && check_scalar(l.intensity) && check_scalar(l.range),
        ChunkMarker::SwapSensor(_) => true,
        ChunkMarker::ReplaceAssetSensor(s) => name_ok(s.descriptor.as_str()),
        ChunkMarker::MoveChunkSensor(_) => true,
    }
}

/// Whether a runtime layout is serializable: sorted unique ids and
/// serializable entries throughout.
#[verifier::loop_isolation(false)]
pub fn check_layout(l: &ChunkLayout) -> (r: bool)
    ensures
        r == layout_v_ok(l@),
{
    if l.chunks.len() as u64 > i64::MAX as u64 {
        return false;
    }
    let mut i: usize = 0;
    while i < l.chunks.len()
        invariant
            0 <= i <= l.chunks@.len(),
            forall|k: int| 0 <= k < i - 1 ==> (#[trigger] l@.chunks[k]).0 < l@.chunks[k + 1].0,
            forall|k: int| 0 <= k < i ==> entry_v_ok((#[trigger] l@.chunks[k]).1),
        decreases l.chunks@.len() - i,
    {
        if i > 0 && l.chunks[i - 1].0 >= l.chunks[i].0 {
            proof {
                assert(l@.chunks[i as int - 1].0 >= l@.chunks[i as int].0);
                assert(!layout_ids_sorted(l@.chunks));
            }
            return false;
        }
        let entry = &l.chunks[i].1;
        proof {
            assert(l@.chunks[i as int].1 == l.chunks@[i as int].1@);
        }
        if !name_ok(entry.descriptor.0.as_str()) {
            proof {
                assert(!entry_v_ok(l@.chunks[i as int].1));
            }
            return false;
        }
        if entry.components.len() as u64 > i64::MAX as u64 {
            proof {
                assert(markers_view(entry.components@).len() == entry.components@.len());
                assert(!entry_v_ok(l@.chunks[i as int].1));
            }
            return false;
        }
        let mut j: usize = 0;
        while j < entry.components.len()
            invariant
                0 <= j <= entry.components@.len(),
                forall|k: int|
                    0 <= k < j ==> marker_v_ok(#[trigger] markers_view(entry.components@)[k]),
            decreases entry.components@.len() - j,
        {
            proof {
                assert(markers_view(entry.components@)[j as int] == entry.components@[j as int]@);
            }
            if !check_marker(&entry.components[j]) {
                proof {
                    assert(!marker_v_ok(markers_view(entry.components@)[j as int]));
                    assert(!entry_v_ok(l@.chunks[i as int].1));
                }
                return false;
            }
            j += 1;
        }
        proof {
            assert(l@.chunks[i as int].1 == l.chunks@[i as int].1@);
            assert(entry_v_ok(l@.chunks[i as int].1));
        }
        i += 1;
    }
    proof {
        assert forall|a: int, b: int| 0 <= a < b < l@.chunks.len() implies l@.chunks[a].0
            < l@.chunks[b].0 by {
            lemma_adjacent_sorted(l@.chunks, a, b);
        }
    }
    true
}

/// Adjacent ids strictly increasing make the whole list strictly
/// increasing.
pub proof fn lemma_adjacent_sorted(es: Seq<(u32, EntryV)>, i: int, j: int)
    requires
        forall|k: int| 0 <= k < es.len() - 1 ==> (#[trigger] es[k]).0 < es[k + 1].0,
        0 <= i < j < es.len(),
    ensures
        es[i].0 < es[j].0,
    decreases j - i,
{
    if i + 1 < j {
        lemma_adjacent_sorted(es, i + 1, j);
    }
}

} // verus!
