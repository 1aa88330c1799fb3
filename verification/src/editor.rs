//! Editor layout tooling: an editable buffer mirroring the layout with
//! positions held as text (so half-typed numbers never crash the editor),
//! entry add/delete with fresh-id assignment, the commit back to a layout,
//! and serialization of every loaded asset to its content file.

use vstd::prelude::*;
use vstd::string::*;

use crate::chunk_assets::{
    clone_markers, descriptor_v_ok, element_v_ok, entry_v_ok, layout_v_ok, markers_view,
    ChunkDescriptor, ChunkDescriptorAsset, ChunkElement, ChunkElementAsset, ChunkEntry,
    ChunkLayout, ChunkLayoutAsset, ChunkMarker, GameLevel, MarkerV, Wrapper,
};
use crate::codec::{
    int_string, parse_plain_int, serialize_descriptor, serialize_element, serialize_layout,
    spec_parse_plain_int, spec_print_int, spec_ser_descriptor_file, spec_ser_element_file,
    spec_ser_layout_file,
};
use crate::stash::AssetHandleStash;

verus! {

/// The level whose layout the editor is currently working on.
#[derive(Clone, Copy, PartialEq, Eq, Structural, Debug)]
pub struct SelectedLevel(pub GameLevel);

/// One layout entry as the editor holds it: the grid position as two text
/// fields, so invalid numeric input can sit in the buffer without harm.
#[derive(Debug)]
pub struct LayoutBufferEntry {
    pub pos_x: String,
    pub pos_z: String,
    pub descriptor: Wrapper<String>,
    pub components: Vec<ChunkMarker>,
}

/// Ghost view of a buffer entry.
#[verifier::ext_equal]
pub ghost struct BufferEntryV {
    pub pos_x: Seq<char>,
    pub pos_z: Seq<char>,
    pub descriptor: Seq<char>,
    pub components: Seq<MarkerV>,
}

impl View for LayoutBufferEntry {
    type V = BufferEntryV;

    open spec fn view(&self) -> BufferEntryV {
        BufferEntryV {
            pos_x: self.pos_x@,
            pos_z: self.pos_z@,
            descriptor: self.descriptor.0@,
            components: markers_view(self.components@),
        }
    }
}

/// The editor's working state: names being typed for new assets, and the
/// layout edit buffer, keyed by chunk id in increasing order.
#[derive(Debug)]
pub struct EguiActionBuffer {
    pub new_element_name: String,
    pub new_descriptor_name: String,
    pub new_layout_id: String,
    pub new_layout_pos: (String, String),
    /// Counts buffer insertions, so the editor can salt its widget ids.
    pub layout_push_counter: usize,
    pub layout_buffer: Vec<(u32, LayoutBufferEntry)>,
}

/// The view of the layout buffer.
pub open spec fn buffer_view(b: Seq<(u32, LayoutBufferEntry)>) -> Seq<(u32, BufferEntryV)> {
    Seq::new(b.len(), |i: int| (b[i].0, b[i].1@))
}

/// Buffer ids strictly increase, mirroring the sorted layout.
pub open spec fn buffer_ids_sorted(b: Seq<(u32, BufferEntryV)>) -> bool {
    forall|i: int, j: int| 0 <= i < j < b.len() ==> b[i].0 < b[j].0
}

impl EguiActionBuffer {
    /// An empty buffer with nothing typed and no entries.
    pub fn new() -> (r: EguiActionBuffer)
        ensures
            r.layout_buffer@.len() == 0,
            r.new_element_name@.len() == 0,
            r.new_descriptor_name@.len() == 0,
    {
        EguiActionBuffer {
            new_element_name: String::new(),
            new_descriptor_name: String::new(),
            new_layout_id: String::new(),
            new_layout_pos: (String::new(), String::new()),
            layout_push_counter: 0,
            layout_buffer: Vec::new(),
        }
    }
}

/// What one layout entry becomes in the buffer: its coordinates printed as
/// text, its descriptor name and markers carried over.
pub open spec fn spec_buffer_of_entry(e: crate::chunk_assets::EntryV) -> BufferEntryV {
    BufferEntryV {
        pos_x: spec_print_int(e.grid_pos.0 as int),
        pos_z: spec_print_int(e.grid_pos.1 as int),
        descriptor: e.descriptor,
        components: e.components,
    }
}

/// Builds the edit buffer from a layout: one buffer entry per layout entry,
/// in the same id order, with the grid coordinates rendered as text.
pub fn layout_buffer_from_chunks(chunks: &Vec<(u32, ChunkEntry)>) -> (r: Vec<
    (u32, LayoutBufferEntry),
>)
    ensures
        r@.len() == chunks@.len(),
        forall|i: int|
            0 <= i < r@.len() ==> (#[trigger] r@[i]).0 == chunks@[i].0 && r@[i].1@
                == spec_buffer_of_entry(chunks@[i].1@),
{
    let mut out: Vec<(u32, LayoutBufferEntry)> = Vec::new();
    let mut i: usize = 0;
    while i < chunks.len()
        invariant
            0 <= i <= chunks@.len(),
            out@.len() == i,
            forall|j: int|
                0 <= j < i ==> (#[trigger] out@[j]).0 == chunks@[j].0 && out@[j].1@
                    == spec_buffer_of_entry(chunks@[j].1@),
        decreases chunks@.len() - i,
    {
        let entry = &chunks[i].1;
        let be = LayoutBufferEntry {
            pos_x: int_string(entry.grid_pos.0 as i64),
            pos_z: int_string(entry.grid_pos.1 as i64),
            descriptor: Wrapper(entry.descriptor.0.clone()),
            components: clone_markers(&entry.components),
        };
        proof {
            assert(be@ =~= spec_buffer_of_entry(chunks@[i as int].1@));
        }
        out.push((chunks[i].0, be));
        i += 1;
    }
    out
}

/// Reloads the edit buffer from a layout, as when the selected level
/// changes; the typed names and counters are kept.
pub fn reload_layout_buffer(chunks: &Vec<(u32, ChunkEntry)>, buffer: &mut EguiActionBuffer)
    ensures
        final(buffer).layout_buffer@.len() == chunks@.len(),
        forall|i: int|
            0 <= i < chunks@.len() ==> (#[trigger] final(buffer).layout_buffer@[i]).0
                == chunks@[i].0 && final(buffer).layout_buffer@[i].1@ == spec_buffer_of_entry(
                chunks@[i].1@,
            ),
        final(buffer).new_element_name == old(buffer).new_element_name,
        final(buffer).new_descriptor_name == old(buffer).new_descriptor_name,
        final(buffer).layout_push_counter == old(buffer).layout_push_counter,
{
    buffer.layout_buffer = layout_buffer_from_chunks(chunks);
}

/// The committed form of the buffer: entries whose two position fields both
/// parse as 32-bit integers, with the parsed grid cell; the rest are
/// silently dropped, as the editor has always done.
pub open spec fn spec_commit(b: Seq<(u32, BufferEntryV)>) -> Seq<
    (u32, crate::chunk_assets::EntryV),
>
    decreases b.len(),
{
    if b.len() == 0 {
        Seq::empty()
    } else {
        let rest = spec_commit(b.drop_last());
        let e = b.last();
        match (spec_parse_plain_int(e.1.pos_x), spec_parse_plain_int(e.1.pos_z)) {
            (Some(x), Some(z)) => if i32::MIN <= x <= i32::MAX && i32::MIN <= z <= i32::MAX {
                rest.push(
                    (
                        e.0,
                        crate::chunk_assets::EntryV {
                            grid_pos: (x as i32, z as i32),
                            descriptor: e.1.descriptor,
                            components: e.1.components,
                        },
                    ),
                )
            } else {
                rest
            },
            _ => rest,
        }
    }
}

/// Commits the edit buffer back into the layout: every entry whose position
/// fields parse becomes a layout entry at the parsed grid cell; entries
/// with malformed positions are dropped from the committed layout without
/// an error.
#[verifier::loop_isolation(false)]
pub fn sync_layout_buffer(buffer: &EguiActionBuffer, layout: &mut ChunkLayout)
    ensures
        final(layout)@.chunks == spec_commit(buffer_view(buffer.layout_buffer@)),
{
    let ghost bv = buffer_view(buffer.layout_buffer@);
    let mut chunks: Vec<(u32, ChunkEntry)> = Vec::new();
    proof {
        assert(bv.take(0) =~= Seq::<(u32, BufferEntryV)>::empty());
        assert(Seq::new(chunks@.len(), |k: int| (chunks@[k].0, chunks@[k].1@)) =~= spec_commit(
            bv.take(0),
        ));
    }
    let mut i: usize = 0;
    while i < buffer.layout_buffer.len()
        invariant
            0 <= i <= buffer.layout_buffer@.len(),
            bv.len() == buffer.layout_buffer@.len(),
            Seq::new(chunks@.len(), |k: int| (chunks@[k].0, chunks@[k].1@)) == spec_commit(
                bv.take(i as int),
            ),
        decreases buffer.layout_buffer@.len() - i,
    {
        proof {
            assert(bv.take(i as int + 1).drop_last() =~= bv.take(i as int));
            assert(bv.take(i as int + 1).last() == bv[i as int]);
            assert(bv[i as int] == (
                buffer.layout_buffer@[i as int].0,
                buffer.layout_buffer@[i as int].1@,
            ));
        }
        let ghost before = Seq::new(chunks@.len(), |k: int| (chunks@[k].0, chunks@[k].1@));
        let be = &buffer.layout_buffer[i].1;
        let x = parse_plain_int(be.pos_x.as_str(), i32::MIN as i64, i32::MAX as i64);
        let z = parse_plain_int(be.pos_z.as_str(), i32::MIN as i64, i32::MAX as i64);
        match (x, z) {
            (Some(xv), Some(zv)) => {
                let entry = ChunkEntry {
                    grid_pos: (xv as i32, zv as i32),
                    descriptor: Wrapper(be.descriptor.0.clone()),
                    components: clone_markers(&be.components),
                };
                let ghost ev = entry@;
                chunks.push((buffer.layout_buffer[i].0, entry));
                proof {
                    assert(Seq::new(chunks@.len(), |k: int| (chunks@[k].0, chunks@[k].1@))
                        =~= before.push((buffer.layout_buffer@[i as int].0, ev)));
                    assert(ev =~= (crate::chunk_assets::EntryV {
                        grid_pos: (xv as i32, zv as i32),
                        descriptor: bv[i as int].1.descriptor,
                        components: bv[i as int].1.components,
                    }));
                }
            },
            _ => {},
        }
        proof {
            assert(Seq::new(chunks@.len(), |k: int| (chunks@[k].0, chunks@[k].1@)) =~= spec_commit(
                bv.take(i as int + 1),
            ));
        }
        i += 1;
    }
    proof {
        assert(bv.take(buffer.layout_buffer@.len() as int) =~= bv);
    }
    layout.chunks = chunks;
    proof {
        assert(final(layout)@.chunks =~= spec_commit(bv));
    }
}

} // verus!

verus! {

/// Whether some buffer entry carries the id.
pub open spec fn spec_has_id(b: Seq<(u32, BufferEntryV)>, id: u32) -> bool {
    exists|i: int| 0 <= i < b.len() && b[i].0 == id
}

/// The blank entry a freshly added chunk starts as: empty position text,
/// no descriptor, no markers.
pub open spec fn spec_blank_buffer_entry() -> BufferEntryV {
    BufferEntryV {
        pos_x: Seq::empty(),
        pos_z: Seq::empty(),
        descriptor: Seq::empty(),
        components: Seq::empty(),
    }
}

/// Adds a blank entry to the layout buffer under the lowest unused chunk
/// id, keeping the buffer sorted; the insertion counter advances so widget
/// ids stay distinct.
#[verifier::loop_isolation(false)]
#[verifier::rlimit(60)]
pub fn add_layout_entry(buffer: &mut EguiActionBuffer)
    requires
        buffer_ids_sorted(buffer_view(old(buffer).layout_buffer@)),
        old(buffer).layout_buffer@.len() < u32::MAX,
        old(buffer).layout_push_counter < usize::MAX,
    ensures
        ({
            let b0 = buffer_view(old(buffer).layout_buffer@);
            let b1 = buffer_view(final(buffer).layout_buffer@);
            &&& b1.len() == b0.len() + 1
            &&& exists|p: int|
                0 <= p < b1.len() && ({
                    let id = (#[trigger] b1[p]).0;
                    &&& b1 =~= b0.insert(p, b1[p])
                    &&& b1[p].1 == spec_blank_buffer_entry()
                    &&& !spec_has_id(b0, id)
                    &&& forall|jd: u32| jd < id ==> spec_has_id(b0, jd)
                })
            &&& buffer_ids_sorted(b1)
        }),
        final(buffer).layout_push_counter == old(buffer).layout_push_counter + 1,
{
    let ghost b0 = buffer_view(buffer.layout_buffer@);
    let n = buffer.layout_buffer.len();
    let mut i: usize = 0;
    while i < n && buffer.layout_buffer[i].0 == i as u32
        invariant
            0 <= i <= n,
            n == buffer.layout_buffer@.len(),
            buffer.layout_buffer@ == old(buffer).layout_buffer@,
            forall|k: int| 0 <= k < i ==> (#[trigger] b0[k]).0 == k as u32,
        decreases n - i,
    {
        i += 1;
    }
    proof {
        if i < n {
            assert(b0[i as int].0 == buffer.layout_buffer@[i as int].0);
            assert(b0[i as int].0 != i as u32);
            if i > 0 {
                assert(b0[i as int - 1].0 == (i - 1) as u32);
                assert(b0[i as int - 1].0 < b0[i as int].0);
            }
            assert(b0[i as int].0 > i as u32);
        }
        assert forall|t: int| 0 <= t < b0.len() implies (#[trigger] b0[t]).0 != i as u32 by {
            if t < i {
                assert(b0[t].0 == t as u32);
            } else if i < n {
                if t > i {
                    assert(b0[i as int].0 < b0[t].0);
                }
            }
        }
        assert(!spec_has_id(b0, i as u32));
        assert forall|jd: u32| jd < i as u32 implies spec_has_id(b0, jd) by {
            assert(b0[jd as int].0 == jd);
        }
    }
    let blank = LayoutBufferEntry {
        pos_x: String::new(),
        pos_z: String::new(),
        descriptor: Wrapper(String::new()),
        components: Vec::new(),
    };
    proof {
        assert(blank@ =~= spec_blank_buffer_entry());
    }
    buffer.layout_buffer.insert(i, (i as u32, blank));
    buffer.layout_push_counter = buffer.layout_push_counter + 1;
    proof {
        let b1 = buffer_view(buffer.layout_buffer@);
        assert(b1 =~= b0.insert(i as int, b1[i as int]));
        assert(b1[i as int].0 == i as u32 && b1[i as int].1 =~= spec_blank_buffer_entry());
        assert forall|a: int, b: int| 0 <= a < b < b1.len() implies b1[a].0 < b1[b].0 by {
            if b < i {
                assert(b1[a] == b0[a] && b1[b] == b0[b]);
            } else if a > i {
                assert(b1[a] == b0[a - 1] && b1[b] == b0[b - 1]);
            } else if a < i && b == i {
                assert(b1[a] == b0[a] && b0[a].0 == a as u32);
            } else if a < i && b > i {
                assert(b1[a] == b0[a] && b1[b] == b0[b - 1]);
                if b - 1 == i {
                    assert(b0[i as int].0 > i as u32);
                    assert(b1[a].0 == a as u32);
                } else {
                    assert(b0[i as int].0 < b0[b - 1].0);
                    assert(b1[a].0 == a as u32);
                    assert(b0[i as int].0 > i as u32 || i == n);
                    if i < n {
                    } else {
                        assert(false);
                    }
                }
            } else if a == i && b > i {
                assert(b1[b] == b0[b - 1]);
                if b - 1 == i {
                    assert(b0[i as int].0 > i as u32);
                } else {
                    assert(b0[i as int].0 < b0[b - 1].0);
                    assert(b0[i as int].0 > i as u32);
                }
            }
        }
    }
}

/// Deletes the buffer entry carrying the given id; a miss changes nothing.
#[verifier::loop_isolation(false)]
pub fn delete_layout_entry(buffer: &mut EguiActionBuffer, id: u32)
    ensures
        ({
            let b0 = buffer_view(old(buffer).layout_buffer@);
            let b1 = buffer_view(final(buffer).layout_buffer@);
            if spec_has_id(b0, id) {
                exists|p: int|
                    0 <= p < b0.len() && (#[trigger] b0[p]).0 == id && b1 =~= b0.remove(p) && (
                    forall|j: int| 0 <= j < p ==> (#[trigger] b0[j]).0 != id)
            } else {
                b1 =~= b0
            }
        }),
{
    let ghost b0 = buffer_view(buffer.layout_buffer@);
    let mut i: usize = 0;
    while i < buffer.layout_buffer.len()
        invariant
            0 <= i <= buffer.layout_buffer@.len(),
            buffer.layout_buffer@ == old(buffer).layout_buffer@,
            forall|j: int| 0 <= j < i ==> (#[trigger] b0[j]).0 != id,
        decreases buffer.layout_buffer@.len() - i,
    {
        if buffer.layout_buffer[i].0 == id {
            proof {
                assert(b0[i as int].0 == id);
                assert(spec_has_id(b0, id));
            }
            buffer.layout_buffer.remove(i);
            proof {
                assert(buffer_view(final(buffer).layout_buffer@) =~= b0.remove(i as int));
            }
            return ;
        }
        i += 1;
    }
    proof {
        assert(!spec_has_id(b0, id));
        assert(buffer_view(final(buffer).layout_buffer@) =~= b0);
    }
}

/// Creates a chunk element under the typed name and registers it, unless
/// the name is empty — an empty name is rejected and nothing changes.
pub fn create_element(stash: &mut AssetHandleStash, name: &String) -> (created: bool)
    ensures
        name@.len() == 0 ==> !created && final(stash).elements@ == old(stash).elements@,
        name@.len() > 0 ==> created && ({
            &&& final(stash).elements@.len() == old(stash).elements@.len() + 1
            &&& final(stash).elements@.drop_last() == old(stash).elements@
            &&& (final(stash).elements@.last())@.name == name@
        }),
        final(stash).descriptors@ == old(stash).descriptors@,
{
    if name.as_str().unicode_len() == 0 {
        return false;
    }
    stash.elements.push(ChunkElement::new(name.clone()));
    proof {
        assert(final(stash).elements@.drop_last() =~= old(stash).elements@);
    }
    true
}

/// Creates a chunk descriptor under the typed name and registers it, unless
/// the name is empty — an empty name is rejected and nothing changes.
pub fn create_descriptor(stash: &mut AssetHandleStash, name: &String) -> (created: bool)
    ensures
        name@.len() == 0 ==> !created && final(stash).descriptors@ == old(stash).descriptors@,
        name@.len() > 0 ==> created && ({
            &&& final(stash).descriptors@.len() == old(stash).descriptors@.len() + 1
            &&& final(stash).descriptors@.drop_last() == old(stash).descriptors@
            &&& (final(stash).descriptors@.last())@.name == name@
            &&& (final(stash).descriptors@.last())@.elements.len() == 0
        }),
        final(stash).elements@ == old(stash).elements@,
{
    if name.as_str().unicode_len() == 0 {
        return false;
    }
    stash.descriptors.push(ChunkDescriptor::new(name.clone()));
    proof {
        assert(final(stash).descriptors@.drop_last() =~= old(stash).descriptors@);
    }
    true
}

} // verus!

verus! {

/// Every name kept by a filter was among the originals, so a filter of
/// valid names is valid throughout.
pub proof fn lemma_filter_names_valid(
    ns: Seq<Seq<char>>,
    p: spec_fn(Seq<char>) -> bool,
)
    requires
        forall|i: int| 0 <= i < ns.len() ==> crate::chunk_assets::valid_name(#[trigger] ns[i]),
    ensures
        forall|i: int|
            0 <= i < ns.filter(p).len() ==> crate::chunk_assets::valid_name(
                #[trigger] ns.filter(p)[i],
            ),
        ns.filter(p).len() <= ns.len(),
    decreases ns.len(),
{
    reveal_with_fuel(Seq::filter, 2);
    if ns.len() > 0 {
        let rest = ns.drop_last();
        assert(forall|i: int|
            0 <= i < rest.len() ==> crate::chunk_assets::valid_name(#[trigger] rest[i]));
        lemma_filter_names_valid(rest, p);
        if p(ns.last()) {
            assert(ns.filter(p) == rest.filter(p).push(ns.last()));
        } else {
            assert(ns.filter(p) == rest.filter(p));
        }
    }
}

/// Serializes every loaded element, every loaded descriptor and the
/// selected level's layout to its canonical content path, in that order:
/// one `(path, text)` pair per file. Callers clear the previous element and
/// descriptor files first, so renamed assets leave no stale files behind.
#[verifier::loop_isolation(false)]
#[verifier::rlimit(60)]
pub fn save_all_to_content_files(
    elements: &Vec<ChunkElement>,
    descriptors: &Vec<ChunkDescriptor>,
    layout: &ChunkLayout,
    level: &GameLevel,
) -> (r: Vec<(String, String)>)
    requires
        forall|i: int| 0 <= i < elements@.len() ==> element_v_ok((#[trigger] elements@[i])@),
        forall|i: int|
            0 <= i < descriptors@.len() ==> descriptor_v_ok((#[trigger] descriptors@[i])@),
        layout_v_ok(layout@),
    ensures
        r@.len() == elements@.len() + descriptors@.len() + 1,
        forall|i: int|
            0 <= i < elements@.len() ==> ((#[trigger] r@[i]).0@
                == crate::chunk_assets::spec_element_path(elements@[i]@.name) && r@[i].1@
                == spec_ser_element_file(elements@[i]@)),
        forall|i: int|
            0 <= i < descriptors@.len() ==> ((#[trigger] r@[elements@.len() + i]).0@
                == crate::chunk_assets::spec_descriptor_path(descriptors@[i]@.name) && (r@[elements@.len() + i]).1@ == spec_ser_descriptor_file(
                crate::chunk_assets::DescriptorV {
                    name: descriptors@[i]@.name,
                    elements: descriptors@[i]@.elements.filter(
                        |n: Seq<char>| crate::chunk_assets::spec_find_element(elements@, n)
                            is Some,
                    ),
                },
            )),
        (r@.last()).1@ == spec_ser_layout_file(layout@),
{
    let mut out: Vec<(String, String)> = Vec::new();
    let mut i: usize = 0;
    while i < elements.len()
        invariant
            0 <= i <= elements@.len(),
            out@.len() == i,
            forall|j: int|
                0 <= j < i ==> ((#[trigger] out@[j]).0@ == crate::chunk_assets::spec_element_path(
                    elements@[j]@.name,
                ) && out@[j].1@ == spec_ser_element_file(elements@[j]@)),
        decreases elements@.len() - i,
    {
        let asset = ChunkElementAsset::from_element(&elements[i]);
        let path = asset.path();
        let text = serialize_element(&asset);
        out.push((path, text));
        i += 1;
    }
    let mut j: usize = 0;
    while j < descriptors.len()
        invariant
            0 <= j <= descriptors@.len(),
            out@.len() == elements@.len() + j,
            forall|k: int|
                0 <= k < elements@.len() ==> ((#[trigger] out@[k]).0@
                    == crate::chunk_assets::spec_element_path(elements@[k]@.name) && out@[k].1@
                    == spec_ser_element_file(elements@[k]@)),
            forall|k: int|
                0 <= k < j ==> ((#[trigger] out@[elements@.len() + k]).0@
                    == crate::chunk_assets::spec_descriptor_path(descriptors@[k]@.name) && (out@[elements@.len() + k]).1@ == spec_ser_descriptor_file(
                    crate::chunk_assets::DescriptorV {
                        name: descriptors@[k]@.name,
                        elements: descriptors@[k]@.elements.filter(
                            |n: Seq<char>| crate::chunk_assets::spec_find_element(elements@, n)
                                is Some,
                        ),
                    },
                )),
        decreases descriptors@.len() - j,
    {
        let asset = ChunkDescriptorAsset::from_descriptor(&descriptors[j], elements);
        proof {
            lemma_filter_names_valid(
                descriptors@[j as int]@.elements,
                |n: Seq<char>| crate::chunk_assets::spec_find_element(elements@, n) is Some,
            );
            assert(descriptor_v_ok(asset@));
        }
        let path = asset.path();
        let text = serialize_descriptor(&asset);
        out.push((path, text));
        j += 1;
    }
    let layout_asset = ChunkLayoutAsset::from_layout(layout);
    let layout_path = ChunkLayoutAsset::path_for_level(level);
    let layout_text = serialize_layout(&layout_asset);
    out.push((layout_path, layout_text));
    out
}

} // verus!

verus! {

/// What the editor viewport currently previews: nothing, one descriptor
/// spawned alone at the origin, or the whole selected layout.
#[derive(Clone, Debug)]
pub enum EditorPreview {
    Inactive,
    Descriptor(Wrapper<String>),
    Layout,
}

} // verus!

verus! {

/// Loading a layout into the edit buffer and committing the buffer straight
/// back yields the layout unchanged: the position text the buffer renders
/// for each entry parses back to the grid cell it came from, and no entry
/// is dropped.
pub proof fn lemma_buffer_commit_identity(entries: Seq<(u32, crate::chunk_assets::EntryV)>)
    ensures
        spec_commit(
            Seq::new(
                entries.len(),
                |i: int| (entries[i].0, spec_buffer_of_entry(entries[i].1)),
            ),
        ) == entries,
    decreases entries.len(),
{
    let b = Seq::new(entries.len(), |i: int| (entries[i].0, spec_buffer_of_entry(entries[i].1)));
    if entries.len() == 0 {
        assert(spec_commit(b) =~= entries);
    } else {
        let rest = entries.drop_last();
        let brest = Seq::new(rest.len(), |i: int| (rest[i].0, spec_buffer_of_entry(rest[i].1)));
        assert(b.drop_last() =~= brest);
        lemma_buffer_commit_identity(rest);
        let e = entries.last();
        assert(b.last() == (e.0, spec_buffer_of_entry(e.1)));
        crate::codec::lemma_plain_int_round_trip(e.1.grid_pos.0 as int);
        crate::codec::lemma_plain_int_round_trip(e.1.grid_pos.1 as int);
        assert(e.1 == (crate::chunk_assets::EntryV {
            grid_pos: (e.1.grid_pos.0, e.1.grid_pos.1),
            descriptor: e.1.descriptor,
            components: e.1.components,
        }));
        assert(spec_commit(b) =~= rest.push(e));
        assert(rest.push(e) =~= entries);
    }
}

} // verus!

verus! {

/// Rebuilds the editor's viewport preview: the previous preview chunk —
/// it always carries id zero — is despawned; then, when a descriptor is
/// selected and at least one of its elements is loaded, that descriptor is
/// spawned alone at the origin under id zero. A selection whose elements
/// are all still loading previews nothing yet.
#[verifier::rlimit(60)]
pub fn update_descriptor_preview(
    world: &mut crate::chunk::ChunkWorld,
    descriptors: &Vec<ChunkDescriptor>,
    elements: &Vec<ChunkElement>,
    preview: &EditorPreview,
)
    requires
        crate::chunk::elements_ok(elements@),
    ensures
        ({
            let cleared = crate::chunk::spec_despawn(old(world).chunks@, 0);
            match preview {
                EditorPreview::Descriptor(name) => match crate::stash::spec_find_descriptor(
                    descriptors@,
                    name.0@,
                ) {
                    Some(d) => if crate::chunk::spec_resolved_elements(
                        elements@,
                        d@.elements,
                    ).len() > 0 {
                        &&& final(world).chunks@.len() == cleared.len() + 1
                        &&& final(world).chunks@.drop_last() == cleared
                        &&& crate::chunk::spec_chunk_spawned(
                            final(world).chunks@.last(),
                            d,
                            elements@,
                            crate::chunk::ChunkId(0),
                            (0, 0),
                            Seq::empty(),
                        )
                    } else {
                        final(world).chunks@ == cleared
                    },
                    None => final(world).chunks@ == cleared,
                },
                _ => final(world).chunks@ == cleared,
            }
        }),
{
    crate::chunk::on_despawn_chunk(world, &crate::chunk::DespawnChunk(crate::chunk::ChunkId(0)));
    let name = match preview {
        EditorPreview::Descriptor(name) => name,
        _ => {
            return ;
        },
    };
    let d = match crate::stash::find_descriptor(descriptors, &name.0) {
        Some(d) => d,
        None => {
            return ;
        },
    };
    let mut resolved: usize = 0;
    let mut i: usize = 0;
    proof {
        assert(d@.elements.take(0) =~= Seq::<Seq<char>>::empty());
    }
    while i < d.elements.len()
        invariant
            0 <= i <= d.elements@.len(),
            d@.elements.len() == d.elements@.len(),
            resolved == crate::chunk::spec_resolved_elements(
                elements@,
                d@.elements.take(i as int),
            ).len(),
            resolved <= i,
        decreases d.elements@.len() - i,
    {
        proof {
            assert(d@.elements.take(i as int + 1).drop_last() =~= d@.elements.take(i as int));
            assert(d@.elements.take(i as int + 1).last() == d@.elements[i as int]);
            assert(d@.elements[i as int] == d.elements@[i as int].0@);
        }
        if crate::chunk_assets::find_element(elements, &d.elements[i].0).is_some() {
            resolved = resolved + 1;
        }
        i += 1;
    }
    proof {
        assert(d@.elements.take(d@.elements.len() as int) =~= d@.elements);
    }
    if resolved == 0 {
        return ;
    }
    let event = crate::chunk::SpawnChunk {
        id: crate::chunk::ChunkId(0),
        grid_position: (0, 0),
        descriptor: name.0.clone(),
        components: Vec::new(),
    };
    proof {
        assert(markers_view(event.components@) =~= Seq::<MarkerV>::empty());
    }
    crate::chunk::on_spawn_chunk(world, descriptors, elements, &event);
}

} // verus!
