//! The loaded-asset registry: every element, descriptor and layout the
//! content directory yielded, plus the bookkeeping that says when loading is
//! complete. Assets are looked up by name; layouts by the level they belong
//! to.

use vstd::prelude::*;
use vstd::string::*;

use crate::chunk_assets::{ChunkDescriptor, ChunkElement, ChunkLayout, GameLevel};

verus! {

/// Whether `s` ends with `suf`.
pub open spec fn spec_ends_with(s: Seq<char>, suf: Seq<char>) -> bool {
    s.len() >= suf.len() && s.skip(s.len() - suf.len()) == suf
}

/// Suffix test on strings, character by character.
pub fn str_ends_with(s: &str, suffix: &str) -> (r: bool)
    ensures
        r == spec_ends_with(s@, suffix@),
{
    let n = s.unicode_len();
    let m = suffix.unicode_len();
    if n < m {
        return false;
    }
    let off = n - m;
    let mut j: usize = 0;
    while j < m
        invariant
            0 <= j <= m,
            m <= n,
            n == s@.len(),
            m == suffix@.len(),
            off == n - m,
            forall|k: int| 0 <= k < j ==> s@[off + k] == suffix@[k],
        decreases m - j,
    {
        if s.get_char(off + j) != suffix.get_char(j) {
            proof {
                assert(s@.skip(off as int)[j as int] == s@[off + j]);
            }
            return false;
        }
        j += 1;
    }
    proof {
        assert(s@.skip(off as int) =~= suffix@);
    }
    true
}

/// What kind of content file a path names, judged by its suffix.
#[derive(Clone, Copy, PartialEq, Eq, Structural, Debug)]
pub enum ContentFileKind {
    /// A chunk element file (`.chunk.element`).
    Element,
    /// A chunk descriptor file (`.chunk`).
    Descriptor,
    /// A level layout file (`.layout`).
    Layout,
    /// Anything else; ignored by discovery.
    Other,
}

/// Classifies a discovered content file by its suffix. The element suffix is
/// tried first, as every element path also ends in the descriptor suffix.
pub fn classify_content_path(path: &str) -> (r: ContentFileKind)
    ensures
        r is Element <==> spec_ends_with(path@, ".chunk.element"@),
        r is Descriptor <==> !spec_ends_with(path@, ".chunk.element"@) && spec_ends_with(
            path@,
            ".chunk"@,
        ),
        r is Layout <==> !spec_ends_with(path@, ".chunk.element"@) && !spec_ends_with(
            path@,
            ".chunk"@,
        ) && spec_ends_with(path@, ".layout"@),
{
    if str_ends_with(path, ".chunk.element") {
        ContentFileKind::Element
    } else if str_ends_with(path, ".chunk") {
        ContentFileKind::Descriptor
    } else if str_ends_with(path, ".layout") {
        ContentFileKind::Layout
    } else {
        ContentFileKind::Other
    }
}

/// Every asset the content directory yielded, resolved into runtime form.
/// `layout_levels` is parallel to `layout_handles`: it says which level each
/// loaded layout belongs to.
pub struct ChunkAssetStash {
    pub elements: Vec<ChunkElement>,
    pub descriptors: Vec<ChunkDescriptor>,
    pub layout_handles: Vec<ChunkLayout>,
    pub layout_levels: Vec<GameLevel>,
}

/// The first loaded descriptor with the given name, if any.
pub open spec fn spec_find_descriptor(ds: Seq<ChunkDescriptor>, name: Seq<char>) -> Option<
    ChunkDescriptor,
>
    decreases ds.len(),
{
    if ds.len() == 0 {
        None
    } else if ds[0].name@ == name {
        Some(ds[0])
    } else {
        spec_find_descriptor(ds.drop_first(), name)
    }
}

/// Looks a descriptor up by name among the loaded descriptors.
pub fn find_descriptor<'a>(ds: &'a Vec<ChunkDescriptor>, name: &String) -> (r: Option<
    &'a ChunkDescriptor,
>)
    ensures
        match r {
            Some(d) => spec_find_descriptor(ds@, name@) == Some(*d),
            None => spec_find_descriptor(ds@, name@) is None,
        },
{
    let mut i: usize = 0;
    proof {
        assert(ds@.skip(0) =~= ds@);
    }
    while i < ds.len()
        invariant
            0 <= i <= ds@.len(),
            spec_find_descriptor(ds@, name@) == spec_find_descriptor(ds@.skip(i as int), name@),
        decreases ds@.len() - i,
    {
        proof {
            assert(ds@.skip(i as int)[0] == ds@[i as int]);
            assert(ds@.skip(i as int).drop_first() =~= ds@.skip(i as int + 1));
        }
        if ds[i].name.eq(name) {
            return Some(&ds[i]);
        }
        i += 1;
    }
    proof {
        assert(ds@.skip(i as int).len() == 0);
    }
    None
}

impl ChunkAssetStash {
    /// Whether a layout was loaded for `level`.
    pub open spec fn has_layout(&self, level: GameLevel) -> bool {
        exists|i: int| 0 <= i < self.layout_levels@.len() && self.layout_levels@[i] == level
    }

    /// The stash is well-formed when the level list is parallel to the
    /// layout list.
    pub open spec fn wf(&self) -> bool {
        self.layout_levels@.len() == self.layout_handles@.len()
    }

    /// The layout loaded for the given level. A missing layout is a content
    /// defect the data model rules out, so callers must know one is there.
    pub fn layout(&self, level: &GameLevel) -> (r: &ChunkLayout)
        requires
            self.wf(),
            self.has_layout(*level),
        ensures
            exists|i: int|
                0 <= i < self.layout_levels@.len() && self.layout_levels@[i] == *level && *r
                    == self.layout_handles@[i],
    {
        let mut i: usize = 0;
        while i < self.layout_levels.len()
            invariant
                0 <= i <= self.layout_levels@.len(),
                self.wf(),
                self.has_layout(*level),
                forall|j: int| 0 <= j < i ==> self.layout_levels@[j] != *level,
            decreases self.layout_levels@.len() - i,
        {
            if self.layout_levels[i] == *level {
                return &self.layout_handles[i];
            }
            i += 1;
        }
        proof {
            assert(false);
        }
        &self.layout_handles[0]
    }
}

/// The editor's slimmer registry: elements and descriptors only, kept so that
/// their assets stay loaded while the editor runs.
pub struct AssetHandleStash {
    pub elements: Vec<ChunkElement>,
    pub descriptors: Vec<ChunkDescriptor>,
}

/// Load bookkeeping for the discovered content files: which are still
/// pending, which arrived, and which failed to parse. One file's failure
/// leaves every other file's loading untouched.
pub struct ResourceHandles {
    pub waiting: Vec<String>,
    pub finished: Vec<String>,
    pub errors: Vec<String>,
}

impl ResourceHandles {
    /// A tracker with every discovered path still pending.
    pub fn new(paths: Vec<String>) -> (r: ResourceHandles)
        ensures
            r.waiting@ == paths@,
            r.finished@.len() == 0,
            r.errors@.len() == 0,
    {
        ResourceHandles { waiting: paths, finished: Vec::new(), errors: Vec::new() }
    }

    /// Whether every discovered file has been resolved, by loading or by a
    /// reported error. Polled once per tick; consumers proceed only once
    /// this is true.
    pub fn all_loaded(&self) -> (r: bool)
        ensures
            r == (self.waiting@.len() == 0),
    {
        self.waiting.len() == 0
    }

    /// Resolves the next pending file: it either loaded or failed to parse.
    /// The failure of one file is recorded and the rest keep loading.
    pub fn resolve_next(&mut self, ok: bool)
        requires
            old(self).waiting@.len() > 0,
        ensures
            final(self).waiting@ == old(self).waiting@.drop_first(),
            ok ==> final(self).finished@ == old(self).finished@.push(old(self).waiting@[0])
                && final(self).errors@ == old(self).errors@,
            !ok ==> final(self).errors@ == old(self).errors@.push(old(self).waiting@[0])
                && final(self).finished@ == old(self).finished@,
    {
        let path = self.waiting.remove(0);
        if ok {
            self.finished.push(path);
        } else {
            self.errors.push(path);
        }
    }
}

} // verus!
