//! The texture-set asset: named image sources, a tree of named tiles, and
//! the resolver that turns a tile path plus per-entity runtime state into a
//! concrete atlas index.
//!
//! A tile path is a `/`-separated string. Resolution walks the tile tree
//! through `Group` nodes and never fails: any miss (unknown path, unknown
//! variant, empty animation) falls back to the built-in default source name
//! `"_default"`, which always resolves to index 0 of the fallback atlas.
use vstd::prelude::*;

use crate::dict::Dict;

verus! {

broadcast use vstd::std_specs::vec::group_vec_axioms;

/// A reference from a tile to a declared source: either a cell of a grid
/// source, addressed by a 1-based `(column, row)` pair, or a plain source.
pub enum SourceLink {
    Atlas { source: String, index: (u32, u32) },
    Texture { source: String },
}

/// The mathematical value of a [`SourceLink`]: the same data with the name
/// as a sequence of characters.
pub enum LinkV {
    Atlas { source: Seq<char>, index: (u32, u32) },
    Texture { source: Seq<char> },
}

/// The value a [`SourceLink`] denotes.
pub open spec fn link_v(l: SourceLink) -> LinkV {
    match l {
        SourceLink::Atlas { source, index } => LinkV::Atlas { source: source@, index },
        SourceLink::Texture { source } => LinkV::Texture { source: source@ },
    }
}

/// The reserved source name that every miss resolves to.
pub open spec fn sentinel() -> Seq<char> {
    "_default"@
}

/// The fallback link: a plain reference to the sentinel source.
pub open spec fn default_link_v() -> LinkV {
    LinkV::Texture { source: sentinel() }
}

/// Build the fallback link.
pub fn default_link() -> (r: SourceLink)
    ensures
        link_v(r) == default_link_v(),
{
    SourceLink::Texture { source: String::from_str("_default") }
}

/// A node of the tile tree.
pub enum Tile {
    /// Appearance selected by a frame counter, modulo the frame count.
    Animated { frames: Vec<SourceLink>, speed: u32 },
    /// One fixed appearance.
    Single(SourceLink),
    /// Appearance selected by a runtime-chosen key.
    Variant { variants: Dict<SourceLink> },
    /// A namespace: paths route through it, it is never itself renderable.
    Group(Dict<Tile>),
}

/// A map of named tiles, as both document sections hold one.
pub type TileGroup = Dict<Tile>;

/// Well-formed tile: every map in it has unique names.
pub open spec fn tile_wf(t: Tile) -> bool
    decreases t,
{
    match t {
        Tile::Animated { frames, speed } => true,
        Tile::Single(l) => true,
        Tile::Variant { variants } => variants.wf(),
        Tile::Group(g) => g.wf() && forall|i: int|
            0 <= i < g.pairs@.len() ==> tile_wf(#[trigger] g.pairs@[i].1),
    }
}

/// Well-formed tile tree.
pub open spec fn group_wf(g: TileGroup) -> bool {
    tile_wf(Tile::Group(g))
}

/// Structural equivalence of links, by their values.
pub open spec fn link_like(a: SourceLink, b: SourceLink) -> bool {
    link_v(a) == link_v(b)
}

/// Structural equivalence of tiles: the same shape, names and links.
pub open spec fn tile_like(a: Tile, b: Tile) -> bool
    decreases a,
{
    match (a, b) {
        (
            Tile::Animated { frames: fa, speed: sa },
            Tile::Animated { frames: fb, speed: sb },
        ) => sa == sb && fa@.len() == fb@.len() && forall|i: int|
            0 <= i < fa@.len() ==> link_like(#[trigger] fa@[i], fb@[i]),
        (Tile::Single(la), Tile::Single(lb)) => link_like(la, lb),
        (Tile::Variant { variants: va }, Tile::Variant { variants: vb }) => va.keys()
            == vb.keys() && va.spec_len() == vb.spec_len() && forall|i: int|
            0 <= i < va.spec_len() ==> link_like(#[trigger] va.vals()[i], vb.vals()[i]),
        (Tile::Group(ga), Tile::Group(gb)) => ga.keys() == gb.keys() && ga.spec_len()
            == gb.spec_len() && forall|i: int|
            0 <= i < ga.pairs@.len() ==> tile_like(#[trigger] ga.pairs@[i].1, gb.pairs@[i].1),
        _ => false,
    }
}

/// Split a path on `/`: always at least one segment, possibly empty ones.
pub open spec fn split_path(p: Seq<char>) -> Seq<Seq<char>>
    decreases p.len(),
{
    if p.len() == 0 {
        seq![Seq::<char>::empty()]
    } else if p[0] == '/' {
        seq![Seq::<char>::empty()] + split_path(p.skip(1))
    } else {
        let r = split_path(p.skip(1));
        seq![seq![p[0]] + r[0]] + r.skip(1)
    }
}

pub proof fn lemma_split_len(p: Seq<char>)
    ensures
        split_path(p).len() >= 1,
    decreases p.len(),
{
    if p.len() > 0 {
        lemma_split_len(p.skip(1));
    }
}

/// A path with no separator is one segment.
pub proof fn lemma_split_whole(p: Seq<char>)
    requires
        forall|j: int| 0 <= j < p.len() ==> p[j] != '/',
    ensures
        split_path(p) == seq![p],
    decreases p.len(),
{
    if p.len() > 0 {
        lemma_split_whole(p.skip(1));
        lemma_split_len(p.skip(1));
        assert(seq![p[0]] + p.skip(1) =~= p);
        assert(split_path(p) =~= seq![p]);
    } else {
        assert(p =~= Seq::<char>::empty());
        assert(split_path(p) =~= seq![p]);
    }
}

/// Splitting at the first separator peels off the first segment.
pub proof fn lemma_split_at(p: Seq<char>, k: int)
    requires
        0 <= k < p.len(),
        p[k] == '/',
        forall|j: int| 0 <= j < k ==> p[j] != '/',
    ensures
        split_path(p) == seq![p.take(k)] + split_path(p.skip(k + 1)),
    decreases k,
{
    lemma_split_len(p.skip(1));
    if k == 0 {
        assert(p.take(0) =~= Seq::<char>::empty());
        assert(split_path(p) =~= seq![p.take(0)] + split_path(p.skip(1)));
    } else {
        lemma_split_at(p.skip(1), k - 1);
        let r = split_path(p.skip(1));
        assert(p.skip(1).take(k - 1) =~= p.subrange(1, k));
        assert(r[0] == p.subrange(1, k));
        assert(seq![p[0]] + p.subrange(1, k) =~= p.take(k));
        assert(p.skip(1).skip(k) =~= p.skip(k + 1));
        assert(r.skip(1) =~= split_path(p.skip(k + 1)));
        assert(split_path(p) =~= seq![p.take(k)] + split_path(p.skip(k + 1)));
    }
}

/// Walk the remaining path segments from a node: a `Group` descends by
/// name and misses on an unknown name; any other node stands, and the
/// remaining segments are ignored.
pub open spec fn walk_from(t: Tile, segs: Seq<Seq<char>>) -> Option<Tile>
    decreases segs.len(),
{
    if segs.len() == 0 {
        Some(t)
    } else {
        match t {
            Tile::Group(g) => if g.contents().contains_key(segs[0]) {
                walk_from(g.contents()[segs[0]], segs.skip(1))
            } else {
                None
            },
            _ => walk_from(t, segs.skip(1)),
        }
    }
}

/// Look a path up in a tile tree: the first segment indexes the tree, the
/// rest walk through groups.
pub open spec fn find_tile(g: TileGroup, path: Seq<char>) -> Option<Tile> {
    let segs = split_path(path);
    if g.contents().contains_key(segs[0]) {
        walk_from(g.contents()[segs[0]], segs.skip(1))
    } else {
        None
    }
}

/// Split a tile path on `/` into its segments.
pub fn split_path_exec(path: &str) -> (r: Vec<String>)
    ensures
        r@.map_values(|s: String| s@) == split_path(path@),
        r@.len() >= 1,
{
    let n = path.unicode_len();
    let mut segs: Vec<String> = Vec::new();
    let mut start: usize = 0;
    let mut i: usize = 0;
    proof {
        assert(path@.skip(0) =~= path@);
        assert(segs@.map_values(|s: String| s@) + split_path(path@) =~= split_path(path@));
    }
    while i < n
        invariant
            start <= i <= n,
            n == path@.len(),
            forall|j: int| start <= j < i ==> path@[j] != '/',
            split_path(path@) == segs@.map_values(|s: String| s@) + split_path(
                path@.skip(start as int),
            ),
        decreases n - i,
    {
        if path.get_char(i) == '/' {
            let seg = path.substring_char(start, i);
            let ghost before = segs@;
            segs.push(String::from_str(seg));
            proof {
                let p = path@.skip(start as int);
                lemma_split_at(p, i - start);
                assert(p.take(i - start) =~= path@.subrange(start as int, i as int));
                assert(p.skip(i - start + 1) =~= path@.skip(i + 1));
                assert(segs@.map_values(|s: String| s@) =~= before.map_values(|s: String| s@).push(
                    path@.subrange(start as int, i as int),
                ));
                assert(segs@.map_values(|s: String| s@) + split_path(path@.skip(i + 1))
                    =~= before.map_values(|s: String| s@) + (seq![
                    path@.subrange(start as int, i as int),
                ] + split_path(path@.skip(i + 1))));
            }
            start = i + 1;
        }
        i = i + 1;
    }
    let last = path.substring_char(start, n);
    let ghost before = segs@;
    segs.push(String::from_str(last));
    proof {
        let p = path@.skip(start as int);
        lemma_split_whole(p);
        assert(p =~= path@.subrange(start as int, n as int));
        assert(segs@.map_values(|s: String| s@) =~= before.map_values(|s: String| s@).push(p));
        assert(segs@.map_values(|s: String| s@) =~= split_path(path@));
    }
    segs
}

/// Copy a link.
pub fn dup_link(l: &SourceLink) -> (r: SourceLink)
    ensures
        link_v(r) == link_v(*l),
{
    match l {
        SourceLink::Atlas { source, index } => SourceLink::Atlas {
            source: source.clone(),
            index: (index.0, index.1),
        },
        SourceLink::Texture { source } => SourceLink::Texture { source: source.clone() },
    }
}

/// Copy a tile tree node.
pub fn dup_tile(t: &Tile) -> (r: Tile)
    requires
        tile_wf(*t),
    ensures
        tile_like(r, *t),
        tile_wf(r),
    decreases *t,
{
    match t {
        Tile::Animated { frames, speed } => {
            let mut fs: Vec<SourceLink> = Vec::new();
            let n = frames.len();
            let mut i: usize = 0;
            while i < n
                invariant
                    i <= n,
                    n == frames@.len(),
                    fs@.len() == i,
                    forall|j: int| 0 <= j < i ==> link_like(#[trigger] fs@[j], frames@[j]),
                decreases n - i,
            {
                fs.push(dup_link(&frames[i]));
                i = i + 1;
            }
            Tile::Animated { frames: fs, speed: *speed }
        },
        Tile::Single(l) => Tile::Single(dup_link(l)),
        Tile::Variant { variants } => {
            let mut d: Dict<SourceLink> = Dict::new();
            let n = variants.len();
            let mut i: usize = 0;
            while i < n
                invariant
                    i <= n,
                    n == variants.spec_len(),
                    variants.wf(),
                    d.wf(),
                    d.keys() =~= variants.keys().take(i as int),
                    d.spec_len() == i,
                    forall|j: int| 0 <= j < i ==> link_like(#[trigger] d.vals()[j], variants.vals()[j]),
                decreases n - i,
            {
                let pair = variants.pair_at(i);
                let nm = pair.0.clone();
                let lv = dup_link(&pair.1);
                proof {
                    d.lemma_domain(nm@);
                    variants.lemma_views();
                    if d.contents().contains_key(nm@) {
                        let j = choose|j: int| 0 <= j < d.spec_len() && d.keys()[j] == nm@;
                        assert(variants.pairs@[j].0@ == variants.pairs@[i as int].0@);
                    }
                }
                d.insert(nm, lv);
                proof {
                    assert(d.keys() =~= variants.keys().take(i + 1));
                }
                i = i + 1;
            }
            proof {
                assert(d.keys() =~= variants.keys());
            }
            Tile::Variant { variants: d }
        },
        Tile::Group(g) => {
            let mut d: Dict<Tile> = Dict::new();
            let n = g.len();
            let mut i: usize = 0;
            while i < n
                invariant
                    i <= n,
                    n == g.spec_len(),
                    tile_wf(Tile::Group(*g)),
                    d.wf(),
                    d.keys() =~= g.keys().take(i as int),
                    d.spec_len() == i,
                    forall|j: int|
                        0 <= j < i ==> tile_like(#[trigger] d.vals()[j], g.vals()[j]) && tile_wf(
                            d.vals()[j],
                        ),
                decreases n - i,
            {
                let pair = g.pair_at(i);
                let nm = pair.0.clone();
                proof {
                    g.lemma_views();
                    assert(pair.1 == g.pairs@[i as int].1);
                    assert(tile_wf(g.pairs@[i as int].1));
                }
                let tv = dup_tile(&pair.1);
                proof {
                    d.lemma_domain(nm@);
                    if d.contents().contains_key(nm@) {
                        let j = choose|j: int| 0 <= j < d.spec_len() && d.keys()[j] == nm@;
                        assert(g.pairs@[j].0@ == g.pairs@[i as int].0@);
                    }
                }
                d.insert(nm, tv);
                proof {
                    assert(d.keys() =~= g.keys().take(i + 1));
                }
                i = i + 1;
            }
            proof {
                d.lemma_views();
                g.lemma_views();
                assert(d.keys() =~= g.keys());
                assert forall|j: int|
                    0 <= j < d.pairs@.len() implies tile_like(
                    #[trigger] d.pairs@[j].1,
                    g.pairs@[j].1,
                ) && tile_wf(d.pairs@[j].1) by {
                    assert(d.vals()[j] == d.pairs@[j].1);
                    assert(g.vals()[j] == g.pairs@[j].1);
                    assert(tile_like(d.vals()[j], g.vals()[j]));
                    assert(tile_wf(d.vals()[j]));
                }
            }
            Tile::Group(d)
        },
    }
}

/// A value of a well-formed group is one of its pair values, hence itself
/// well-formed.
pub proof fn group_value_wf(g: Dict<Tile>, k: Seq<char>)
    requires
        tile_wf(Tile::Group(g)),
        g.contents().contains_key(k),
    ensures
        tile_wf(g.contents()[k]),
{
    g.lemma_domain(k);
    g.lemma_views();
    let i = choose|i: int| 0 <= i < g.spec_len() && g.keys()[i] == k;
    g.lemma_position(i);
    assert(g.contents()[k] == g.pairs@[i].1);
}

/// A declared source, loaded and decoded but not yet packed: its pixel size
/// in the decoded image, the stable handle the loader registered for it,
/// and, for a grid source, its declared sub-grid shape.
pub enum PreSource {
    TextureAtlas {
        width: u32,
        height: u32,
        hdl: u64,
        rows: u32,
        columns: u32,
        tile_size: (u32, u32),
    },
    Texture { width: u32, height: u32, hdl: u64 },
}

/// A finalized atlas entry: a plain source's flat index, or a grid source's
/// block of cell entries starting at `offset`, row-major.
pub enum SourceInfo {
    Atlas { offset: usize, rows: u32, columns: u32 },
    Texture(usize),
}

/// A texture-set asset: the tile tree, and either the raw sources still
/// awaiting the one-time atlas build, or the finalized atlas handle and
/// entry map. The fallback atlas handle always stands beside them.
pub struct TextureSetAsset {
    /// Populated exactly once, by the build: the atlas handle and the map
    /// from source name to atlas entry.
    pub sources: Option<(u64, Dict<SourceInfo>)>,
    /// The tile tree parsed from the document.
    pub textures: TileGroup,
    /// The handle of the process-wide fallback atlas.
    pub default: u64,
    /// The decoded raw sources, held only between load and build.
    pub pre_src: Option<Dict<PreSource>>,
}

/// Whether a link can be indexed against an entry map without a content
/// error: where the named entry matches the link's kind the grid arithmetic
/// must fit, anywhere else the name must be the sentinel.
pub open spec fn link_ok(l: LinkV, m: Map<Seq<char>, SourceInfo>) -> bool {
    match l {
        LinkV::Texture { source } => if m.contains_key(source) && m[source] is Texture {
            true
        } else {
            source == sentinel()
        },
        LinkV::Atlas { source, index } => if m.contains_key(source) && m[source] is Atlas {
            match m[source] {
                SourceInfo::Atlas { offset, rows, columns } => 1 <= index.0 && 1 <= index.1 && (
                index.1 as int - 1) * (columns as int) + (index.0 as int - 1) + (offset as int)
                    <= usize::MAX as int,
                SourceInfo::Texture(i) => false,
            }
        } else {
            source == sentinel()
        },
    }
}

/// The flat index and atlas handle a link denotes: the entry's own index
/// where the named entry matches the link's kind, with a grid link adding
/// its 1-based `(column, row)` offset in row-major order; index 0 of the
/// fallback atlas anywhere else.
pub open spec fn index_of(l: LinkV, m: Map<Seq<char>, SourceInfo>, main: u64, fb: u64) -> (
    int,
    u64,
) {
    match l {
        LinkV::Texture { source } => if m.contains_key(source) && m[source] is Texture {
            match m[source] {
                SourceInfo::Texture(i) => (i as int, main),
                SourceInfo::Atlas { offset, rows, columns } => (0, fb),
            }
        } else {
            (0, fb)
        },
        LinkV::Atlas { source, index } => if m.contains_key(source) && m[source] is Atlas {
            match m[source] {
                SourceInfo::Atlas { offset, rows, columns } => (
                    offset + (index.1 as int - 1) * (columns as int) + (index.0 as int - 1),
                    main,
                ),
                SourceInfo::Texture(i) => (0, fb),
            }
        } else {
            (0, fb)
        },
    }
}

/// Whether every link under a tile tree node can be indexed against the
/// entry map `m` without a content error.
pub open spec fn tile_links_ok(t: Tile, m: Map<Seq<char>, SourceInfo>) -> bool
    decreases t,
{
    match t {
        Tile::Animated { frames, speed } => forall|i: int|
            0 <= i < frames@.len() ==> link_ok(#[trigger] link_v(frames@[i]), m),
        Tile::Single(l) => link_ok(link_v(l), m),
        Tile::Variant { variants } => forall|i: int|
            0 <= i < variants.pairs@.len() ==> link_ok(
                #[trigger] link_v(variants.pairs@[i].1),
                m,
            ),
        Tile::Group(g) => pairs_links_ok(g.pairs@, m),
    }
}

/// Whether every link under every tile of the pairs can be indexed against
/// the entry map `m`.
pub open spec fn pairs_links_ok(s: Seq<(String, Tile)>, m: Map<Seq<char>, SourceInfo>) -> bool
    decreases s,
{
    if s.len() == 0 {
        true
    } else {
        pairs_links_ok(s.drop_last(), m) && tile_links_ok(s.last().1, m)
    }
}

pub proof fn lemma_pairs_links_ok_index(s: Seq<(String, Tile)>, m: Map<Seq<char>, SourceInfo>, i: int)
    requires
        pairs_links_ok(s, m),
        0 <= i < s.len(),
    ensures
        tile_links_ok(s[i].1, m),
    decreases s.len(),
{
    if i < s.len() - 1 {
        assert(s.drop_last()[i] == s[i]);
        lemma_pairs_links_ok_index(s.drop_last(), m, i);
    }
}

pub proof fn lemma_pairs_links_ok_all(s: Seq<(String, Tile)>, m: Map<Seq<char>, SourceInfo>)
    requires
        forall|i: int| 0 <= i < s.len() ==> tile_links_ok((#[trigger] s[i]).1, m),
    ensures
        pairs_links_ok(s, m),
    decreases s.len(),
{
    if s.len() > 0 {
        assert(forall|i: int|
            0 <= i < s.drop_last().len() ==> (#[trigger] s.drop_last()[i]).1 == s[i].1);
        lemma_pairs_links_ok_all(s.drop_last(), m);
    }
}

/// A value of a group whose links are all indexable has indexable links
/// itself.
pub proof fn group_value_links_ok(g: Dict<Tile>, k: Seq<char>, m: Map<Seq<char>, SourceInfo>)
    requires
        tile_links_ok(Tile::Group(g), m),
        g.contents().contains_key(k),
    ensures
        tile_links_ok(g.contents()[k], m),
{
    crate::dict::lemma_map_value_is_some_pair(g.pairs@, k);
    let i = choose|i: int|
        0 <= i < g.pairs@.len() && g.pairs@[i].0@ == k && crate::dict::map_of_pairs(g.pairs@)[k]
            == g.pairs@[i].1;
    lemma_pairs_links_ok_index(g.pairs@, m, i);
}

impl TextureSetAsset {
    /// Well-formed: unique names throughout, and the asset is either still
    /// pending its build or built, never both.
    pub open spec fn wf(&self) -> bool {
        &&& group_wf(self.textures)
        &&& match self.sources {
            Some((h, d)) => d.wf(),
            None => true,
        }
        &&& match self.pre_src {
            Some(p) => p.wf(),
            None => true,
        }
        &&& (self.sources is Some <==> self.pre_src is None)
    }

    /// Whether the atlas build has run.
    pub open spec fn is_built(&self) -> bool {
        self.sources is Some
    }

    /// The handle of the built atlas.
    pub open spec fn main_atlas(&self) -> u64 {
        match self.sources {
            Some((h, d)) => h,
            None => 0,
        }
    }

    /// The finalized map from source name to atlas entry.
    pub open spec fn entries(&self) -> Map<Seq<char>, SourceInfo> {
        match self.sources {
            Some((h, d)) => d.contents(),
            None => Map::empty(),
        }
    }

    /// Whether every link in the tile tree can be indexed against the
    /// built entry map without a content error.
    pub open spec fn links_ok(&self) -> bool {
        tile_links_ok(Tile::Group(self.textures), self.entries())
    }

    /// Walk a tile path to the tree node it names, by reference; `None` on
    /// any miss.
    pub fn find<'a>(&'a self, path: &str) -> (r: Option<&'a Tile>)
        requires
            self.wf(),
        ensures
            match find_tile(self.textures, path@) {
                Some(t) => r matches Some(rt) && *rt == t && tile_wf(t) && (self.links_ok()
                    ==> tile_links_ok(t, self.entries())),
                None => r is None,
            },
    {
        let segs = split_path_exec(path);
        let ghost sv = split_path(path@);
        proof {
            assert(self.textures.wf());
        }
        let first = self.textures.get(segs[0].as_str());
        match first {
            None => None,
            Some(t0) => {
                let mut cur: &Tile = t0;
                proof {
                    group_value_wf(self.textures, sv[0]);
                    if self.links_ok() {
                        group_value_links_ok(self.textures, sv[0], self.entries());
                    }
                }
                let n = segs.len();
                let mut i: usize = 1;
                while i < n
                    invariant
                        1 <= i <= n,
                        n == sv.len(),
                        segs@.map_values(|s: String| s@) == sv,
                        tile_wf(*cur),
                        self.links_ok() ==> tile_links_ok(*cur, self.entries()),
                        find_tile(self.textures, path@) == walk_from(*cur, sv.skip(i as int)),
                    decreases n - i,
                {
                    let ghost rest = sv.skip(i as int);
                    proof {
                        assert(rest[0] == sv[i as int]);
                        assert(rest.skip(1) =~= sv.skip(i + 1));
                        assert(segs@[i as int]@ == sv[i as int]);
                    }
                    match cur {
                        Tile::Group(g) => {
                            proof {
                                assert(g.wf());
                            }
                            match g.get(segs[i].as_str()) {
                                Some(t) => {
                                    proof {
                                        group_value_wf(*g, sv[i as int]);
                                        if self.links_ok() {
                                            group_value_links_ok(
                                                *g,
                                                sv[i as int],
                                                self.entries(),
                                            );
                                        }
                                    }
                                    cur = t;
                                },
                                None => {
                                    return None;
                                },
                            }
                        },
                        _ => {},
                    }
                    i = i + 1;
                }
                proof {
                    assert(sv.skip(n as int) =~= Seq::<Seq<char>>::empty());
                }
                Some(cur)
            },
        }
    }

    /// Look a tile path up in the tile tree, copying the node; `None` on
    /// any miss.
    pub fn get_tile_(&self, path: &str) -> (r: Option<Tile>)
        requires
            self.wf(),
        ensures
            match find_tile(self.textures, path@) {
                Some(t) => r matches Some(rt) && tile_like(rt, t) && tile_wf(rt),
                None => r is None,
            },
    {
        match self.find(path) {
            Some(t) => Some(dup_tile(t)),
            None => None,
        }
    }

    /// Look a tile path up; any miss yields the default tile, a plain
    /// reference to the sentinel source.
    pub fn get_tile(&self, path: &str) -> (r: Tile)
        requires
            self.wf(),
        ensures
            match find_tile(self.textures, path@) {
                Some(t) => tile_like(r, t),
                None => r matches Tile::Single(l) && link_v(l) == default_link_v(),
            },
    {
        match self.get_tile_(path) {
            Some(t) => t,
            None => Tile::Single(default_link()),
        }
    }

    /// Turn a link into a flat atlas index and an atlas handle.
    pub fn index_and_atlas(&self, link: &SourceLink) -> (r: (usize, u64))
        requires
            self.wf(),
            self.is_built(),
            link_ok(link_v(*link), self.entries()),
        ensures
            r.0 as int == index_of(
                link_v(*link),
                self.entries(),
                self.main_atlas(),
                self.default,
            ).0,
            r.1 == index_of(link_v(*link), self.entries(), self.main_atlas(), self.default).1,
    {
        match &self.sources {
            Some(pair) => {
                let main: u64 = pair.0;
                let dict = &pair.1;
                match link {
                    SourceLink::Texture { source } => match dict.get(source.as_str()) {
                        Some(SourceInfo::Texture(off)) => (*off, main),
                        _ => (0, self.default),
                    },
                    SourceLink::Atlas { source, index } => match dict.get(source.as_str()) {
                        Some(SourceInfo::Atlas { offset, rows, columns }) => {
                            let idx: usize = *offset + ((index.1 - 1) as usize) * (*columns
                                as usize) + ((index.0 - 1) as usize);
                            (idx, main)
                        },
                        _ => (0, self.default),
                    },
                }
            },
            None => {
                proof {
                    assert(false);
                }
                (0, 0)
            },
        }
    }

    /// The asset as the loader leaves it: the parsed tile tree beside the
    /// decoded raw sources, awaiting the one-time atlas build.
    pub fn new(textures: TileGroup, raw: Dict<PreSource>, default_hdl: u64) -> (r: Self)
        requires
            group_wf(textures),
            raw.wf(),
        ensures
            r.wf(),
            !r.is_built(),
            r.pre_src matches Some(p) && p == raw,
            r.textures == textures,
            r.default == default_hdl,
    {
        TextureSetAsset { sources: None, textures, default: default_hdl, pre_src: Some(raw) }
    }

    /// The process-wide default asset: a built asset whose one entry is the
    /// sentinel source at index 0 of the fallback atlas, and no tiles.
    pub fn default(default_hdl: u64) -> (r: Self)
        ensures
            r.wf(),
            r.is_built(),
            r.main_atlas() == default_hdl,
            r.default == default_hdl,
            r.entries() == Map::<Seq<char>, SourceInfo>::empty().insert(
                sentinel(),
                SourceInfo::Texture(0),
            ),
            r.textures.spec_len() == 0,
            r.pre_src is None,
    {
        let mut d: Dict<SourceInfo> = Dict::new();
        d.insert(String::from_str("_default"), SourceInfo::Texture(0));
        TextureSetAsset {
            sources: Some((default_hdl, d)),
            textures: Dict::new(),
            default: default_hdl,
            pre_src: None,
        }
    }
}

/// The per-entity runtime state: which appearance of the current tile the
/// entity shows.
pub enum TSetTile {
    Single,
    Variant(String),
    Animated(i32),
}

/// The per-entity manager: which texture set, which tile path, and the
/// runtime state, with a dirty flag so a pass resolves only what changed.
pub struct TSetManager {
    /// Handle of the texture-set asset this entity draws from.
    pub tset: u64,
    /// The `/`-separated tile path.
    pub tile_name: String,
    /// The runtime state picking the appearance.
    pub data: TSetTile,
    /// Set by every mutation, cleared by the frame sync.
    pub changed: bool,
}

impl TSetManager {
    pub fn new(tset: u64, name: &str, data: TSetTile) -> (r: Self)
        ensures
            r.tset == tset,
            r.tile_name@ == name@,
            r.data == data,
            r.changed,
    {
        TSetManager { tset, tile_name: String::from_str(name), data, changed: true }
    }

    /// Point the entity at another tile; the frame sync picks it up on the
    /// next pass.
    pub fn set_tile(&mut self, name: &str)
        ensures
            final(self).tile_name@ == name@,
            final(self).data == old(self).data,
            final(self).tset == old(self).tset,
            final(self).changed,
    {
        self.tile_name = String::from_str(name);
        self.changed = true;
    }

    /// Point the entity at another tile and pick its appearance in one
    /// step, so the frame sync sees both together on the next pass.
    pub fn set_tile_state(&mut self, name: &str, data: TSetTile)
        ensures
            final(self).tile_name@ == name@,
            final(self).data == data,
            final(self).tset == old(self).tset,
            final(self).changed,
    {
        self.tile_name = String::from_str(name);
        self.data = data;
        self.changed = true;
    }

    /// Mark the entity's sprite as synced.
    pub fn clear_changed(&mut self)
        ensures
            final(self).tile_name == old(self).tile_name,
            final(self).data == old(self).data,
            final(self).tset == old(self).tset,
            !final(self).changed,
    {
        self.changed = false;
    }
}

} // verus!
