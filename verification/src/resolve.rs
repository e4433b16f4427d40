//! Resolution of per-entity runtime state against the tile tree, and the
//! per-entity step of the frame sync: look the manager's tile path up,
//! pick the appearance its runtime state selects, and turn the resulting
//! link into a flat atlas index and an atlas handle.
//!
//! Resolution never fails: every miss falls back to the sentinel source,
//! which indexes the fallback atlas. A runtime state whose kind does not
//! match the tile it names is a no-op: stale per-entity state must never
//! crash a pass.
use vstd::prelude::*;

use crate::dict::Dict;
use crate::dict::str_eq;
use crate::tset::LinkV;
use crate::tset::SourceInfo;
use crate::tset::SourceLink;
use crate::tset::TSetManager;
use crate::tset::TSetTile;
use crate::tset::TextureSetAsset;
use crate::tset::Tile;
use crate::tset::default_link;
use crate::tset::default_link_v;
use crate::tset::dup_link;
use crate::tset::find_tile;
use crate::tset::index_of;
use crate::tset::link_ok;
use crate::tset::link_v;
use crate::tset::lemma_pairs_links_ok_all;
use crate::tset::lemma_pairs_links_ok_index;
use crate::tset::pairs_links_ok;
use crate::tset::sentinel;
use crate::tset::tile_links_ok;
use crate::tset::tile_wf;

verus! {

broadcast use vstd::std_specs::vec::group_vec_axioms;

/// The frame a counter selects from a list of `len` frames: the counter
/// modulo the length, mathematically, so it lies in `[0, len)` even for a
/// counter that ran negative. This is deliberately the mathematical
/// reduction — a wrapping cast of a negative counter would pick a frame
/// that depends on the machine's word size whenever the frame count is
/// not a power of two.
pub open spec fn frame_index(frame: i32, len: int) -> int {
    (frame as int) % len
}

/// The sentinel link can always be indexed.
pub proof fn lemma_default_link_ok(m: Map<Seq<char>, SourceInfo>)
    ensures
        link_ok(default_link_v(), m),
{
}

/// The link a tile's runtime state selects: `None` where the state's kind
/// does not match the tile's, the sentinel link where the tile misses
/// (an empty frame list, an unknown variant, a group as a leaf).
pub open spec fn select_v(t: Tile, d: TSetTile) -> Option<LinkV> {
    match t {
        Tile::Animated { frames, speed } => match d {
            TSetTile::Animated(frame) => if frames@.len() > 0 {
                Some(link_v(frames@[frame_index(frame, frames@.len() as int)]))
            } else {
                Some(default_link_v())
            },
            _ => None,
        },
        Tile::Single(l) => Some(link_v(l)),
        Tile::Variant { variants } => match d {
            TSetTile::Variant(name) => if variants.contents().contains_key(name@) {
                Some(link_v(variants.contents()[name@]))
            } else {
                Some(default_link_v())
            },
            _ => None,
        },
        Tile::Group(g) => Some(default_link_v()),
    }
}

/// What `resolve` returns: the selected link, with every miss — unknown
/// path, mismatched state kind, empty frame list, unknown variant, group
/// as a leaf — falling back to the sentinel link.
pub open spec fn resolve_v(a: TextureSetAsset, path: Seq<char>, d: TSetTile) -> LinkV {
    match find_tile(a.textures, path) {
        Some(t) => match select_v(t, d) {
            Some(l) => l,
            None => default_link_v(),
        },
        None => default_link_v(),
    }
}

/// What the frame sync writes for one entity: the index and atlas of the
/// selected link, or nothing where the state's kind does not match.
pub open spec fn update_spec(a: TextureSetAsset, path: Seq<char>, d: TSetTile) -> Option<
    (int, u64),
> {
    match find_tile(a.textures, path) {
        Some(t) => match select_v(t, d) {
            Some(l) => Some(index_of(l, a.entries(), a.main_atlas(), a.default)),
            None => None,
        },
        None => Some(index_of(default_link_v(), a.entries(), a.main_atlas(), a.default)),
    }
}

/// The frame the counter selects: the counter reduced modulo the frame
/// count.
fn mod_index(frame: i32, len: usize) -> (r: usize)
    requires
        len > 0,
    ensures
        r as int == frame_index(frame, len as int),
        r < len,
{
    if frame >= 0 {
        (frame as usize) % len
    } else {
        let neg: i64 = -(frame as i64);
        let negu: usize = neg as usize;
        let m: usize = negu % len;
        let r: usize = if m == 0 {
            0
        } else {
            len - m
        };
        proof {
            let a = frame as int;
            let n = len as int;
            let q = (negu as int) / n;
            vstd::arithmetic::div_mod::lemma_fundamental_div_mod(negu as int, n);
            if m == 0 {
                assert(a == (-q) * n + 0) by (nonlinear_arith)
                    requires
                        negu as int == n * q + (m as int),
                        a == -(negu as int),
                        m as int == 0,
                ;
                vstd::arithmetic::div_mod::lemma_fundamental_div_mod_converse(a, n, -q, 0);
            } else {
                assert(a == (-q - 1) * n + (n - m as int)) by (nonlinear_arith)
                    requires
                        negu as int == n * q + (m as int),
                        a == -(negu as int),
                ;
                vstd::arithmetic::div_mod::lemma_fundamental_div_mod_converse(
                    a,
                    n,
                    -q - 1,
                    n - m as int,
                );
            }
        }
        r
    }
}

impl TextureSetAsset {
    /// Resolve a tile path and a runtime state to a source link. Never
    /// fails: for every path, state and asset it returns a link, the
    /// sentinel link on any miss.
    pub fn resolve(&self, path: &str, state: &TSetTile) -> (r: SourceLink)
        requires
            self.wf(),
        ensures
            link_v(r) == resolve_v(*self, path@, *state),
    {
        match self.find(path) {
            None => default_link(),
            Some(t) => match t {
                Tile::Animated { frames, speed } => match state {
                    TSetTile::Animated(frame) => {
                        if frames.len() > 0 {
                            let fi = mod_index(*frame, frames.len());
                            dup_link(&frames[fi])
                        } else {
                            default_link()
                        }
                    },
                    _ => default_link(),
                },
                Tile::Single(l) => dup_link(l),
                Tile::Variant { variants } => match state {
                    TSetTile::Variant(name) => {
                        proof {
                            assert(variants.wf());
                        }
                        match variants.get(name.as_str()) {
                            Some(l) => dup_link(l),
                            None => default_link(),
                        }
                    },
                    _ => default_link(),
                },
                Tile::Group(g) => default_link(),
            },
        }
    }
}

/// The per-entity step of the frame sync, run for each entity whose
/// manager changed since the last pass: resolve the manager's tile and
/// state and return the sprite's new atlas index and atlas handle, or
/// nothing where the state's kind does not match the tile, which leaves
/// the sprite as it stands.
pub fn update(tset: &TextureSetAsset, manager: &TSetManager) -> (r: Option<(usize, u64)>)
    requires
        tset.wf(),
        tset.is_built(),
        tset.links_ok(),
    ensures
        match update_spec(*tset, manager.tile_name@, manager.data) {
            Some((i, h)) => r matches Some(p) && p.0 as int == i && p.1 == h,
            None => r is None,
        },
{
    proof {
        lemma_default_link_ok(tset.entries());
    }
    match tset.find(manager.tile_name.as_str()) {
        None => Some(tset.index_and_atlas(&default_link())),
        Some(t) => match t {
            Tile::Animated { frames, speed } => match &manager.data {
                TSetTile::Animated(frame) => {
                    if frames.len() > 0 {
                        let fi = mod_index(*frame, frames.len());
                        let l = &frames[fi];
                        proof {
                            assert(link_ok(link_v(frames@[fi as int]), tset.entries()));
                        }
                        Some(tset.index_and_atlas(l))
                    } else {
                        Some(tset.index_and_atlas(&default_link()))
                    }
                },
                _ => None,
            },
            Tile::Single(l) => Some(tset.index_and_atlas(l)),
            Tile::Variant { variants } => match &manager.data {
                TSetTile::Variant(name) => {
                    proof {
                        assert(variants.wf());
                    }
                    match variants.get(name.as_str()) {
                        Some(l) => {
                            proof {
                                crate::dict::lemma_map_value_is_some_pair(variants.pairs@, name@);
                                let i = choose|i: int|
                                    0 <= i < variants.pairs@.len() && variants.pairs@[i].0@
                                        == name@ && crate::dict::map_of_pairs(variants.pairs@)[
                                    name@] == variants.pairs@[i].1;
                                assert(link_ok(link_v(variants.pairs@[i].1), tset.entries()));
                            }
                            Some(tset.index_and_atlas(l))
                        },
                        None => Some(tset.index_and_atlas(&default_link())),
                    }
                },
                _ => None,
            },
            Tile::Group(g) => Some(tset.index_and_atlas(&default_link())),
        },
    }
}

/// Whether one link can be indexed against the built entry map.
fn link_valid(l: &SourceLink, d: &Dict<SourceInfo>) -> (r: bool)
    requires
        d.wf(),
    ensures
        r == link_ok(link_v(*l), d.contents()),
{
    match l {
        SourceLink::Texture { source } => match d.get(source.as_str()) {
            Some(SourceInfo::Texture(off)) => true,
            _ => str_eq(source.as_str(), "_default"),
        },
        SourceLink::Atlas { source, index } => match d.get(source.as_str()) {
            Some(SourceInfo::Atlas { offset, rows, columns }) => {
                if index.0 >= 1 && index.1 >= 1 {
                    proof {
                        assert(((index.1 - 1) as int) * (*columns as int) + ((index.0 - 1) as int)
                            <= u64::MAX as int) by (nonlinear_arith)
                            requires
                                0 <= (index.1 - 1) as int <= u32::MAX as int,
                                0 <= (index.0 - 1) as int <= u32::MAX as int,
                                0 <= *columns <= u32::MAX,
                        ;
                    }
                    let rest: u64 = ((index.1 - 1) as u64) * (*columns as u64) + ((index.0 - 1)
                        as u64);
                    rest <= ((usize::MAX - *offset) as u64)
                } else {
                    false
                }
            },
            _ => str_eq(source.as_str(), "_default"),
        },
    }
}

/// Whether every link under a tile can be indexed against the entry map.
fn tile_valid(t: &Tile, d: &Dict<SourceInfo>) -> (r: bool)
    requires
        d.wf(),
        tile_wf(*t),
    ensures
        r == tile_links_ok(*t, d.contents()),
    decreases *t,
{
    match t {
        Tile::Single(l) => link_valid(l, d),
        Tile::Animated { frames, speed } => {
            let n = frames.len();
            let mut i: usize = 0;
            while i < n
                invariant
                    i <= n,
                    n == frames@.len(),
                    forall|j: int| 0 <= j < i ==> link_ok(#[trigger] link_v(frames@[j]), d.contents()),
                decreases n - i,
            {
                if !link_valid(&frames[i], d) {
                    return false;
                }
                i = i + 1;
            }
            true
        },
        Tile::Variant { variants } => {
            let n = variants.len();
            let mut i: usize = 0;
            while i < n
                invariant
                    i <= n,
                    n == variants.spec_len(),
                    forall|j: int|
                        0 <= j < i ==> link_ok(
                            #[trigger] link_v(variants.pairs@[j].1),
                            d.contents(),
                        ),
                decreases n - i,
            {
                let pair = variants.pair_at(i);
                proof {
                    variants.lemma_views();
                }
                if !link_valid(&pair.1, d) {
                    return false;
                }
                i = i + 1;
            }
            true
        },
        Tile::Group(g) => {
            let n = g.len();
            let mut i: usize = 0;
            while i < n
                invariant
                    i <= n,
                    n == g.spec_len(),
                    tile_wf(*t),
                    d.wf(),
                    forall|j: int|
                        0 <= j < i ==> tile_links_ok((#[trigger] g.pairs@[j]).1, d.contents()),
                decreases n - i,
            {
                let pair = g.pair_at(i);
                proof {
                    g.lemma_views();
                    assert(pair.1 == g.pairs@[i as int].1);
                    assert(tile_wf(g.pairs@[i as int].1));
                }
                if !tile_valid(&pair.1, d) {
                    proof {
                        if pairs_links_ok(g.pairs@, d.contents()) {
                            lemma_pairs_links_ok_index(g.pairs@, d.contents(), i as int);
                        }
                    }
                    return false;
                }
                i = i + 1;
            }
            proof {
                lemma_pairs_links_ok_all(g.pairs@, d.contents());
            }
            true
        },
    }
}

impl TextureSetAsset {
    /// Check that every link in the tile tree can be indexed against the
    /// built entry map: run once after the build, a `false` is a content
    /// error in the document.
    pub fn validate(&self) -> (r: bool)
        requires
            self.wf(),
        ensures
            r == self.links_ok(),
    {
        let empty: Dict<SourceInfo> = Dict::new();
        let d: &Dict<SourceInfo> = match &self.sources {
            Some(pair) => &pair.1,
            None => &empty,
        };
        let n = self.textures.len();
        let mut i: usize = 0;
        while i < n
            invariant
                i <= n,
                n == self.textures.spec_len(),
                d.wf(),
                d.contents() == self.entries(),
                forall|j: int|
                    0 <= j < i ==> tile_links_ok(
                        (#[trigger] self.textures.pairs@[j]).1,
                        self.entries(),
                    ),
            decreases n - i,
        {
            let pair = self.textures.pair_at(i);
            proof {
                self.textures.lemma_views();
                assert(pair.1 == self.textures.pairs@[i as int].1);
                assert(tile_wf(self.textures.pairs@[i as int].1));
            }
            if !tile_valid(&pair.1, d) {
                proof {
                    if pairs_links_ok(self.textures.pairs@, self.entries()) {
                        lemma_pairs_links_ok_index(
                            self.textures.pairs@,
                            self.entries(),
                            i as int,
                        );
                    }
                }
                return false;
            }
            i = i + 1;
        }
        proof {
            lemma_pairs_links_ok_all(self.textures.pairs@, self.entries());
        }
        true
    }
}

/// A pass that changes nothing writes the identical pair: what the frame
/// sync writes is a function of the asset, the tile path and the runtime
/// state alone, so two managers in the same state — whatever their dirty
/// flags or handles — resolve alike, and a no-op pass repeats the result
/// of the last one.
pub proof fn lemma_sync_stable(a: TextureSetAsset, m1: TSetManager, m2: TSetManager)
    requires
        m1.tile_name@ == m2.tile_name@,
        m1.data == m2.data,
    ensures
        update_spec(a, m1.tile_name@, m1.data) == update_spec(a, m2.tile_name@, m2.data),
{
}

/// The sentinel always resolves to index 0 of the fallback atlas: on a
/// built asset whose entry map does not name the sentinel itself — every
/// document that declares no source called `"_default"` — and on the
/// default asset, whose sentinel entry is index 0 of that same atlas.
pub proof fn lemma_default_reference(a: TextureSetAsset)
    requires
        a.is_built(),
        a.entries().contains_key(sentinel()) ==> (a.entries()[sentinel()] == SourceInfo::Texture(0)
            && a.main_atlas() == a.default),
    ensures
        index_of(default_link_v(), a.entries(), a.main_atlas(), a.default) == (0int, a.default),
{
}

} // verus!
