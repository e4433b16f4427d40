//! The one-time atlas build: pack every raw source into one atlas image,
//! left to right on a single shelf, then subdivide each grid source's
//! packed rectangle into its declared cells and append them as further
//! entries, contiguous per source in declaration order.
//!
//! The resulting index space is `[0, N)` for the `N` packed source
//! rectangles, in declaration order, followed by each grid source's
//! `rows * columns` cells.
use vstd::prelude::*;

use crate::dict::Dict;
use crate::tset::PreSource;
use crate::tset::SourceInfo;
use crate::tset::TextureSetAsset;

verus! {

/// An axis-aligned pixel rectangle of the atlas image.
#[derive(Clone, Copy, Debug, PartialEq, Eq)]
pub struct Rect {
    pub min: (u64, u64),
    pub max: (u64, u64),
}

/// The pixel width of a raw source.
pub open spec fn src_w(p: PreSource) -> int {
    match p {
        PreSource::TextureAtlas { width, .. } => width as int,
        PreSource::Texture { width, .. } => width as int,
    }
}

/// The pixel height of a raw source.
pub open spec fn src_h(p: PreSource) -> int {
    match p {
        PreSource::TextureAtlas { height, .. } => height as int,
        PreSource::Texture { height, .. } => height as int,
    }
}

/// Whether a raw source is a declared grid.
pub open spec fn is_grid(p: PreSource) -> bool {
    p is TextureAtlas
}

pub open spec fn grid_rows(p: PreSource) -> int {
    match p {
        PreSource::TextureAtlas { rows, .. } => rows as int,
        PreSource::Texture { .. } => 0,
    }
}

pub open spec fn grid_cols(p: PreSource) -> int {
    match p {
        PreSource::TextureAtlas { columns, .. } => columns as int,
        PreSource::Texture { .. } => 0,
    }
}

pub open spec fn grid_tsx(p: PreSource) -> int {
    match p {
        PreSource::TextureAtlas { tile_size, .. } => tile_size.0 as int,
        PreSource::Texture { .. } => 0,
    }
}

pub open spec fn grid_tsy(p: PreSource) -> int {
    match p {
        PreSource::TextureAtlas { tile_size, .. } => tile_size.1 as int,
        PreSource::Texture { .. } => 0,
    }
}

/// The cells a grid source adds to the atlas: its `rows * columns`, none
/// for a plain source.
pub open spec fn grid_cells(p: PreSource) -> int {
    if is_grid(p) {
        grid_rows(p) * grid_cols(p)
    } else {
        0
    }
}

/// Total width of the sources packed before position `i`.
pub open spec fn width_before(vals: Seq<PreSource>, i: int) -> int
    decreases i,
{
    if i <= 0 {
        0
    } else {
        width_before(vals, i - 1) + src_w(vals[i - 1])
    }
}

/// Cells added by the grid sources before position `i`.
pub open spec fn cells_before(vals: Seq<PreSource>, i: int) -> int
    decreases i,
{
    if i <= 0 {
        0
    } else {
        cells_before(vals, i - 1) + grid_cells(vals[i - 1])
    }
}

/// Cells added by all grid sources.
pub open spec fn total_cells(vals: Seq<PreSource>) -> int {
    cells_before(vals, vals.len() as int)
}

pub proof fn lemma_width_mono(vals: Seq<PreSource>, i: int, j: int)
    requires
        0 <= i <= j,
    ensures
        width_before(vals, i) <= width_before(vals, j),
    decreases j - i,
{
    if i < j {
        lemma_width_mono(vals, i, j - 1);
    }
}

pub proof fn lemma_cells_mono(vals: Seq<PreSource>, i: int, j: int)
    requires
        0 <= i <= j,
    ensures
        cells_before(vals, i) <= cells_before(vals, j),
    decreases j - i,
{
    if i < j {
        lemma_cells_mono(vals, i, j - 1);
        assert(grid_cells(vals[j - 1]) >= 0) by (nonlinear_arith);
    }
}

/// The rectangle the shelf packing gives source `i`: at the sum of the
/// earlier widths, on the baseline.
pub open spec fn is_source_rect(r: Rect, vals: Seq<PreSource>, i: int) -> bool {
    &&& r.min.0 == width_before(vals, i)
    &&& r.min.1 == 0
    &&& r.max.0 == width_before(vals, i) + src_w(vals[i])
    &&& r.max.1 == src_h(vals[i])
}

/// The rectangle of cell `(x, y)` of a grid subdivided from `offset` with
/// the given cell size.
pub open spec fn is_cell_rect(r: Rect, size: (u64, u64), offset: (u64, u64), x: int, y: int) -> bool {
    &&& r.min.0 == offset.0 + x * size.0
    &&& r.min.1 == offset.1 + y * size.1
    &&& r.max.0 == offset.0 + x * size.0 + size.0
    &&& r.max.1 == offset.1 + y * size.1 + size.1
}

/// Packed source rectangles never overlap: an earlier one ends on the
/// x axis before a later one starts.
pub proof fn lemma_sources_disjoint(vals: Seq<PreSource>, i: int, j: int, ri: Rect, rj: Rect)
    requires
        0 <= i < j < vals.len(),
        is_source_rect(ri, vals, i),
        is_source_rect(rj, vals, j),
    ensures
        ri.max.0 <= rj.min.0,
{
    lemma_width_mono(vals, i + 1, j);
}

/// The cell rectangles of one grid: `rows * columns` of them, row-major,
/// subdivided from `offset` with the given cell size.
pub fn rects(size: (u64, u64), rows: u32, columns: u32, offset: (u64, u64)) -> (r: Vec<Rect>)
    requires
        (rows as int) * (columns as int) <= usize::MAX as int,
        offset.0 + (columns as int) * (size.0 as int) <= u64::MAX as int,
        offset.1 + (rows as int) * (size.1 as int) <= u64::MAX as int,
    ensures
        r@.len() == (rows as int) * (columns as int),
        forall|y: int, x: int|
            0 <= y < rows && 0 <= x < columns ==> is_cell_rect(
                #[trigger] r@[y * (columns as int) + x],
                size,
                offset,
                x,
                y,
            ),
{
    let mut sprites: Vec<Rect> = Vec::new();
    let mut y: u32 = 0;
    while y < rows
        invariant
            y <= rows,
            sprites@.len() == (y as int) * (columns as int),
            forall|yy: int, x: int|
                0 <= yy < y && 0 <= x < columns ==> is_cell_rect(
                    #[trigger] sprites@[yy * (columns as int) + x],
                    size,
                    offset,
                    x,
                    yy,
                ),
        decreases rows - y,
    {
        let mut x: u32 = 0;
        while x < columns
            invariant
                y < rows,
                x <= columns,
                sprites@.len() == (y as int) * (columns as int) + x as int,
                forall|yy: int, xx: int|
                    0 <= yy < y && 0 <= xx < columns ==> is_cell_rect(
                        #[trigger] sprites@[yy * (columns as int) + xx],
                        size,
                        offset,
                        xx,
                        yy,
                    ),
                forall|xx: int|
                    0 <= xx < x ==> is_cell_rect(
                        #[trigger] sprites@[(y as int) * (columns as int) + xx],
                        size,
                        offset,
                        xx,
                        y as int,
                    ),
        decreases columns - x,
        {
            proof {
                assert((y as int) * (columns as int) + (x as int) < (rows as int) * (columns
                    as int)) by (nonlinear_arith)
                    requires
                        0 <= (y as int) < (rows as int),
                        0 <= (x as int) < (columns as int),
                ;
                assert((x as int) * (size.0 as int) + (size.0 as int) <= (columns as int) * (size.0
                    as int)) by (nonlinear_arith)
                    requires
                        0 <= (x as int) < (columns as int),
                        (size.0 as int) >= 0,
                ;
                assert((y as int) * (size.1 as int) + (size.1 as int) <= (rows as int) * (size.1
                    as int)) by (nonlinear_arith)
                    requires
                        0 <= (y as int) < (rows as int),
                        (size.1 as int) >= 0,
                ;
            }
            let min_x: u64 = offset.0 + (x as u64) * size.0;
            let min_y: u64 = offset.1 + (y as u64) * size.1;
            sprites.push(Rect { min: (min_x, min_y), max: (min_x + size.0, min_y + size.1) });
            proof {
                assert forall|yy: int, xx: int|
                    0 <= yy < y && 0 <= xx < columns implies #[trigger] (yy * (columns as int)
                        + xx) < (y as int) * (columns as int) by {
                    assert(yy * (columns as int) + xx < (y as int) * (columns as int))
                        by (nonlinear_arith)
                        requires
                            0 <= yy < (y as int),
                            0 <= xx < (columns as int),
                    ;
                }
            }
            x = x + 1;
        }
        y = y + 1;
        proof {
            assert((y as int) * (columns as int) == (y as int - 1) * (columns as int) + (columns
                as int)) by (nonlinear_arith);
        }
    }
    sprites
}

/// What the build owes a source's entry: a plain source's entry is its own
/// packed index, a grid source's entry is the block of its cells starting
/// where the earlier entries end.
pub open spec fn is_entry_for(e: SourceInfo, vals: Seq<PreSource>, i: int) -> bool {
    if is_grid(vals[i]) {
        &&& e matches SourceInfo::Atlas { offset, rows, columns }
        &&& offset == vals.len() + cells_before(vals, i)
        &&& rows == grid_rows(vals[i])
        &&& columns == grid_cols(vals[i])
    } else {
        e matches SourceInfo::Texture(t) && t == i
    }
}

/// The machine bounds the build needs: the entry count must fit a `usize`
/// and the packed shelf must fit the atlas axis.
pub open spec fn build_req(p: Dict<PreSource>) -> bool {
    &&& p.wf()
    &&& p.spec_len() + total_cells(p.vals()) <= usize::MAX
    &&& width_before(p.vals(), p.spec_len() as int) <= u32::MAX
}

/// The layout the build owes: one rectangle per source in declaration
/// order, then every grid source's cells, contiguous and row-major, cut
/// from that source's packed rectangle.
pub open spec fn is_layout_for(layout: Seq<Rect>, vals: Seq<PreSource>) -> bool {
    &&& layout.len() == vals.len() + total_cells(vals)
    &&& forall|i: int| 0 <= i < vals.len() ==> is_source_rect(#[trigger] layout[i], vals, i)
    &&& forall|i: int, y: int, x: int|
        0 <= i < vals.len() && is_grid(vals[i]) && 0 <= y < grid_rows(vals[i]) && 0 <= x
            < grid_cols(vals[i]) ==> is_cell_rect(
            #[trigger] layout[vals.len() + cells_before(vals, i) + y * grid_cols(vals[i]) + x],
            (grid_tsx(vals[i]) as u64, grid_tsy(vals[i]) as u64),
            (width_before(vals, i) as u64, 0),
            x,
            y,
        )
}

/// Pack the raw sources: the atlas layout and the finalized map from
/// source name to atlas entry, keyed exactly by the declared source names,
/// in declaration order.
pub fn build(pre: &Dict<PreSource>) -> (r: (Vec<Rect>, Dict<SourceInfo>))
    requires
        build_req(*pre),
    ensures
        r.1.wf(),
        r.1.keys() == pre.keys(),
        r.1.spec_len() == pre.spec_len(),
        forall|i: int| 0 <= i < pre.spec_len() ==> is_entry_for(#[trigger] r.1.vals()[i], pre.vals(), i),
        is_layout_for(r.0@, pre.vals()),
{
    let ghost vals = pre.vals();
    let n = pre.len();
    proof {
        pre.lemma_views();
    }

    let mut layout: Vec<Rect> = Vec::new();
    let mut xpos: u64 = 0;
    let mut i: usize = 0;
    while i < n
        invariant
            i <= n,
            xpos == width_before(vals, i as int),
            layout@.len() == i,
            forall|j: int| 0 <= j < i ==> is_source_rect(#[trigger] layout@[j], vals, j),
        decreases n - i,
    {
        let p = pre.pair_at(i);
        let (w, h) = match &p.1 {
            PreSource::TextureAtlas { width, height, .. } => (*width, *height),
            PreSource::Texture { width, height, .. } => (*width, *height),
        };
        proof {
            lemma_width_mono(vals, i + 1, n as int);
            assert(width_before(vals, i + 1) == xpos + w as int);
        }
        layout.push(Rect { min: (xpos, 0), max: (xpos + w as u64, h as u64) });
        xpos = xpos + w as u64;
        i = i + 1;
    }

    let mut entries: Dict<SourceInfo> = Dict::new();
    let mut idx: usize = n;
    let mut i: usize = 0;
    while i < n
        invariant
            i <= n,
            idx == n + cells_before(vals, i as int),
            entries.wf(),
            entries.keys() =~= pre.keys().take(i as int),
            entries.spec_len() == i,
            forall|j: int| 0 <= j < i ==> is_entry_for(#[trigger] entries.vals()[j], vals, j),
            layout@.len() == idx,
            forall|j: int| 0 <= j < n ==> is_source_rect(#[trigger] layout@[j], vals, j),
            forall|j: int, y: int, x: int|
                0 <= j < i && is_grid(vals[j]) && 0 <= y < grid_rows(vals[j]) && 0 <= x
                    < grid_cols(vals[j]) ==> is_cell_rect(
                    #[trigger] layout@[n + cells_before(vals, j) + y * grid_cols(vals[j]) + x],
                    (grid_tsx(vals[j]) as u64, grid_tsy(vals[j]) as u64),
                    (width_before(vals, j) as u64, 0),
                    x,
                    y,
                ),
        decreases n - i,
    {
        let p = pre.pair_at(i);
        let nm = p.0.clone();
        proof {
            lemma_cells_mono(vals, 0, i as int);
            lemma_cells_mono(vals, i + 1, n as int);
            lemma_width_mono(vals, 0, i as int);
            entries.lemma_domain(nm@);
            if entries.contents().contains_key(nm@) {
                let j = choose|j: int| 0 <= j < entries.spec_len() && entries.keys()[j] == nm@;
                assert(pre.pairs@[j].0@ == pre.pairs@[i as int].0@);
            }
        }
        match &p.1 {
            PreSource::Texture { .. } => {
                entries.insert(nm, SourceInfo::Texture(i));
            },
            PreSource::TextureAtlas { width, height, hdl, rows, columns, tile_size } => {
                proof {
                    assert(cells_before(vals, i + 1) == cells_before(vals, i as int) + (
                    *rows as int) * (*columns as int));
                    assert((*rows as int) * (*columns as int) <= usize::MAX as int);
                    lemma_width_mono(vals, i as int, n as int);
                    lemma_width_mono(vals, i + 1, n as int);
                    assert((width_before(vals, i as int) as u64) as int == width_before(
                        vals,
                        i as int,
                    ));
                    assert((width_before(vals, i as int)) + (*columns as int) * (tile_size.0
                        as int) <= u64::MAX as int) by (nonlinear_arith)
                        requires
                            0 <= width_before(vals, i as int) <= (u32::MAX as int),
                            0 <= *columns <= u32::MAX,
                            0 <= tile_size.0 <= u32::MAX,
                    ;
                    assert((*rows as int) * (tile_size.1 as int) <= u64::MAX as int)
                        by (nonlinear_arith)
                        requires
                            0 <= *rows <= u32::MAX,
                            0 <= tile_size.1 <= u32::MAX,
                    ;
                }
                entries.insert(
                    nm,
                    SourceInfo::Atlas { offset: idx, rows: *rows, columns: *columns },
                );
                let base = layout[i];
                let mut cells = rects(
                    (tile_size.0 as u64, tile_size.1 as u64),
                    *rows,
                    *columns,
                    base.min,
                );
                let ghost layout0 = layout@;
                let ghost cellsv = cells@;
                layout.append(&mut cells);
                idx = idx + (*rows as usize) * (*columns as usize);
                proof {
                    assert forall|j: int, y: int, x: int|
                        0 <= j < i + 1 && is_grid(vals[j]) && 0 <= y < grid_rows(vals[j]) && 0 <= x
                            < grid_cols(vals[j]) implies is_cell_rect(
                        #[trigger] layout@[n + cells_before(vals, j) + y * grid_cols(vals[j]) + x],
                        (grid_tsx(vals[j]) as u64, grid_tsy(vals[j]) as u64),
                        (width_before(vals, j) as u64, 0),
                        x,
                        y,
                    ) by {
                        assert(0 <= y * grid_cols(vals[j]) + x < grid_rows(vals[j]) * grid_cols(
                            vals[j],
                        )) by (nonlinear_arith)
                            requires
                                0 <= y < grid_rows(vals[j]),
                                0 <= x < grid_cols(vals[j]),
                        ;
                        let pos = n + cells_before(vals, j) + y * grid_cols(vals[j]) + x;
                        lemma_cells_mono(vals, 0, j);
                        if j < i {
                            lemma_cells_mono(vals, j + 1, i as int);
                            assert(pos < layout0.len());
                            assert(layout@[pos] == layout0[pos]);
                        } else {
                            assert(pos == layout0.len() + (y * grid_cols(vals[j]) + x));
                            assert(layout@[pos] == cellsv[y * grid_cols(vals[j]) + x]);
                        }
                    }
                }
            },
        }
        proof {
            assert(entries.keys() =~= pre.keys().take(i + 1));
        }
        i = i + 1;
    }
    proof {
        assert(entries.keys() =~= pre.keys());
    }
    (layout, entries)
}

/// For every valid document all of whose declared sources loaded, the
/// built entry map is keyed exactly by the document's declared source
/// names.
pub proof fn lemma_build_keys(
    doc: crate::parse::Descriptor,
    pre: Dict<PreSource>,
    entries: Dict<SourceInfo>,
)
    requires
        pre.keys() == doc.sources.keys(),
        entries.keys() == pre.keys(),
    ensures
        entries.contents().dom() =~= doc.sources.contents().dom(),
{
    assert forall|k: Seq<char>|
        entries.contents().dom().contains(k) <==> doc.sources.contents().dom().contains(k) by {
        entries.lemma_domain(k);
        doc.sources.lemma_domain(k);
        entries.lemma_views();
        doc.sources.lemma_views();
        pre.lemma_views();
        if entries.contents().contains_key(k) {
            let i = choose|i: int| 0 <= i < entries.spec_len() && entries.keys()[i] == k;
            assert(doc.sources.keys()[i] == k);
        }
        if doc.sources.contents().contains_key(k) {
            let i = choose|i: int| 0 <= i < doc.sources.spec_len() && doc.sources.keys()[i] == k;
            assert(entries.keys()[i] == k);
        }
    }
}

impl TextureSetAsset {
    /// Whether the pending sources stay inside the machine bounds the
    /// build needs; an asset that awaits no build trivially fits. A
    /// `false` is a load failure: the caller falls back to the default
    /// asset as for any other.
    pub fn build_fits(&self) -> (r: bool)
        requires
            self.wf(),
        ensures
            r == match self.pre_src {
                Some(p) => build_req(p),
                None => true,
            },
    {
        match &self.pre_src {
            None => true,
            Some(p) => {
                let ghost vals = p.vals();
                let n = p.len();
                let mut cells: u128 = 0;
                let mut width: u128 = 0;
                let mut i: usize = 0;
                while i < n
                    invariant
                        i <= n,
                        n == p.spec_len(),
                        cells as int == cells_before(vals, i as int),
                        width as int == width_before(vals, i as int),
                        cells as int <= (i as int) * 0xFFFF_FFFE_0000_0001,
                        width as int <= (i as int) * 0xFFFF_FFFF,
                    decreases n - i,
                {
                    let pair = p.pair_at(i);
                    proof {
                        assert((i as int) * 0xFFFF_FFFE_0000_0001 + 0xFFFF_FFFE_0000_0001 == (i
                            as int + 1) * 0xFFFF_FFFE_0000_0001) by (nonlinear_arith);
                        assert((i as int) * 0xFFFF_FFFF + 0xFFFF_FFFF == (i as int + 1)
                            * 0xFFFF_FFFF) by (nonlinear_arith);
                        assert((i as int + 1) * 0xFFFF_FFFE_0000_0001 <= 0xFFFF_FFFF_FFFF_FFFF
                            * 0xFFFF_FFFE_0000_0001int) by (nonlinear_arith)
                            requires
                                0 <= i as int + 1 <= 0xFFFF_FFFF_FFFF_FFFF,
                        ;
                        assert((i as int + 1) * 0xFFFF_FFFF <= 0xFFFF_FFFF_FFFF_FFFF
                            * 0xFFFF_FFFFint) by (nonlinear_arith)
                            requires
                                0 <= i as int + 1 <= 0xFFFF_FFFF_FFFF_FFFF,
                        ;
                    }
                    match &pair.1 {
                        PreSource::Texture { width: w, .. } => {
                            width = width + (*w as u128);
                        },
                        PreSource::TextureAtlas { width: w, rows, columns, .. } => {
                            proof {
                                assert((*rows as int) * (*columns as int)
                                    <= 0xFFFF_FFFE_0000_0001int) by (nonlinear_arith)
                                    requires
                                        0 <= *rows <= 0xFFFF_FFFFu32,
                                        0 <= *columns <= 0xFFFF_FFFFu32,
                                ;
                            }
                            width = width + (*w as u128);
                            cells = cells + (*rows as u128) * (*columns as u128);
                        },
                    }
                    i = i + 1;
                }
                cells <= usize::MAX as u128 && n as u128 <= usize::MAX as u128 - cells && width
                    <= u32::MAX as u128
            },
        }
    }

    /// Run the atlas build if the asset still awaits it: a one-time
    /// transition from pending to built. An already built asset is left
    /// untouched. Returns the atlas layout for the caller to blit, under
    /// the handle it passed in.
    pub fn check_or_build(&mut self, atlas_hdl: u64) -> (r: Option<Vec<Rect>>)
        requires
            old(self).wf(),
            match old(self).pre_src {
                Some(p) => build_req(p),
                None => true,
            },
        ensures
            final(self).wf(),
            old(self).is_built() ==> *final(self) == *old(self) && r is None,
            match old(self).pre_src {
                Some(p) => {
                    &&& final(self).is_built()
                    &&& final(self).pre_src is None
                    &&& final(self).main_atlas() == atlas_hdl
                    &&& final(self).default == old(self).default
                    &&& final(self).textures == old(self).textures
                    &&& match final(self).sources {
                        Some((h, d)) => d.keys() == p.keys() && d.spec_len() == p.spec_len()
                            && forall|i: int|
                            0 <= i < p.spec_len() ==> is_entry_for(
                                #[trigger] d.vals()[i],
                                p.vals(),
                                i,
                            ),
                        None => false,
                    }
                    &&& r matches Some(layout) && is_layout_for(layout@, p.vals())
                },
                None => *final(self) == *old(self) && r is None,
            },
    {
        if self.pre_src.is_none() {
            return None;
        }
        let built = match &self.pre_src {
            Some(p) => build(p),
            None => {
                proof {
                    assert(false);
                }
                (Vec::new(), Dict::new())
            },
        };
        let (layout, entries) = built;
        self.sources = Some((atlas_hdl, entries));
        self.pre_src = None;
        Some(layout)
    }
}

} // verus!
