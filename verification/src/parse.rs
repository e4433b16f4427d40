//! The descriptor parser: a texture-set document names its image sources
//! and a tree of tiles in a small declarative notation of parenthesized
//! records, `{ }` maps with quoted string keys, `[ ]` lists and named
//! enum variants, with `//` line comments and trailing commas allowed.
//!
//! A whole document reads as
//! `(sources: { "name": Texture(source: "a.png"), ... }, textures: { "name": Single(...), ... })`.
//! Either the whole document is valid and one descriptor comes back, or a
//! parse error names the position of the first fault; nothing is ever
//! produced partially.
use vstd::prelude::*;

use crate::dict::Dict;
use crate::tset::LinkV;
use crate::tset::SourceLink;
use crate::tset::link_v;
use crate::tset::Tile;
use crate::tset::TileGroup;
use crate::tset::group_wf;
use crate::tset::tile_wf;

verus! {

/// Why a document was rejected.
#[derive(Debug)]
pub enum ParseError {
    /// The document ended where more was required.
    UnexpectedEnd,
    /// The character at `pos` does not fit the grammar.
    Unexpected { pos: usize },
    /// A numeric literal at `pos` is malformed or too large.
    BadNumber { pos: usize },
    /// The variant name at `pos` is not one the document format knows.
    UnknownVariant { pos: usize },
    /// A record at `pos` lacks a required field.
    MissingField { pos: usize },
}

/// How a single declared source is interpreted: one plain image, or an
/// image holding a regular grid of `rows` by `columns` cells of
/// `tile_size` pixels each.
pub enum SourceConfig {
    TextureAtlas { source: String, rows: u32, columns: u32, tile_size: (u32, u32) },
    Texture { source: String },
}

/// A parsed texture-set document: the declared sources and the tile tree.
pub struct Descriptor {
    pub sources: Dict<SourceConfig>,
    pub textures: TileGroup,
}

impl Descriptor {
    /// Well-formed: unique names in every map of the document.
    pub open spec fn wf(&self) -> bool {
        self.sources.wf() && group_wf(self.textures)
    }
}

/// Whether `c` is blank space.
pub open spec fn ws_c(c: char) -> bool {
    c == ' ' || c == '\t' || c == '\n' || c == '\r'
}

/// Whether `c` may start an identifier.
pub open spec fn ident_start_c(c: char) -> bool {
    (97 <= c as u32 <= 122) || (65 <= c as u32 <= 90) || c == '_'
}

/// Whether `c` may continue an identifier.
pub open spec fn ident_c(c: char) -> bool {
    ident_start_c(c) || (48 <= c as u32 <= 57)
}

/// The value of `c` as a decimal digit, if it is one.
pub open spec fn digit_c(c: char) -> Option<int> {
    if 48 <= c as u32 <= 57 {
        Some(c as u32 - 48)
    } else {
        None
    }
}

/// The position after the blank space and `//` line comments from `i` on;
/// `in_comment` carries the scan through a comment's tail.
pub open spec fn sp_ws_from(p: Seq<char>, i: int, in_comment: bool) -> int
    decreases p.len() - i,
{
    if i < 0 || i >= p.len() {
        i
    } else if in_comment {
        sp_ws_from(p, i + 1, p[i] != '\n')
    } else if ws_c(p[i]) {
        sp_ws_from(p, i + 1, false)
    } else if p[i] == '/' && i + 1 < p.len() && p[i + 1] == '/' {
        sp_ws_from(p, i + 2, true)
    } else {
        i
    }
}

/// The position after the blank space and comments from `i` on.
pub open spec fn sp_ws(p: Seq<char>, i: int) -> int {
    sp_ws_from(p, i, false)
}

/// Where the required character `c` leaves the scan: just past it, or
/// nowhere.
pub open spec fn sp_expect(p: Seq<char>, i: int, c: char) -> Option<int> {
    let j = sp_ws(p, i);
    if j < p.len() && p[j] == c {
        Some(j + 1)
    } else {
        None
    }
}

/// Whether `c` comes next after blank space, and where the scan stands
/// afterwards.
pub open spec fn sp_try(p: Seq<char>, i: int, c: char) -> (bool, int) {
    let j = sp_ws(p, i);
    if j < p.len() && p[j] == c {
        (true, j + 1)
    } else {
        (false, i)
    }
}

/// The end of an identifier running from `k`.
pub open spec fn sp_ident_end(p: Seq<char>, k: int) -> int
    decreases p.len() - k,
{
    if 0 <= k < p.len() && ident_c(p[k]) {
        sp_ident_end(p, k + 1)
    } else {
        k
    }
}

/// The identifier at `i` (after blank space) and the position after it.
pub open spec fn sp_ident(p: Seq<char>, i: int) -> Option<(Seq<char>, int)> {
    let j = sp_ws(p, i);
    if j < p.len() && ident_start_c(p[j]) {
        let k = sp_ident_end(p, j + 1);
        Some((p.subrange(j, k), k))
    } else {
        None
    }
}

/// The end of a quoted string's body running from `k`: the position of
/// the closing quote, a rejected escape, or the text's end.
pub open spec fn sp_str_end(p: Seq<char>, k: int) -> int
    decreases p.len() - k,
{
    if 0 <= k < p.len() && p[k] != '"' && p[k] != '\\' {
        sp_str_end(p, k + 1)
    } else {
        k
    }
}

/// The quoted string at `i` (after blank space) and the position after
/// its closing quote.
pub open spec fn sp_string(p: Seq<char>, i: int) -> Option<(Seq<char>, int)> {
    match sp_expect(p, i, '"') {
        Some(j) => {
            let k = sp_str_end(p, j);
            if k < p.len() && p[k] == '"' {
                Some((p.subrange(j, k), k + 1))
            } else {
                None
            }
        },
        None => None,
    }
}

/// The whole part of a numeral from `k`: its value and end, or nothing
/// once the value leaves `u32`.
pub open spec fn sp_digits(p: Seq<char>, k: int, acc: int) -> Option<(int, int)>
    decreases p.len() - k,
{
    if 0 <= k < p.len() && digit_c(p[k]) is Some {
        let w = acc * 10 + digit_c(p[k]).unwrap();
        if w > u32::MAX {
            None
        } else {
            sp_digits(p, k + 1, w)
        }
    } else {
        Some((acc, k))
    }
}

/// The fraction digits of a numeral from `k`, in thousandths: the first
/// three digits weigh in, the rest are read and discarded.
pub open spec fn sp_frac(p: Seq<char>, k: int, milli: int, scale: int) -> (int, int)
    decreases p.len() - k,
{
    if 0 <= k < p.len() && digit_c(p[k]) is Some {
        if scale > 0 {
            sp_frac(p, k + 1, milli + digit_c(p[k]).unwrap() * scale, scale / 10)
        } else {
            sp_frac(p, k + 1, milli, 0)
        }
    } else {
        (milli, k)
    }
}

/// The decimal numeral at `i` (after blank space): whole part, fraction
/// in thousandths, and the position after it; nothing where no digit
/// stands or the whole part leaves `u32`.
pub open spec fn sp_decimal(p: Seq<char>, i: int) -> Option<((int, int), int)> {
    let j = sp_ws(p, i);
    if j >= p.len() {
        None
    } else {
        match sp_digits(p, j, 0) {
            Some((w, k)) => if k == j {
                None
            } else if k < p.len() && p[k] == '.' {
                let (m, k2) = sp_frac(p, k + 1, 0, 100);
                Some(((w, m), k2))
            } else {
                Some(((w, 0), k))
            },
            None => None,
        }
    }
}

/// The whole number at `i`: a decimal whose fraction, if written, is zero.
pub open spec fn sp_u32(p: Seq<char>, i: int) -> Option<(int, int)> {
    match sp_decimal(p, i) {
        Some(((w, m), k)) => if m == 0 {
            Some((w, k))
        } else {
            None
        },
        None => None,
    }
}

/// The `(x, y)` pair of whole numbers at `i` and the position after it.
pub open spec fn sp_pair(p: Seq<char>, i: int) -> Option<((int, int), int)> {
    match sp_expect(p, i, '(') {
        Some(j) => match sp_u32(p, j) {
            Some((x, j2)) => match sp_expect(p, j2, ',') {
                Some(j3) => match sp_u32(p, j3) {
                    Some((y, j4)) => {
                        let (c, j5) = sp_try(p, j4, ',');
                        match sp_expect(p, j5, ')') {
                            Some(j6) => Some(((x, y), j6)),
                            None => None,
                        }
                    },
                    None => None,
                },
                None => None,
            },
            None => None,
        },
        None => None,
    }
}

pub proof fn lemma_ws_bounds(p: Seq<char>, i: int, in_comment: bool)
    requires
        0 <= i <= p.len(),
    ensures
        i <= sp_ws_from(p, i, in_comment) <= p.len(),
    decreases p.len() - i,
{
    if i < p.len() {
        if in_comment {
            lemma_ws_bounds(p, i + 1, p[i] != '\n');
        } else if ws_c(p[i]) {
            lemma_ws_bounds(p, i + 1, false);
        } else if p[i] == '/' && i + 1 < p.len() && p[i + 1] == '/' {
            lemma_ws_bounds(p, i + 2, true);
        }
    }
}

pub proof fn lemma_ident_end_bounds(p: Seq<char>, k: int)
    requires
        0 <= k <= p.len(),
    ensures
        k <= sp_ident_end(p, k) <= p.len(),
    decreases p.len() - k,
{
    if k < p.len() && ident_c(p[k]) {
        lemma_ident_end_bounds(p, k + 1);
    }
}

pub proof fn lemma_str_end_bounds(p: Seq<char>, k: int)
    requires
        0 <= k <= p.len(),
    ensures
        k <= sp_str_end(p, k) <= p.len(),
    decreases p.len() - k,
{
    if k < p.len() && p[k] != '"' && p[k] != '\\' {
        lemma_str_end_bounds(p, k + 1);
    }
}

pub proof fn lemma_digits_bounds(p: Seq<char>, k: int, acc: int)
    requires
        0 <= k <= p.len(),
    ensures
        sp_digits(p, k, acc) matches Some(d) ==> k <= d.1 <= p.len(),
    decreases p.len() - k,
{
    if 0 <= k < p.len() && digit_c(p[k]) is Some {
        let w = acc * 10 + digit_c(p[k]).unwrap();
        if w <= u32::MAX {
            lemma_digits_bounds(p, k + 1, w);
        }
    }
}

pub proof fn lemma_frac_bounds(p: Seq<char>, k: int, milli: int, scale: int)
    requires
        0 <= k <= p.len(),
    ensures
        k <= sp_frac(p, k, milli, scale).1 <= p.len(),
    decreases p.len() - k,
{
    if 0 <= k < p.len() && digit_c(p[k]) is Some {
        if scale > 0 {
            lemma_frac_bounds(p, k + 1, milli + digit_c(p[k]).unwrap() * scale, scale / 10);
        } else {
            lemma_frac_bounds(p, k + 1, milli, 0);
        }
    }
}

/// Every sub-scan that returns a position returns one strictly past its
/// start and inside the text.
pub proof fn lemma_progress(p: Seq<char>, i: int)
    requires
        0 <= i <= p.len(),
    ensures
        sp_expect(p, i, '(') matches Some(j) ==> i < j <= p.len(),
        sp_expect(p, i, ':') matches Some(j) ==> i < j <= p.len(),
        sp_ident(p, i) matches Some(q) ==> i < q.1 <= p.len(),
        sp_string(p, i) matches Some(q) ==> i < q.1 <= p.len(),
        sp_u32(p, i) matches Some(q) ==> i < q.1 <= p.len(),
        sp_pair(p, i) matches Some(q) ==> i < q.1 <= p.len(),
        i <= sp_try(p, i, ',').1 <= p.len(),
        i <= sp_try(p, i, ')').1 <= p.len(),
{
    lemma_ws_bounds(p, i, false);
    let j = sp_ws(p, i);
    if sp_ident(p, i) is Some {
        lemma_ident_end_bounds(p, j + 1);
    }
    if sp_expect(p, i, '"') is Some {
        lemma_str_end_bounds(p, j + 1);
    }
    if sp_decimal(p, i) is Some {
        lemma_digits_bounds(p, j, 0);
        let k = sp_digits(p, j, 0).unwrap().1;
        if k < p.len() && p[k] == '.' {
            lemma_frac_bounds(p, k + 1, 0, 100);
        }
    }
    match sp_expect(p, i, '(') {
        Some(j1) => {
            lemma_progress_u32(p, j1);
            match sp_u32(p, j1) {
                Some((x, j2)) => {
                    lemma_ws_bounds(p, j2, false);
                    match sp_expect(p, j2, ',') {
                        Some(j3) => {
                            lemma_progress_u32(p, j3);
                            match sp_u32(p, j3) {
                                Some((y, j4)) => {
                                    lemma_ws_bounds(p, j4, false);
                                    let (c, j5) = sp_try(p, j4, ',');
                                    lemma_ws_bounds(p, j5, false);
                                },
                                None => {},
                            }
                        },
                        None => {},
                    }
                },
                None => {},
            }
        },
        None => {},
    }
}

/// A parsed whole number ends strictly past its start, inside the text.
pub proof fn lemma_progress_u32(p: Seq<char>, i: int)
    requires
        0 <= i <= p.len(),
    ensures
        sp_u32(p, i) matches Some(q) ==> i < q.1 <= p.len(),
{
    lemma_ws_bounds(p, i, false);
    let j = sp_ws(p, i);
    if sp_decimal(p, i) is Some {
        lemma_digits_bounds(p, j, 0);
        let k = sp_digits(p, j, 0).unwrap().1;
        if k < p.len() && p[k] == '.' {
            lemma_frac_bounds(p, k + 1, 0, 100);
        }
    }
}

/// The field records of a link from `j` on, given the slots filled so
/// far: the filled slots and the position after the closing parenthesis,
/// or nothing where a field repeats, is unknown, or is malformed.
pub open spec fn sp_link_fields(
    p: Seq<char>,
    j: int,
    src: Option<Seq<char>>,
    idx: Option<(int, int)>,
    grid: bool,
) -> Option<((Option<Seq<char>>, Option<(int, int)>), int)>
    decreases p.len() - j,
    when 0 <= j <= p.len()
    via sp_link_fields_dec
{
    if sp_try(p, j, ')').0 {
        Some(((src, idx), sp_try(p, j, ')').1))
    } else {
        match sp_ident(p, j) {
            None => None,
            Some((field, j3)) => match sp_expect(p, j3, ':') {
                None => None,
                Some(j4) => if field == "source"@ {
                    if src is Some {
                        None
                    } else {
                        match sp_string(p, j4) {
                            None => None,
                            Some((v, j5)) => sp_link_fields(
                                p,
                                sp_try(p, j5, ',').1,
                                Some(v),
                                idx,
                                grid,
                            ),
                        }
                    }
                } else if grid && field == "index"@ {
                    if idx is Some {
                        None
                    } else {
                        match sp_pair(p, j4) {
                            None => None,
                            Some((xy, j5)) => sp_link_fields(
                                p,
                                sp_try(p, j5, ',').1,
                                src,
                                Some(xy),
                                grid,
                            ),
                        }
                    }
                } else {
                    None
                },
            },
        }
    }
}

#[via_fn]
proof fn sp_link_fields_dec(
    p: Seq<char>,
    j: int,
    src: Option<Seq<char>>,
    idx: Option<(int, int)>,
    grid: bool,
) {
    lemma_progress(p, j);
    match sp_ident(p, j) {
        Some((field, j3)) => {
            lemma_progress(p, j3);
            match sp_expect(p, j3, ':') {
                Some(j4) => {
                    lemma_progress(p, j4);
                    match sp_string(p, j4) {
                        Some((v, j5)) => {
                            lemma_progress(p, j5);
                        },
                        None => {},
                    }
                    match sp_pair(p, j4) {
                        Some((xy, j5)) => {
                            lemma_progress(p, j5);
                        },
                        None => {},
                    }
                },
                None => {},
            }
        },
        None => {},
    }
}

/// The link at `i`: `Texture(source: "s")` or
/// `Atlas(source: "s", index: (x, y))`, fields in any order, and the
/// position after it.
pub open spec fn sp_link(p: Seq<char>, i: int) -> Option<(LinkV, int)> {
    match sp_ident(p, i) {
        None => None,
        Some((name, j)) => {
            let plain = name == "Texture"@;
            let grid = name == "Atlas"@;
            if !plain && !grid {
                None
            } else {
                match sp_expect(p, j, '(') {
                    None => None,
                    Some(j2) => match sp_link_fields(p, j2, None, None, grid) {
                        None => None,
                        Some(((srco, idxo), j3)) => match srco {
                            None => None,
                            Some(sv) => if plain {
                                Some((LinkV::Texture { source: sv }, j3))
                            } else {
                                match idxo {
                                    Some((x, y)) => Some(
                                        (
                                            LinkV::Atlas {
                                                source: sv,
                                                index: (x as u32, y as u32),
                                            },
                                            j3,
                                        ),
                                    ),
                                    None => None,
                                }
                            },
                        },
                    },
                }
            }
        },
    }
}

/// The mathematical value of a [`SourceConfig`]: the same data with the
/// path as a sequence of characters.
pub enum SourceConfigV {
    Grid { source: Seq<char>, rows: u32, columns: u32, tile_size: (u32, u32) },
    Plain { source: Seq<char> },
}

/// The value a [`SourceConfig`] denotes.
pub open spec fn config_v(c: SourceConfig) -> SourceConfigV {
    match c {
        SourceConfig::TextureAtlas { source, rows, columns, tile_size } => SourceConfigV::Grid {
            source: source@,
            rows,
            columns,
            tile_size,
        },
        SourceConfig::Texture { source } => SourceConfigV::Plain { source: source@ },
    }
}

/// The field records of a source declaration from `j` on, given the
/// slots filled so far.
pub open spec fn sp_config_fields(
    p: Seq<char>,
    j: int,
    src: Option<Seq<char>>,
    rows: Option<int>,
    cols: Option<int>,
    ts: Option<(int, int)>,
    grid: bool,
) -> Option<((Option<Seq<char>>, Option<int>, Option<int>, Option<(int, int)>), int)>
    decreases p.len() - j,
    when 0 <= j <= p.len()
    via sp_config_fields_dec
{
    if sp_try(p, j, ')').0 {
        Some(((src, rows, cols, ts), sp_try(p, j, ')').1))
    } else {
        match sp_ident(p, j) {
            None => None,
            Some((field, j3)) => match sp_expect(p, j3, ':') {
                None => None,
                Some(j4) => if field == "source"@ {
                    if src is Some {
                        None
                    } else {
                        match sp_string(p, j4) {
                            None => None,
                            Some((v, j5)) => sp_config_fields(
                                p,
                                sp_try(p, j5, ',').1,
                                Some(v),
                                rows,
                                cols,
                                ts,
                                grid,
                            ),
                        }
                    }
                } else if grid && field == "rows"@ {
                    if rows is Some {
                        None
                    } else {
                        match sp_u32(p, j4) {
                            None => None,
                            Some((v, j5)) => sp_config_fields(
                                p,
                                sp_try(p, j5, ',').1,
                                src,
                                Some(v),
                                cols,
                                ts,
                                grid,
                            ),
                        }
                    }
                } else if grid && field == "columns"@ {
                    if cols is Some {
                        None
                    } else {
                        match sp_u32(p, j4) {
                            None => None,
                            Some((v, j5)) => sp_config_fields(
                                p,
                                sp_try(p, j5, ',').1,
                                src,
                                rows,
                                Some(v),
                                ts,
                                grid,
                            ),
                        }
                    }
                } else if grid && field == "tile_size"@ {
                    if ts is Some {
                        None
                    } else {
                        match sp_pair(p, j4) {
                            None => None,
                            Some((xy, j5)) => sp_config_fields(
                                p,
                                sp_try(p, j5, ',').1,
                                src,
                                rows,
                                cols,
                                Some(xy),
                                grid,
                            ),
                        }
                    }
                } else {
                    None
                },
            },
        }
    }
}

#[via_fn]
proof fn sp_config_fields_dec(
    p: Seq<char>,
    j: int,
    src: Option<Seq<char>>,
    rows: Option<int>,
    cols: Option<int>,
    ts: Option<(int, int)>,
    grid: bool,
) {
    lemma_progress(p, j);
    match sp_ident(p, j) {
        Some((field, j3)) => {
            lemma_progress(p, j3);
            match sp_expect(p, j3, ':') {
                Some(j4) => {
                    lemma_progress(p, j4);
                    lemma_progress_u32(p, j4);
                    match sp_string(p, j4) {
                        Some((v, j5)) => {
                            lemma_progress(p, j5);
                        },
                        None => {},
                    }
                    match sp_u32(p, j4) {
                        Some((v, j5)) => {
                            lemma_progress(p, j5);
                        },
                        None => {},
                    }
                    match sp_pair(p, j4) {
                        Some((xy, j5)) => {
                            lemma_progress(p, j5);
                        },
                        None => {},
                    }
                },
                None => {},
            }
        },
        None => {},
    }
}

/// The source declaration at `i`: `Texture(source: "p")` or
/// `TextureAtlas(source: "p", rows: r, columns: c, tile_size: (w, h))`,
/// fields in any order, and the position after it.
pub open spec fn sp_config(p: Seq<char>, i: int) -> Option<(SourceConfigV, int)> {
    match sp_ident(p, i) {
        None => None,
        Some((name, j)) => {
            let plain = name == "Texture"@;
            let grid = name == "TextureAtlas"@;
            if !plain && !grid {
                None
            } else {
                match sp_expect(p, j, '(') {
                    None => None,
                    Some(j2) => match sp_config_fields(p, j2, None, None, None, None, grid) {
                        None => None,
                        Some(((srco, rowso, colso, tso), j3)) => match srco {
                            None => None,
                            Some(sv) => if plain {
                                Some((SourceConfigV::Plain { source: sv }, j3))
                            } else {
                                match (rowso, colso, tso) {
                                    (Some(r), Some(c), Some((w, h))) => Some(
                                        (
                                            SourceConfigV::Grid {
                                                source: sv,
                                                rows: r as u32,
                                                columns: c as u32,
                                                tile_size: (w as u32, h as u32),
                                            },
                                            j3,
                                        ),
                                    ),
                                    _ => None,
                                }
                            },
                        },
                    },
                }
            }
        },
    }
}

/// Whether `c` is blank space.
fn is_ws(c: char) -> (r: bool)
    ensures
        r == ws_c(c),
{
    c == ' ' || c == '\t' || c == '\n' || c == '\r'
}

/// Whether `c` may start an identifier.
fn is_ident_start(c: char) -> (r: bool)
    ensures
        r == ident_start_c(c),
{
    let u = c as u32;
    (97 <= u && u <= 122) || (65 <= u && u <= 90) || c == '_'
}

/// Whether `c` may continue an identifier.
fn is_ident_char(c: char) -> (r: bool)
    ensures
        r == ident_c(c),
{
    let u = c as u32;
    (97 <= u && u <= 122) || (65 <= u && u <= 90) || (48 <= u && u <= 57) || c == '_'
}

/// The value of `c` as a decimal digit, if it is one.
fn digit_of(c: char) -> (r: Option<u8>)
    ensures
        r matches Some(d) ==> digit_c(c) == Some(d as int),
        r is Some <==> digit_c(c) is Some,
{
    let u = c as u32;
    if 48 <= u && u <= 57 {
        Some((u - 48) as u8)
    } else {
        None
    }
}

/// Skip blank space and `//` line comments.
fn skip_ws(s: &str, n: usize, i: usize) -> (r: usize)
    requires
        n == s@.len(),
        i <= n,
    ensures
        i <= r <= n,
        r == sp_ws(s@, i as int),
{
    let mut j = i;
    loop
        invariant
            i <= j <= n,
            n == s@.len(),
            sp_ws(s@, i as int) == sp_ws_from(s@, j as int, false),
        decreases n - j,
    {
        if j >= n {
            return j;
        }
        let c = s.get_char(j);
        if is_ws(c) {
            j = j + 1;
        } else if c == '/' && j + 1 < n && s.get_char(j + 1) == '/' {
            let ghost j0 = j;
            j = j + 2;
            while j < n && s.get_char(j) != '\n'
                invariant
                    j0 + 2 <= j <= n,
                    n == s@.len(),
                    sp_ws(s@, i as int) == sp_ws_from(s@, j as int, true),
                decreases n - j,
            {
                j = j + 1;
            }
            proof {
                assert(sp_ws_from(s@, j as int, true) == sp_ws_from(s@, j as int, false));
            }
        } else {
            return j;
        }
    }
}

/// Require the character `c` next, after blank space.
fn expect(s: &str, n: usize, i: usize, c: char) -> (r: Result<usize, ParseError>)
    requires
        n == s@.len(),
        i <= n,
    ensures
        r matches Ok(j) ==> i < j <= n && sp_expect(s@, i as int, c) == Some(j as int),
        r is Err ==> sp_expect(s@, i as int, c) is None,
{
    let j = skip_ws(s, n, i);
    if j >= n {
        return Err(ParseError::UnexpectedEnd);
    }
    if s.get_char(j) == c {
        Ok(j + 1)
    } else {
        Err(ParseError::Unexpected { pos: j })
    }
}

/// Whether the character `c` comes next, after blank space; consumes it
/// if so.
fn try_consume(s: &str, n: usize, i: usize, c: char) -> (r: (bool, usize))
    requires
        n == s@.len(),
        i <= n,
    ensures
        i <= r.1 <= n,
        r.0 ==> i < r.1,
        r.0 == sp_try(s@, i as int, c).0,
        r.1 as int == sp_try(s@, i as int, c).1,
{
    let j = skip_ws(s, n, i);
    if j < n && s.get_char(j) == c {
        (true, j + 1)
    } else {
        (false, i)
    }
}

/// Parse an identifier such as a variant or field name.
fn parse_ident(s: &str, n: usize, i: usize) -> (r: Result<(String, usize), ParseError>)
    requires
        n == s@.len(),
        i <= n,
    ensures
        r matches Ok(p) ==> i < p.1 <= n && sp_ident(s@, i as int) == Some((p.0@, p.1 as int)),
        r is Err ==> sp_ident(s@, i as int) is None,
{
    let j = skip_ws(s, n, i);
    if j >= n {
        return Err(ParseError::UnexpectedEnd);
    }
    if !is_ident_start(s.get_char(j)) {
        return Err(ParseError::Unexpected { pos: j });
    }
    let mut k = j + 1;
    while k < n && is_ident_char(s.get_char(k))
        invariant
            j < k <= n,
            n == s@.len(),
            sp_ident_end(s@, j + 1) == sp_ident_end(s@, k as int),
        decreases n - k,
    {
        k = k + 1;
    }
    Ok((String::from_str(s.substring_char(j, k)), k))
}

/// Parse a quoted string; no escape sequences.
fn parse_string(s: &str, n: usize, i: usize) -> (r: Result<(String, usize), ParseError>)
    requires
        n == s@.len(),
        i <= n,
    ensures
        r matches Ok(p) ==> i < p.1 <= n && sp_string(s@, i as int) == Some((p.0@, p.1 as int)),
        r is Err ==> sp_string(s@, i as int) is None,
{
    let j = match expect(s, n, i, '"') {
        Ok(j) => j,
        Err(e) => {
            return Err(e);
        },
    };
    let mut k = j;
    while k < n && s.get_char(k) != '"' && s.get_char(k) != '\\'
        invariant
            j <= k <= n,
            n == s@.len(),
            sp_str_end(s@, j as int) == sp_str_end(s@, k as int),
        decreases n - k,
    {
        k = k + 1;
    }
    if k >= n {
        return Err(ParseError::UnexpectedEnd);
    }
    if s.get_char(k) == '\\' {
        return Err(ParseError::Unexpected { pos: k });
    }
    Ok((String::from_str(s.substring_char(j, k)), k + 1))
}

/// Parse a decimal numeral with an optional fraction, as a whole part and
/// a fraction in thousandths; fraction digits beyond the third are read
/// and discarded.
fn parse_decimal(s: &str, n: usize, i: usize) -> (r: Result<((u32, u32), usize), ParseError>)
    requires
        n == s@.len(),
        i <= n,
    ensures
        r matches Ok(p) ==> i < p.1 <= n && p.0.1 < 1000 && sp_decimal(s@, i as int) == Some(
            ((p.0.0 as int, p.0.1 as int), p.1 as int),
        ),
        r is Err ==> sp_decimal(s@, i as int) is None,
{
    let j = skip_ws(s, n, i);
    if j >= n {
        return Err(ParseError::UnexpectedEnd);
    }
    let mut k = j;
    let mut whole: u64 = 0;
    let mut any: bool = false;
    while k < n
        invariant
            j <= k <= n,
            n == s@.len(),
            whole <= u32::MAX as u64,
            any ==> j < k,
            any == (j < k),
            sp_digits(s@, j as int, 0) == sp_digits(s@, k as int, whole as int),
        decreases n - k,
    {
        match digit_of(s.get_char(k)) {
            Some(d) => {
                whole = whole * 10 + (d as u64);
                if whole > u32::MAX as u64 {
                    return Err(ParseError::BadNumber { pos: j });
                }
                any = true;
                k = k + 1;
            },
            None => {
                break ;
            },
        }
    }
    proof {
        assert(sp_digits(s@, k as int, whole as int) == Some((whole as int, k as int)));
    }
    if !any {
        return Err(ParseError::BadNumber { pos: j });
    }
    let mut milli: u32 = 0;
    if k < n && s.get_char(k) == '.' {
        let ghost k0 = k + 1;
        k = k + 1;
        let mut scale: u32 = 100;
        while k < n
            invariant
                j < k <= n,
                k0 <= k,
                n == s@.len(),
                (scale == 100 && milli == 0) || (scale == 10 && milli <= 900) || (scale == 1
                    && milli <= 990) || (scale == 0 && milli <= 999),
                sp_frac(s@, k0 as int, 0, 100) == sp_frac(
                    s@,
                    k as int,
                    milli as int,
                    scale as int,
                ),
            decreases n - k,
        {
            match digit_of(s.get_char(k)) {
                Some(d) => {
                    if scale > 0 {
                        milli = milli + (d as u32) * scale;
                        scale = scale / 10;
                    }
                    k = k + 1;
                },
                None => {
                    break ;
                },
            }
        }
        proof {
            assert(sp_frac(s@, k as int, milli as int, scale as int) == (milli as int, k as int));
        }
    }
    Ok(((whole as u32, milli), k))
}

/// Parse a whole number: a decimal whose fraction, if written, is zero.
fn parse_u32(s: &str, n: usize, i: usize) -> (r: Result<(u32, usize), ParseError>)
    requires
        n == s@.len(),
        i <= n,
    ensures
        r matches Ok(p) ==> i < p.1 <= n && sp_u32(s@, i as int) == Some((p.0 as int, p.1 as int)),
        r is Err ==> sp_u32(s@, i as int) is None,
{
    match parse_decimal(s, n, i) {
        Ok(((whole, milli), k)) => {
            if milli != 0 {
                Err(ParseError::BadNumber { pos: i })
            } else {
                Ok((whole, k))
            }
        },
        Err(e) => Err(e),
    }
}

/// Parse a `(x, y)` pair of whole numbers.
fn parse_pair(s: &str, n: usize, i: usize) -> (r: Result<((u32, u32), usize), ParseError>)
    requires
        n == s@.len(),
        i <= n,
    ensures
        r matches Ok(p) ==> i < p.1 <= n && sp_pair(s@, i as int) == Some(
            ((p.0.0 as int, p.0.1 as int), p.1 as int),
        ),
        r is Err ==> sp_pair(s@, i as int) is None,
{
    let j = match expect(s, n, i, '(') {
        Ok(j) => j,
        Err(e) => {
            return Err(e);
        },
    };
    let (x, j) = match parse_u32(s, n, j) {
        Ok(p) => p,
        Err(e) => {
            return Err(e);
        },
    };
    let j = match expect(s, n, j, ',') {
        Ok(j) => j,
        Err(e) => {
            return Err(e);
        },
    };
    let (y, j) = match parse_u32(s, n, j) {
        Ok(p) => p,
        Err(e) => {
            return Err(e);
        },
    };
    let (_, j) = try_consume(s, n, j, ',');
    let j = match expect(s, n, j, ')') {
        Ok(j) => j,
        Err(e) => {
            return Err(e);
        },
    };
    Ok(((x, y), j))
}

/// Parse a source declaration: `Texture(source: "p")` or
/// `TextureAtlas(source: "p", rows: r, columns: c, tile_size: (w, h))`,
/// fields in any order.
fn parse_source_config(s: &str, n: usize, i: usize) -> (r: Result<
    (SourceConfig, usize),
    ParseError,
>)
    requires
        n == s@.len(),
        i <= n,
    ensures
        r matches Ok(p) ==> i < p.1 <= n && sp_config(s@, i as int) == Some(
            (config_v(p.0), p.1 as int),
        ),
        r is Err ==> sp_config(s@, i as int) is None,
{
    let (name, j) = match parse_ident(s, n, i) {
        Ok(p) => p,
        Err(e) => {
            return Err(e);
        },
    };
    let plain = crate::dict::str_eq(name.as_str(), "Texture");
    let grid = crate::dict::str_eq(name.as_str(), "TextureAtlas");
    if !plain && !grid {
        return Err(ParseError::UnknownVariant { pos: i });
    }
    let mut j = match expect(s, n, j, '(') {
        Ok(j) => j,
        Err(e) => {
            return Err(e);
        },
    };
    let ghost j0 = j as int;
    let mut source: Option<String> = None;
    let mut rows: Option<u32> = None;
    let mut columns: Option<u32> = None;
    let mut tile_size: Option<(u32, u32)> = None;
    loop
        invariant
            i < j <= n,
            n == s@.len(),
            sp_config_fields(s@, j0, None, None, None, None, grid) == sp_config_fields(
                s@,
                j as int,
                match source {
                    Some(ref v) => Some(v@),
                    None => None,
                },
                match rows {
                    Some(v) => Some(v as int),
                    None => None,
                },
                match columns {
                    Some(v) => Some(v as int),
                    None => None,
                },
                match tile_size {
                    Some(v) => Some((v.0 as int, v.1 as int)),
                    None => None,
                },
                grid,
            ),
            sp_config(s@, i as int) == match sp_config_fields(s@, j0, None, None, None, None, grid) {
                None => None,
                Some(((srco, rowso, colso, tso), j3)) => match srco {
                    None => None,
                    Some(sv) => if name@ == "Texture"@ {
                        Some((SourceConfigV::Plain { source: sv }, j3))
                    } else {
                        match (rowso, colso, tso) {
                            (Some(rr), Some(cc), Some((w, h))) => Some(
                                (
                                    SourceConfigV::Grid {
                                        source: sv,
                                        rows: rr as u32,
                                        columns: cc as u32,
                                        tile_size: (w as u32, h as u32),
                                    },
                                    j3,
                                ),
                            ),
                            _ => None,
                        }
                    },
                },
            },
            plain == (name@ == "Texture"@),
            grid == (name@ == "TextureAtlas"@),
            plain || grid,
        decreases n - j,
    {
        let ghost svw: Option<Seq<char>> = match source {
            Some(ref v) => Some(v@),
            None => None,
        };
        let ghost rw: Option<int> = match rows {
            Some(v) => Some(v as int),
            None => None,
        };
        let ghost cw: Option<int> = match columns {
            Some(v) => Some(v as int),
            None => None,
        };
        let ghost tw: Option<(int, int)> = match tile_size {
            Some(v) => Some((v.0 as int, v.1 as int)),
            None => None,
        };
        let (done, j2) = try_consume(s, n, j, ')');
        if done {
            proof {
                assert(sp_config_fields(s@, j as int, svw, rw, cw, tw, grid) == Some(
                    ((svw, rw, cw, tw), j2 as int),
                ));
            }
            j = j2;
            break ;
        }
        let (field, j3) = match parse_ident(s, n, j) {
            Ok(p) => p,
            Err(e) => {
                proof {
                    assert(sp_config_fields(s@, j as int, svw, rw, cw, tw, grid) is None);
                }
                return Err(e);
            },
        };
        let j4 = match expect(s, n, j3, ':') {
            Ok(j) => j,
            Err(e) => {
                proof {
                    assert(sp_config_fields(s@, j as int, svw, rw, cw, tw, grid) is None);
                }
                return Err(e);
            },
        };
        let mut j5: usize = j4;
        if crate::dict::str_eq(field.as_str(), "source") {
            if source.is_some() {
                proof {
                    assert(sp_config_fields(s@, j as int, svw, rw, cw, tw, grid) is None);
                }
                return Err(ParseError::Unexpected { pos: j });
            }
            let (v, j6) = match parse_string(s, n, j4) {
                Ok(p) => p,
                Err(e) => {
                    proof {
                        assert(sp_config_fields(s@, j as int, svw, rw, cw, tw, grid) is None);
                    }
                    return Err(e);
                },
            };
            proof {
                lemma_progress(s@, j6 as int);
                assert(sp_config_fields(s@, j as int, svw, rw, cw, tw, grid) == sp_config_fields(
                    s@,
                    sp_try(s@, j6 as int, ',').1,
                    Some(v@),
                    rw,
                    cw,
                    tw,
                    grid,
                ));
            }
            source = Some(v);
            j5 = j6;
        } else if grid && crate::dict::str_eq(field.as_str(), "rows") {
            if rows.is_some() {
                proof {
                    assert(sp_config_fields(s@, j as int, svw, rw, cw, tw, grid) is None);
                }
                return Err(ParseError::Unexpected { pos: j });
            }
            let (v, j6) = match parse_u32(s, n, j4) {
                Ok(p) => p,
                Err(e) => {
                    proof {
                        assert(sp_config_fields(s@, j as int, svw, rw, cw, tw, grid) is None);
                    }
                    return Err(e);
                },
            };
            proof {
                lemma_progress(s@, j6 as int);
                assert(sp_config_fields(s@, j as int, svw, rw, cw, tw, grid) == sp_config_fields(
                    s@,
                    sp_try(s@, j6 as int, ',').1,
                    svw,
                    Some(v as int),
                    cw,
                    tw,
                    grid,
                ));
            }
            rows = Some(v);
            j5 = j6;
        } else if grid && crate::dict::str_eq(field.as_str(), "columns") {
            if columns.is_some() {
                proof {
                    assert(sp_config_fields(s@, j as int, svw, rw, cw, tw, grid) is None);
                }
                return Err(ParseError::Unexpected { pos: j });
            }
            let (v, j6) = match parse_u32(s, n, j4) {
                Ok(p) => p,
                Err(e) => {
                    proof {
                        assert(sp_config_fields(s@, j as int, svw, rw, cw, tw, grid) is None);
                    }
                    return Err(e);
                },
            };
            proof {
                lemma_progress(s@, j6 as int);
                assert(sp_config_fields(s@, j as int, svw, rw, cw, tw, grid) == sp_config_fields(
                    s@,
                    sp_try(s@, j6 as int, ',').1,
                    svw,
                    rw,
                    Some(v as int),
                    tw,
                    grid,
                ));
            }
            columns = Some(v);
            j5 = j6;
        } else if grid && crate::dict::str_eq(field.as_str(), "tile_size") {
            if tile_size.is_some() {
                proof {
                    assert(sp_config_fields(s@, j as int, svw, rw, cw, tw, grid) is None);
                }
                return Err(ParseError::Unexpected { pos: j });
            }
            let (v, j6) = match parse_pair(s, n, j4) {
                Ok(p) => p,
                Err(e) => {
                    proof {
                        assert(sp_config_fields(s@, j as int, svw, rw, cw, tw, grid) is None);
                    }
                    return Err(e);
                },
            };
            proof {
                lemma_progress(s@, j6 as int);
                assert(sp_config_fields(s@, j as int, svw, rw, cw, tw, grid) == sp_config_fields(
                    s@,
                    sp_try(s@, j6 as int, ',').1,
                    svw,
                    rw,
                    cw,
                    Some((v.0 as int, v.1 as int)),
                    grid,
                ));
            }
            tile_size = Some(v);
            j5 = j6;
        } else {
            proof {
                assert(sp_config_fields(s@, j as int, svw, rw, cw, tw, grid) is None);
            }
            return Err(ParseError::Unexpected { pos: j });
        }
        let (_, j7) = try_consume(s, n, j5, ',');
        j = j7;
    }
    let src = match source {
        Some(v) => v,
        None => {
            return Err(ParseError::MissingField { pos: i });
        },
    };
    if plain {
        Ok((SourceConfig::Texture { source: src }, j))
    } else {
        let r = match rows {
            Some(v) => v,
            None => {
                return Err(ParseError::MissingField { pos: i });
            },
        };
        let c = match columns {
            Some(v) => v,
            None => {
                return Err(ParseError::MissingField { pos: i });
            },
        };
        let ts = match tile_size {
            Some(v) => v,
            None => {
                return Err(ParseError::MissingField { pos: i });
            },
        };
        Ok((SourceConfig::TextureAtlas { source: src, rows: r, columns: c, tile_size: ts }, j))
    }
}

/// Parse a tile-to-source link: `Texture(source: "name")` or
/// `Atlas(source: "name", index: (column, row))`, fields in any order.
fn parse_link(s: &str, n: usize, i: usize) -> (r: Result<(SourceLink, usize), ParseError>)
    requires
        n == s@.len(),
        i <= n,
    ensures
        r matches Ok(p) ==> i < p.1 <= n && sp_link(s@, i as int) == Some((link_v(p.0), p.1 as int)),
        r is Err ==> sp_link(s@, i as int) is None,
{
    let (name, j) = match parse_ident(s, n, i) {
        Ok(p) => p,
        Err(e) => {
            return Err(e);
        },
    };
    let plain = crate::dict::str_eq(name.as_str(), "Texture");
    let grid = crate::dict::str_eq(name.as_str(), "Atlas");
    if !plain && !grid {
        return Err(ParseError::UnknownVariant { pos: i });
    }
    let mut j = match expect(s, n, j, '(') {
        Ok(j) => j,
        Err(e) => {
            return Err(e);
        },
    };
    let ghost j0 = j as int;
    let mut source: Option<String> = None;
    let mut index: Option<(u32, u32)> = None;
    loop
        invariant
            i < j <= n,
            n == s@.len(),
            sp_link_fields(s@, j0, None, None, grid) == sp_link_fields(
                s@,
                j as int,
                match source {
                    Some(v) => Some(v@),
                    None => None,
                },
                match index {
                    Some(x) => Some((x.0 as int, x.1 as int)),
                    None => None,
                },
                grid,
            ),
            sp_link(s@, i as int) == match sp_link_fields(s@, j0, None, None, grid) {
                None => None,
                Some(((srco, idxo), j3)) => match srco {
                    None => None,
                    Some(sv) => if name@ == "Texture"@ {
                        Some((LinkV::Texture { source: sv }, j3))
                    } else {
                        match idxo {
                            Some((x, y)) => Some(
                                (
                                    LinkV::Atlas { source: sv, index: (x as u32, y as u32) },
                                    j3,
                                ),
                            ),
                            None => None,
                        }
                    },
                },
            },
            plain == (name@ == "Texture"@),
            grid == (name@ == "Atlas"@),
            plain || grid,
        decreases n - j,
    {
        let ghost svw: Option<Seq<char>> = match source {
            Some(ref v) => Some(v@),
            None => None,
        };
        let ghost ixw: Option<(int, int)> = match index {
            Some(ref x) => Some((x.0 as int, x.1 as int)),
            None => None,
        };
        let (done, j2) = try_consume(s, n, j, ')');
        if done {
            proof {
                assert(sp_link_fields(s@, j as int, svw, ixw, grid) == Some(
                    ((svw, ixw), j2 as int),
                ));
            }
            j = j2;
            break ;
        }
        let (field, j3) = match parse_ident(s, n, j) {
            Ok(p) => p,
            Err(e) => {
                proof {
                    assert(sp_link_fields(s@, j as int, svw, ixw, grid) is None);
                }
                return Err(e);
            },
        };
        let j4 = match expect(s, n, j3, ':') {
            Ok(j) => j,
            Err(e) => {
                proof {
                    assert(sp_link_fields(s@, j as int, svw, ixw, grid) is None);
                }
                return Err(e);
            },
        };
        let mut j5: usize = j4;
        if crate::dict::str_eq(field.as_str(), "source") {
            if source.is_some() {
                proof {
                    assert(sp_link_fields(s@, j as int, svw, ixw, grid) is None);
                }
                return Err(ParseError::Unexpected { pos: j });
            }
            let (v, j6) = match parse_string(s, n, j4) {
                Ok(p) => p,
                Err(e) => {
                    proof {
                        assert(sp_link_fields(s@, j as int, svw, ixw, grid) is None);
                    }
                    return Err(e);
                },
            };
            proof {
                reveal_with_fuel(sp_link_fields, 2);
                assert(sp_try(s@, j as int, ')').0 == false);
                assert(sp_ident(s@, j as int) == Some((field@, j3 as int)));
                assert(sp_expect(s@, j3 as int, ':') == Some(j4 as int));
                assert(field@ == "source"@);
                assert(svw is None);
                assert(sp_string(s@, j4 as int) == Some((v@, j6 as int)));
                lemma_progress(s@, j6 as int);
                assert(sp_link_fields(s@, j as int, svw, ixw, grid) == sp_link_fields(
                    s@,
                    sp_try(s@, j6 as int, ',').1,
                    Some(v@),
                    ixw,
                    grid,
                ));
            }
            source = Some(v);
            j5 = j6;
        } else if grid && crate::dict::str_eq(field.as_str(), "index") {
            if index.is_some() {
                proof {
                    assert(sp_link_fields(s@, j as int, svw, ixw, grid) is None);
                }
                return Err(ParseError::Unexpected { pos: j });
            }
            let (v, j6) = match parse_pair(s, n, j4) {
                Ok(p) => p,
                Err(e) => {
                    proof {
                        assert(sp_link_fields(s@, j as int, svw, ixw, grid) is None);
                    }
                    return Err(e);
                },
            };
            proof {
                reveal_with_fuel(sp_link_fields, 2);
                lemma_progress(s@, j6 as int);
                assert(sp_link_fields(s@, j as int, svw, ixw, grid) == sp_link_fields(
                    s@,
                    sp_try(s@, j6 as int, ',').1,
                    svw,
                    Some((v.0 as int, v.1 as int)),
                    grid,
                ));
            }
            index = Some(v);
            j5 = j6;
        } else {
            proof {
                assert(sp_link_fields(s@, j as int, svw, ixw, grid) is None);
            }
            return Err(ParseError::Unexpected { pos: j });
        }
        let (_, j7) = try_consume(s, n, j5, ',');
        j = j7;
    }
    let src = match source {
        Some(v) => v,
        None => {
            return Err(ParseError::MissingField { pos: i });
        },
    };
    if plain {
        Ok((SourceLink::Texture { source: src }, j))
    } else {
        match index {
            Some(ix) => Ok((SourceLink::Atlas { source: src, index: ix }, j)),
            None => Err(ParseError::MissingField { pos: i }),
        }
    }
}

/// Parse a `{ "name": link, ... }` map of variant links.
fn parse_link_map(s: &str, n: usize, i: usize) -> (r: Result<(Dict<SourceLink>, usize), ParseError>)
    requires
        n == s@.len(),
        i <= n,
    ensures
        r matches Ok(p) ==> i < p.1 <= n && p.0.wf(),
{
    let mut j = match expect(s, n, i, '{') {
        Ok(j) => j,
        Err(e) => {
            return Err(e);
        },
    };
    let mut d: Dict<SourceLink> = Dict::new();
    loop
        invariant
            i < j <= n,
            n == s@.len(),
            d.wf(),
        decreases n - j,
    {
        let (done, j2) = try_consume(s, n, j, '}');
        if done {
            j = j2;
            break ;
        }
        let (key, j3) = match parse_string(s, n, j) {
            Ok(p) => p,
            Err(e) => {
                return Err(e);
            },
        };
        let j4 = match expect(s, n, j3, ':') {
            Ok(j) => j,
            Err(e) => {
                return Err(e);
            },
        };
        let (v, j5) = match parse_link(s, n, j4) {
            Ok(p) => p,
            Err(e) => {
                return Err(e);
            },
        };
        d.insert(key, v);
        let (_, j6) = try_consume(s, n, j5, ',');
        j = j6;
    }
    Ok((d, j))
}

/// Parse one tile node: `Single(link)`, `Animated(frames: [link, ...],
/// speed: v)`, `Variant(variants: { "name": link, ... })` or
/// `Group({ "name": tile, ... })`.
fn parse_tile(s: &str, n: usize, i: usize) -> (r: Result<(Tile, usize), ParseError>)
    requires
        n == s@.len(),
        i <= n,
    ensures
        r matches Ok(p) ==> i < p.1 <= n && tile_wf(p.0),
    decreases n - i, 1int,
{
    let (name, j) = match parse_ident(s, n, i) {
        Ok(p) => p,
        Err(e) => {
            return Err(e);
        },
    };
    if crate::dict::str_eq(name.as_str(), "Single") {
        let j = match expect(s, n, j, '(') {
            Ok(j) => j,
            Err(e) => {
                return Err(e);
            },
        };
        let (l, j) = match parse_link(s, n, j) {
            Ok(p) => p,
            Err(e) => {
                return Err(e);
            },
        };
        let j = match expect(s, n, j, ')') {
            Ok(j) => j,
            Err(e) => {
                return Err(e);
            },
        };
        Ok((Tile::Single(l), j))
    } else if crate::dict::str_eq(name.as_str(), "Variant") {
        let j = match expect(s, n, j, '(') {
            Ok(j) => j,
            Err(e) => {
                return Err(e);
            },
        };
        let (field, j) = match parse_ident(s, n, j) {
            Ok(p) => p,
            Err(e) => {
                return Err(e);
            },
        };
        if !crate::dict::str_eq(field.as_str(), "variants") {
            return Err(ParseError::Unexpected { pos: i });
        }
        let j = match expect(s, n, j, ':') {
            Ok(j) => j,
            Err(e) => {
                return Err(e);
            },
        };
        let (d, j) = match parse_link_map(s, n, j) {
            Ok(p) => p,
            Err(e) => {
                return Err(e);
            },
        };
        let (_, j) = try_consume(s, n, j, ',');
        let j = match expect(s, n, j, ')') {
            Ok(j) => j,
            Err(e) => {
                return Err(e);
            },
        };
        Ok((Tile::Variant { variants: d }, j))
    } else if crate::dict::str_eq(name.as_str(), "Animated") {
        let mut j = match expect(s, n, j, '(') {
            Ok(j) => j,
            Err(e) => {
                return Err(e);
            },
        };
        let mut frames: Option<Vec<SourceLink>> = None;
        let mut speed: Option<u32> = None;
        loop
            invariant
                i < j <= n,
                n == s@.len(),
            decreases n - j,
        {
            let (done, j2) = try_consume(s, n, j, ')');
            if done {
                j = j2;
                break ;
            }
            let (field, j3) = match parse_ident(s, n, j) {
                Ok(p) => p,
                Err(e) => {
                    return Err(e);
                },
            };
            let j4 = match expect(s, n, j3, ':') {
                Ok(j) => j,
                Err(e) => {
                    return Err(e);
                },
            };
            let mut j5: usize = j4;
            if crate::dict::str_eq(field.as_str(), "frames") {
                if frames.is_some() {
                    return Err(ParseError::Unexpected { pos: j });
                }
                let mut j6 = match expect(s, n, j4, '[') {
                    Ok(j) => j,
                    Err(e) => {
                        return Err(e);
                    },
                };
                let mut fs: Vec<SourceLink> = Vec::new();
                loop
                    invariant
                        j4 < j6 <= n,
                        n == s@.len(),
                    decreases n - j6,
                {
                    let (done2, j7) = try_consume(s, n, j6, ']');
                    if done2 {
                        j6 = j7;
                        break ;
                    }
                    let (l, j8) = match parse_link(s, n, j6) {
                        Ok(p) => p,
                        Err(e) => {
                            return Err(e);
                        },
                    };
                    fs.push(l);
                    let (_, j9) = try_consume(s, n, j8, ',');
                    j6 = j9;
                }
                frames = Some(fs);
                j5 = j6;
            } else if crate::dict::str_eq(field.as_str(), "speed") {
                if speed.is_some() {
                    return Err(ParseError::Unexpected { pos: j });
                }
                let (v, j6) = match parse_decimal(s, n, j4) {
                    Ok(p) => p,
                    Err(e) => {
                        return Err(e);
                    },
                };
                if v.0 > (u32::MAX - v.1) / 1000 {
                    return Err(ParseError::BadNumber { pos: j });
                }
                speed = Some(v.0 * 1000 + v.1);
                j5 = j6;
            } else {
                return Err(ParseError::Unexpected { pos: j });
            }
            let (_, j7) = try_consume(s, n, j5, ',');
            j = j7;
        }
        let fs = match frames {
            Some(v) => v,
            None => {
                return Err(ParseError::MissingField { pos: i });
            },
        };
        let sp = match speed {
            Some(v) => v,
            None => {
                return Err(ParseError::MissingField { pos: i });
            },
        };
        Ok((Tile::Animated { frames: fs, speed: sp }, j))
    } else if crate::dict::str_eq(name.as_str(), "Group") {
        let j = match expect(s, n, j, '(') {
            Ok(j) => j,
            Err(e) => {
                return Err(e);
            },
        };
        let (d, j) = match parse_tile_map(s, n, j) {
            Ok(p) => p,
            Err(e) => {
                return Err(e);
            },
        };
        let (_, j) = try_consume(s, n, j, ',');
        let j = match expect(s, n, j, ')') {
            Ok(j) => j,
            Err(e) => {
                return Err(e);
            },
        };
        Ok((Tile::Group(d), j))
    } else {
        Err(ParseError::UnknownVariant { pos: i })
    }
}

/// Parse a `{ "name": tile, ... }` map of tiles, as both the `textures`
/// section and every `Group` hold one.
fn parse_tile_map(s: &str, n: usize, i: usize) -> (r: Result<(TileGroup, usize), ParseError>)
    requires
        n == s@.len(),
        i <= n,
    ensures
        r matches Ok(p) ==> i < p.1 <= n && group_wf(p.0),
    decreases n - i, 0int,
{
    let mut j = match expect(s, n, i, '{') {
        Ok(j) => j,
        Err(e) => {
            return Err(e);
        },
    };
    let mut d: TileGroup = Dict::new();
    loop
        invariant
            i < j <= n,
            n == s@.len(),
            d.wf(),
            forall|k: int| 0 <= k < d.spec_len() ==> tile_wf(#[trigger] d.vals()[k]),
        decreases n - j,
    {
        let (done, j2) = try_consume(s, n, j, '}');
        if done {
            j = j2;
            break ;
        }
        let (key, j3) = match parse_string(s, n, j) {
            Ok(p) => p,
            Err(e) => {
                return Err(e);
            },
        };
        let j4 = match expect(s, n, j3, ':') {
            Ok(j) => j,
            Err(e) => {
                return Err(e);
            },
        };
        let (v, j5) = match parse_tile(s, n, j4) {
            Ok(p) => p,
            Err(e) => {
                return Err(e);
            },
        };
        let ghost d0 = d;
        proof {
            d.lemma_domain(key@);
        }
        d.insert(key, v);
        proof {
            d.lemma_views();
            d0.lemma_views();
            if d0.contents().contains_key(key@) {
                let ix = choose|ix: int|
                    0 <= ix < d0.spec_len() && d0.keys()[ix] == key@ && d.vals()
                        == d0.vals().update(ix, v);
                assert(forall|k: int|
                    0 <= k < d.spec_len() ==> tile_wf(#[trigger] d.vals()[k]));
            } else {
                assert(d.vals() == d0.vals().push(v));
                assert(forall|k: int|
                    0 <= k < d.spec_len() ==> tile_wf(#[trigger] d.vals()[k]));
            }
        }
        let (_, j6) = try_consume(s, n, j5, ',');
        j = j6;
    }
    proof {
        d.lemma_views();
        assert forall|k: int| 0 <= k < d.pairs@.len() implies tile_wf(
            #[trigger] d.pairs@[k].1,
        ) by {
            assert(d.vals()[k] == d.pairs@[k].1);
            assert(tile_wf(d.vals()[k]));
        }
    }
    Ok((d, j))
}

/// Parse a whole texture-set document. Either the whole document is valid
/// and the descriptor comes back, or the first fault is reported; nothing
/// is produced partially, and nothing else is touched.
pub fn parse(text: &str) -> (r: Result<Descriptor, ParseError>)
    ensures
        r matches Ok(doc) ==> doc.wf(),
{
    let n = text.unicode_len();
    let mut i: usize = skip_ws(text, n, 0);
    // An optional leading record name before the opening parenthesis.
    if i < n && is_ident_start(text.get_char(i)) {
        let (_, j) = match parse_ident(text, n, i) {
            Ok(p) => p,
            Err(e) => {
                return Err(e);
            },
        };
        i = j;
    }
    let mut j = match expect(text, n, i, '(') {
        Ok(j) => j,
        Err(e) => {
            return Err(e);
        },
    };
    let mut sources: Option<Dict<SourceConfig>> = None;
    let mut textures: Option<TileGroup> = None;
    loop
        invariant
            i < j <= n,
            n == text@.len(),
            match sources {
                Some(d) => d.wf(),
                None => true,
            },
            match textures {
                Some(d) => group_wf(d),
                None => true,
            },
        decreases n - j,
    {
        let (done, j2) = try_consume(text, n, j, ')');
        if done {
            j = j2;
            break ;
        }
        let (field, j3) = match parse_ident(text, n, j) {
            Ok(p) => p,
            Err(e) => {
                return Err(e);
            },
        };
        let j4 = match expect(text, n, j3, ':') {
            Ok(j) => j,
            Err(e) => {
                return Err(e);
            },
        };
        let mut j5: usize = j4;
        if crate::dict::str_eq(field.as_str(), "sources") {
            if sources.is_some() {
                return Err(ParseError::Unexpected { pos: j });
            }
            let mut j6 = match expect(text, n, j4, '{') {
                Ok(j) => j,
                Err(e) => {
                    return Err(e);
                },
            };
            let mut d: Dict<SourceConfig> = Dict::new();
            loop
                invariant
                    j4 < j6 <= n,
                    n == text@.len(),
                    d.wf(),
                decreases n - j6,
            {
                let (done2, j7) = try_consume(text, n, j6, '}');
                if done2 {
                    j6 = j7;
                    break ;
                }
                let (key, j8) = match parse_string(text, n, j6) {
                    Ok(p) => p,
                    Err(e) => {
                        return Err(e);
                    },
                };
                let j9 = match expect(text, n, j8, ':') {
                    Ok(j) => j,
                    Err(e) => {
                        return Err(e);
                    },
                };
                let (v, j10) = match parse_source_config(text, n, j9) {
                    Ok(p) => p,
                    Err(e) => {
                        return Err(e);
                    },
                };
                d.insert(key, v);
                let (_, j11) = try_consume(text, n, j10, ',');
                j6 = j11;
            }
            sources = Some(d);
            j5 = j6;
        } else if crate::dict::str_eq(field.as_str(), "textures") {
            if textures.is_some() {
                return Err(ParseError::Unexpected { pos: j });
            }
            let (d, j6) = match parse_tile_map(text, n, j4) {
                Ok(p) => p,
                Err(e) => {
                    return Err(e);
                },
            };
            textures = Some(d);
            j5 = j6;
        } else {
            return Err(ParseError::Unexpected { pos: j });
        }
        let (_, j7) = try_consume(text, n, j5, ',');
        j = j7;
    }
    let i2 = skip_ws(text, n, j);
    if i2 < n {
        return Err(ParseError::Unexpected { pos: i2 });
    }
    let srcs = match sources {
        Some(d) => d,
        None => {
            return Err(ParseError::MissingField { pos: 0 });
        },
    };
    let texs = match textures {
        Some(d) => d,
        None => {
            return Err(ParseError::MissingField { pos: 0 });
        },
    };
    Ok(Descriptor { sources: srcs, textures: texs })
}

} // verus!
