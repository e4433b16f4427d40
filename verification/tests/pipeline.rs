//! End-to-end scenarios: parse a document, build the atlas, resolve tile
//! paths and runtime states against it.
use tset::dict::Dict;
use tset::parse::parse;
use tset::resolve::update;
use tset::tset::PreSource;
use tset::tset::SourceInfo;
use tset::tset::SourceLink;
use tset::tset::TSetManager;
use tset::tset::TSetTile;
use tset::tset::TextureSetAsset;
use tset::tset::Tile;

fn parsed(text: &str) -> tset::parse::Descriptor {
    match parse(text) {
        Ok(d) => d,
        Err(_) => panic!("document did not parse"),
    }
}

fn plain_source(width: u32, height: u32, hdl: u64) -> PreSource {
    PreSource::Texture { width, height, hdl }
}

#[test]
fn single_plain_source_resolves_to_index_zero() {
    let doc = parsed(
        r#"(sources: { "grass": Texture(source: "a.png") },
            textures: { "ground": Single(Texture(source: "grass")) })"#,
    );
    assert_eq!(doc.sources.len(), 1);
    let mut raw: Dict<PreSource> = Dict::new();
    raw.insert(String::from("grass"), plain_source(16, 16, 1));
    let mut asset = TextureSetAsset::new(doc.textures, raw, 99);
    let layout = asset.check_or_build(42).expect("first build must run");
    assert_eq!(layout.len(), 1);
    assert!(asset.validate());
    let link = asset.resolve("ground", &TSetTile::Single);
    match &link {
        SourceLink::Texture { source } => assert_eq!(source, "grass"),
        _ => panic!("expected a plain link"),
    }
    let (idx, hdl) = asset.index_and_atlas(&link);
    assert_eq!(idx, 0);
    assert_eq!(hdl, 42);
}

#[test]
fn grid_source_cell_index_is_base_plus_row_major_offset() {
    let doc = parsed(
        r#"(sources: { "tiles": TextureAtlas(source: "t.png", rows: 2, columns: 2,
                                             tile_size: (16, 16)) },
            textures: { "water": Single(Atlas(source: "tiles", index: (2, 1))) })"#,
    );
    let mut raw: Dict<PreSource> = Dict::new();
    raw.insert(
        String::from("tiles"),
        PreSource::TextureAtlas {
            width: 32,
            height: 32,
            hdl: 3,
            rows: 2,
            columns: 2,
            tile_size: (16, 16),
        },
    );
    let mut asset = TextureSetAsset::new(doc.textures, raw, 99);
    let layout = asset.check_or_build(42).expect("first build must run");
    // One packed source rectangle, then its four cells.
    assert_eq!(layout.len(), 5);
    assert_eq!(layout[1].min, (0, 0));
    assert_eq!(layout[1].max, (16, 16));
    assert_eq!(layout[2].min, (16, 0));
    assert_eq!(layout[3].min, (0, 16));
    assert_eq!(layout[4].min, (16, 16));
    assert_eq!(layout[4].max, (32, 32));
    assert!(asset.validate());
    let link = asset.resolve("water", &TSetTile::Single);
    let (idx, hdl) = asset.index_and_atlas(&link);
    // base offset 1, plus (row-1)*columns + (column-1) = 0*2 + 1.
    assert_eq!(idx, 2);
    assert_eq!(hdl, 42);
}

#[test]
fn entry_map_is_keyed_by_declared_source_names() {
    let doc = parsed(
        r#"(sources: { "a": Texture(source: "a.png"),
                       "g": TextureAtlas(source: "g.png", rows: 2, columns: 3,
                                         tile_size: (8, 8)) },
            textures: {})"#,
    );
    let mut raw: Dict<PreSource> = Dict::new();
    raw.insert(String::from("a"), plain_source(10, 12, 1));
    raw.insert(String::from("g"), PreSource::TextureAtlas {
        width: 24,
        height: 16,
        hdl: 2,
        rows: 2,
        columns: 3,
        tile_size: (8, 8),
    });
    let mut asset = TextureSetAsset::new(doc.textures, raw, 99);
    let layout = asset.check_or_build(42).expect("first build must run");
    // Two packed rectangles on one shelf, then 2*3 grid cells.
    assert_eq!(layout.len(), 8);
    assert_eq!(layout[0].min, (0, 0));
    assert_eq!(layout[0].max, (10, 12));
    assert_eq!(layout[1].min, (10, 0));
    assert_eq!(layout[1].max, (34, 16));
    // Cells subdivide the grid source's packed rectangle.
    assert_eq!(layout[2].min, (10, 0));
    assert_eq!(layout[2].max, (18, 8));
    assert_eq!(layout[7].min, (26, 8));
    match &asset.sources {
        Some((hdl, entries)) => {
            assert_eq!(*hdl, 42);
            assert_eq!(entries.len(), 2);
            match entries.get("a") {
                Some(SourceInfo::Texture(i)) => assert_eq!(*i, 0),
                _ => panic!("plain source must keep its packed index"),
            }
            match entries.get("g") {
                Some(SourceInfo::Atlas { offset, rows, columns }) => {
                    assert_eq!(*offset, 2);
                    assert_eq!(*rows, 2);
                    assert_eq!(*columns, 3);
                },
                _ => panic!("grid source must get a block entry"),
            }
        },
        None => panic!("asset must be built"),
    }
}

#[test]
fn path_through_group_stops_at_non_group_node() {
    let doc = parsed(
        r#"(sources: { "grass": Texture(source: "a.png") },
            textures: { "a": Group({ "b": Single(Texture(source: "grass")) }) })"#,
    );
    let mut raw: Dict<PreSource> = Dict::new();
    raw.insert(String::from("grass"), plain_source(16, 16, 1));
    let mut asset = TextureSetAsset::new(doc.textures, raw, 99);
    asset.check_or_build(42);
    // The third segment is ignored: the walk stops at the non-group "b".
    let link = asset.resolve("a/b/c", &TSetTile::Single);
    match &link {
        SourceLink::Texture { source } => assert_eq!(source, "grass"),
        _ => panic!("expected b's own reference"),
    }
}

#[test]
fn empty_animation_resolves_to_sentinel() {
    let doc = parsed(
        r#"(sources: { "grass": Texture(source: "a.png") },
            textures: { "anim": Animated(frames: [], speed: 1.0) })"#,
    );
    let mut raw: Dict<PreSource> = Dict::new();
    raw.insert(String::from("grass"), plain_source(16, 16, 1));
    let mut asset = TextureSetAsset::new(doc.textures, raw, 99);
    asset.check_or_build(42);
    let link = asset.resolve("anim", &TSetTile::Animated(0));
    match &link {
        SourceLink::Texture { source } => assert_eq!(source, "_default"),
        _ => panic!("expected the sentinel"),
    }
    let mgr = TSetManager::new(7, "anim", TSetTile::Animated(0));
    assert_eq!(update(&asset, &mgr), Some((0, 99)));
}

#[test]
fn misses_fall_back_to_index_zero_of_fallback_atlas() {
    let doc = parsed(
        r#"(sources: { "grass": Texture(source: "a.png") },
            textures: { "ground": Single(Texture(source: "grass")) })"#,
    );
    let mut raw: Dict<PreSource> = Dict::new();
    raw.insert(String::from("grass"), plain_source(16, 16, 1));
    let mut asset = TextureSetAsset::new(doc.textures, raw, 99);
    asset.check_or_build(42);
    let link = asset.resolve("no/such/tile", &TSetTile::Single);
    match &link {
        SourceLink::Texture { source } => assert_eq!(source, "_default"),
        _ => panic!("expected the sentinel"),
    }
    let (idx, hdl) = asset.index_and_atlas(&link);
    assert_eq!(idx, 0);
    assert_eq!(hdl, 99);
}

#[test]
fn default_asset_maps_sentinel_to_its_own_atlas() {
    let asset = TextureSetAsset::default(5);
    assert!(asset.validate());
    let link = SourceLink::Texture { source: String::from("_default") };
    let (idx, hdl) = asset.index_and_atlas(&link);
    assert_eq!(idx, 0);
    assert_eq!(hdl, 5);
    // Any path resolves to the sentinel: the default asset has no tiles.
    let r = asset.resolve("anything", &TSetTile::Single);
    match &r {
        SourceLink::Texture { source } => assert_eq!(source, "_default"),
        _ => panic!("expected the sentinel"),
    }
}

#[test]
fn build_runs_once_and_resolution_is_stable_across_noop_passes() {
    let doc = parsed(
        r#"(sources: { "grass": Texture(source: "a.png") },
            textures: { "ground": Single(Texture(source: "grass")) })"#,
    );
    let mut raw: Dict<PreSource> = Dict::new();
    raw.insert(String::from("grass"), plain_source(16, 16, 1));
    let mut asset = TextureSetAsset::new(doc.textures, raw, 99);
    assert!(asset.check_or_build(42).is_some());
    // The second invocation is a no-op: the asset stays built as it was.
    assert!(asset.check_or_build(77).is_none());
    let mgr = TSetManager::new(7, "ground", TSetTile::Single);
    let first = update(&asset, &mgr);
    let second = update(&asset, &mgr);
    assert_eq!(first, Some((0, 42)));
    assert_eq!(first, second);
}

#[test]
fn variant_state_picks_the_named_variant() {
    let doc = parsed(
        r#"(sources: { "g1": Texture(source: "g1.png"), "g2": Texture(source: "g2.png") },
            textures: { "grass": Variant(variants: {
                "var1": Texture(source: "g1"),
                "var2": Texture(source: "g2"),
            }) })"#,
    );
    let mut raw: Dict<PreSource> = Dict::new();
    raw.insert(String::from("g1"), plain_source(16, 16, 1));
    raw.insert(String::from("g2"), plain_source(16, 16, 2));
    let mut asset = TextureSetAsset::new(doc.textures, raw, 99);
    asset.check_or_build(42);
    assert!(asset.validate());
    let mgr = TSetManager::new(7, "grass", TSetTile::Variant(String::from("var2")));
    assert_eq!(update(&asset, &mgr), Some((1, 42)));
    // An unknown variant name falls back to the sentinel.
    let mgr2 = TSetManager::new(7, "grass", TSetTile::Variant(String::from("nope")));
    assert_eq!(update(&asset, &mgr2), Some((0, 99)));
    // A mismatched state kind is a no-op.
    let mgr3 = TSetManager::new(7, "grass", TSetTile::Animated(0));
    assert_eq!(update(&asset, &mgr3), None);
}

#[test]
fn animation_frame_counter_wraps_modulo_frame_count() {
    let doc = parsed(
        r#"(sources: { "f0": Texture(source: "f0.png"), "f1": Texture(source: "f1.png") },
            textures: { "anim": Animated(frames: [
                Texture(source: "f0"),
                Texture(source: "f1"),
            ], speed: 0.5) })"#,
    );
    let mut raw: Dict<PreSource> = Dict::new();
    raw.insert(String::from("f0"), plain_source(16, 16, 1));
    raw.insert(String::from("f1"), plain_source(16, 16, 2));
    let mut asset = TextureSetAsset::new(doc.textures, raw, 99);
    asset.check_or_build(42);
    let m0 = TSetManager::new(7, "anim", TSetTile::Animated(0));
    let m3 = TSetManager::new(7, "anim", TSetTile::Animated(3));
    let mneg = TSetManager::new(7, "anim", TSetTile::Animated(-1));
    assert_eq!(update(&asset, &m0), Some((0, 42)));
    assert_eq!(update(&asset, &m3), Some((1, 42)));
    assert_eq!(update(&asset, &mneg), Some((1, 42)));
}

#[test]
fn group_as_leaf_resolves_to_sentinel() {
    let doc = parsed(
        r#"(sources: { "grass": Texture(source: "a.png") },
            textures: { "a": Group({ "b": Single(Texture(source: "grass")) }) })"#,
    );
    let mut raw: Dict<PreSource> = Dict::new();
    raw.insert(String::from("grass"), plain_source(16, 16, 1));
    let mut asset = TextureSetAsset::new(doc.textures, raw, 99);
    asset.check_or_build(42);
    let mgr = TSetManager::new(7, "a", TSetTile::Single);
    assert_eq!(update(&asset, &mgr), Some((0, 99)));
}

#[test]
fn validate_rejects_a_link_to_an_undeclared_source() {
    let doc = parsed(
        r#"(sources: { "grass": Texture(source: "a.png") },
            textures: { "bad": Single(Texture(source: "missing")) })"#,
    );
    let mut raw: Dict<PreSource> = Dict::new();
    raw.insert(String::from("grass"), plain_source(16, 16, 1));
    let mut asset = TextureSetAsset::new(doc.textures, raw, 99);
    asset.check_or_build(42);
    assert!(!asset.validate());
}

#[test]
fn get_tile_returns_the_node_or_the_default_tile() {
    let doc = parsed(
        r#"(sources: { "grass": Texture(source: "a.png") },
            textures: { "ground": Single(Texture(source: "grass")) })"#,
    );
    let mut raw: Dict<PreSource> = Dict::new();
    raw.insert(String::from("grass"), plain_source(16, 16, 1));
    let mut asset = TextureSetAsset::new(doc.textures, raw, 99);
    asset.check_or_build(42);
    match asset.get_tile("ground") {
        Tile::Single(SourceLink::Texture { source }) => assert_eq!(source, "grass"),
        _ => panic!("expected the declared tile"),
    }
    match asset.get_tile("missing") {
        Tile::Single(SourceLink::Texture { source }) => assert_eq!(source, "_default"),
        _ => panic!("expected the default tile"),
    }
}

#[test]
fn manager_set_tile_changes_path_and_marks_dirty() {
    let mut mgr = TSetManager::new(7, "ground", TSetTile::Single);
    assert!(mgr.changed);
    mgr.clear_changed();
    assert!(!mgr.changed);
    mgr.set_tile("water");
    assert!(mgr.changed);
    assert_eq!(mgr.tile_name, "water");
    assert_eq!(mgr.tset, 7);
}

#[test]
fn get_tile_copies_a_group_deeply() {
    let doc = parsed(
        r#"(sources: { "grass": Texture(source: "a.png") },
            textures: { "a": Group({ "b": Variant(variants: {
                "v": Atlas(source: "grass", index: (1, 1)),
            }) }) })"#,
    );
    let mut raw: Dict<PreSource> = Dict::new();
    raw.insert(String::from("grass"), plain_source(16, 16, 1));
    let mut asset = TextureSetAsset::new(doc.textures, raw, 99);
    asset.check_or_build(42);
    match asset.get_tile("a") {
        Tile::Group(g) => match g.get("b") {
            Some(Tile::Variant { variants }) => match variants.get("v") {
                Some(SourceLink::Atlas { source, index }) => {
                    assert_eq!(source, "grass");
                    assert_eq!(*index, (1, 1));
                },
                _ => panic!("expected the variant's link"),
            },
            _ => panic!("expected the inner variant tile"),
        },
        _ => panic!("expected the group"),
    }
}

#[test]
fn empty_path_resolves_to_sentinel() {
    let asset = TextureSetAsset::default(5);
    let link = asset.resolve("", &TSetTile::Single);
    match &link {
        SourceLink::Texture { source } => assert_eq!(source, "_default"),
        _ => panic!("expected the sentinel"),
    }
}

#[test]
fn build_fits_accepts_ordinary_sources() {
    let doc = parsed(
        r#"(sources: { "grass": Texture(source: "a.png") },
            textures: {})"#,
    );
    let mut raw: Dict<PreSource> = Dict::new();
    raw.insert(String::from("grass"), plain_source(4096, 4096, 1));
    let asset = TextureSetAsset::new(doc.textures, raw, 99);
    assert!(asset.build_fits());
    let built = TextureSetAsset::default(5);
    assert!(built.build_fits());
}
