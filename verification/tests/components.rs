//! Unit tests for the parser, the name map, the load bookkeeping, the
//! input binds and the small game decisions.
use tset::Tick;
use tset::atlas::rects;
use tset::controls::Bind;
use tset::controls::ControlBinds;
use tset::dict::Dict;
use tset::game::choose_map_tile;
use tset::game::facing;
use tset::load::LoadAction;
use tset::load::LoadProcess;
use tset::load::LoadState;
use tset::load::SourceTracker;
use tset::load::check_load_action;
use tset::load::dir_of;
use tset::load::extension_of;
use tset::parse::ParseError;
use tset::parse::parse;
use tset::tset::TSetTile;
use tset::tset::Tile;

#[test]
fn parser_accepts_comments_trailing_commas_and_record_name() {
    let text = r#"
        // a texture set
        TSet(
            sources: {
                "grass": Texture(source: "a.png"), // the one source
            },
            textures: {
                "ground": Single(Texture(source: "grass")),
            },
        )
    "#;
    let doc = match parse(text) {
        Ok(d) => d,
        Err(_) => panic!("document did not parse"),
    };
    assert_eq!(doc.sources.len(), 1);
    assert_eq!(doc.textures.len(), 1);
}

#[test]
fn parser_reads_speed_in_thousandths() {
    let text = r#"(sources: {}, textures: {
        "anim": Animated(frames: [Texture(source: "x")], speed: 1.5),
    })"#;
    let doc = match parse(text) {
        Ok(d) => d,
        Err(_) => panic!("document did not parse"),
    };
    match doc.textures.get("anim") {
        Some(Tile::Animated { frames, speed }) => {
            assert_eq!(frames.len(), 1);
            assert_eq!(*speed, 1500);
        },
        _ => panic!("expected the animated tile"),
    }
}

#[test]
fn parser_reads_grid_fields_in_any_order() {
    let text = r#"(sources: {
        "t": TextureAtlas(tile_size: (16, 16), columns: 3, rows: 2, source: "t.png"),
    }, textures: {})"#;
    let doc = match parse(text) {
        Ok(d) => d,
        Err(_) => panic!("document did not parse"),
    };
    match doc.sources.get("t") {
        Some(tset::parse::SourceConfig::TextureAtlas { source, rows, columns, tile_size }) => {
            assert_eq!(source, "t.png");
            assert_eq!(*rows, 2);
            assert_eq!(*columns, 3);
            assert_eq!(*tile_size, (16, 16));
        },
        _ => panic!("expected the grid source"),
    }
}

#[test]
fn parser_rejects_truncated_document() {
    match parse("(sources: {") {
        Err(ParseError::UnexpectedEnd) => {},
        _ => panic!("expected the document to end too early"),
    }
}

#[test]
fn parser_rejects_stray_character() {
    match parse("(sources: {}, textures: {}) trailing") {
        Err(ParseError::Unexpected { pos }) => assert_eq!(pos, 28),
        _ => panic!("expected a stray-character error"),
    }
}

#[test]
fn parser_rejects_overlarge_number() {
    let text = r#"(sources: {
        "t": TextureAtlas(source: "t.png", rows: 4294967296, columns: 1, tile_size: (1, 1)),
    }, textures: {})"#;
    match parse(text) {
        Err(ParseError::BadNumber { .. }) => {},
        _ => panic!("expected a number error"),
    }
}

#[test]
fn parser_rejects_unknown_variant() {
    let text = r#"(sources: {}, textures: { "x": Blinking(frames: []) })"#;
    match parse(text) {
        Err(ParseError::UnknownVariant { .. }) => {},
        _ => panic!("expected an unknown-variant error"),
    }
}

#[test]
fn parser_rejects_missing_field() {
    let text = r#"(sources: { "t": Texture() }, textures: {})"#;
    match parse(text) {
        Err(ParseError::MissingField { .. }) => {},
        _ => panic!("expected a missing-field error"),
    }
}

#[test]
fn parser_rejects_half_document() {
    match parse(r#"(sources: {})"#) {
        Err(ParseError::MissingField { .. }) => {},
        _ => panic!("a document without its textures section is invalid"),
    }
}

#[test]
fn dict_keeps_declaration_order_and_replaces_in_place() {
    let mut d: Dict<u32> = Dict::new();
    d.insert(String::from("a"), 1);
    d.insert(String::from("b"), 2);
    d.insert(String::from("a"), 3);
    assert_eq!(d.len(), 2);
    assert_eq!(d.get("a"), Some(&3));
    assert_eq!(d.get("b"), Some(&2));
    assert_eq!(d.get("c"), None);
    assert_eq!(d.pair_at(0).0, "a");
    assert_eq!(d.pair_at(0).1, 3);
    assert_eq!(d.pair_at(1).0, "b");
}

#[test]
fn rects_cuts_a_grid_row_major() {
    let cells = rects((16, 16), 2, 2, (10, 0));
    assert_eq!(cells.len(), 4);
    assert_eq!(cells[0].min, (10, 0));
    assert_eq!(cells[0].max, (26, 16));
    assert_eq!(cells[1].min, (26, 0));
    assert_eq!(cells[2].min, (10, 16));
    assert_eq!(cells[3].min, (26, 16));
    assert_eq!(cells[3].max, (42, 32));
}

#[test]
fn load_gate_maps_each_state_to_its_action() {
    assert!(matches!(check_load_action(&LoadState::NotLoaded), LoadAction::Retry));
    assert!(matches!(check_load_action(&LoadState::Loading), LoadAction::Wait));
    assert!(matches!(check_load_action(&LoadState::Failed), LoadAction::UseDefault));
    assert!(matches!(check_load_action(&LoadState::Loaded), LoadAction::Build));
}

#[test]
fn source_tracker_is_ready_when_all_sources_are_in() {
    let mut t = SourceTracker::new();
    assert!(t.ready());
    t.register("a");
    t.register("b");
    assert!(!t.ready());
    t.complete("a");
    assert!(!t.ready());
    t.complete("b");
    assert!(t.ready());
}

#[test]
fn source_tracker_failure_short_circuits() {
    let mut t = SourceTracker::new();
    t.register("a");
    t.complete("a");
    t.fail();
    assert!(!t.ready());
}

#[test]
fn load_process_counts_done_steps() {
    let mut p = LoadProcess::new();
    p.add("map");
    p.add("player");
    assert_eq!(p.progress(), (0, 2));
    assert!(!p.is_complete());
    p.set("map");
    assert_eq!(p.progress(), (1, 2));
    p.set("player");
    assert_eq!(p.progress(), (2, 2));
    assert!(p.is_complete());
    p.reset();
    assert_eq!(p.progress(), (0, 0));
    assert!(p.is_complete());
}

#[test]
fn path_helpers_split_on_last_separator() {
    assert_eq!(dir_of("Graphics/tiles.tset.ron"), "Graphics/");
    assert_eq!(dir_of("a/b/c.png"), "a/b/");
    assert_eq!(dir_of("plain.png"), "");
    assert_eq!(extension_of("tiles.tset.ron"), Some(String::from("ron")));
    assert_eq!(extension_of("a.png"), Some(String::from("png")));
    assert_eq!(extension_of("noext"), None);
}

#[test]
fn control_binds_track_press_states() {
    let mut c = ControlBinds::new();
    c.set("move_up", Bind::Key(17));
    assert!(!c.is_pressed("move_up"));
    assert!(!c.is_pressed("never_bound"));
    c.apply("move_up", true, true, false);
    assert!(c.is_pressed("move_up"));
    assert!(c.is_just_pressed("move_up"));
    assert!(!c.is_just_released("move_up"));
    c.apply("move_up", true, false, false);
    assert!(c.is_pressed("move_up"));
    assert!(!c.is_just_pressed("move_up"));
    c.apply("move_up", false, false, true);
    // A freshly released bind is not idle yet, so it still counts as
    // pressed for one pass.
    assert!(c.is_pressed("move_up"));
    assert!(c.is_just_released("move_up"));
    c.apply("move_up", false, false, false);
    assert!(!c.is_pressed("move_up"));
    assert!(!c.is_just_released("move_up"));
}

#[test]
fn control_register_then_set_keeps_state() {
    let mut c = ControlBinds::new();
    c.register("jump");
    // An unset bind has no device to report for: its state stays frozen.
    c.apply("jump", true, false, false);
    assert!(!c.is_pressed("jump"));
    c.set("jump", Bind::Mouse(1));
    c.apply("jump", true, false, false);
    assert!(c.is_pressed("jump"));
    // Rebinding keeps the recorded state.
    c.set("jump", Bind::Mouse(2));
    assert!(c.is_pressed("jump"));
    // Applying input to an unregistered action changes nothing.
    c.apply("ghost", true, true, true);
    assert!(!c.is_pressed("ghost"));
}

#[test]
fn map_cells_follow_the_roll() {
    let (name, data) = choose_map_tile(5);
    assert_eq!(name, "grass");
    assert!(matches!(data, TSetTile::Variant(v) if v == "var1"));
    let (name, data) = choose_map_tile(6);
    assert_eq!(name, "converyor");
    assert!(matches!(data, TSetTile::Animated(1)));
    let (name, _) = choose_map_tile(7);
    assert_eq!(name, "water");
    let (name, _) = choose_map_tile(8);
    assert_eq!(name, "grass_to_water/left");
    let (name, data) = choose_map_tile(9);
    assert_eq!(name, "grass");
    assert!(matches!(data, TSetTile::Variant(v) if v == "var2"));
}

#[test]
fn facing_prefers_horizontal_movement() {
    assert_eq!(facing(1, 1), Some(String::from("right")));
    assert_eq!(facing(-1, 0), Some(String::from("left")));
    assert_eq!(facing(0, 1), Some(String::from("up")));
    assert_eq!(facing(0, -1), Some(String::from("down")));
    assert_eq!(facing(0, 0), None);
}

#[test]
fn tick_advances_by_one() {
    let mut t = Tick(41);
    t.update_tick();
    assert_eq!(t.0, 42);
}

#[test]
fn whole_numbers_accept_a_zero_fraction() {
    let text = r#"(sources: {
        "t": TextureAtlas(source: "t.png", rows: 2.0, columns: 3., tile_size: (16, 16)),
    }, textures: {})"#;
    let doc = match parse(text) {
        Ok(d) => d,
        Err(_) => panic!("document did not parse"),
    };
    match doc.sources.get("t") {
        Some(tset::parse::SourceConfig::TextureAtlas { rows, columns, .. }) => {
            assert_eq!(*rows, 2);
            assert_eq!(*columns, 3);
        },
        _ => panic!("expected the grid source"),
    }
    let bad = r#"(sources: {
        "t": TextureAtlas(source: "t.png", rows: 2.5, columns: 3, tile_size: (16, 16)),
    }, textures: {})"#;
    match parse(bad) {
        Err(ParseError::BadNumber { .. }) => {},
        _ => panic!("a fractional row count is invalid"),
    }
}

#[test]
fn set_tile_state_changes_both_and_marks_dirty() {
    let mut mgr = tset::tset::TSetManager::new(7, "ground", TSetTile::Single);
    mgr.clear_changed();
    mgr.set_tile_state("grass", TSetTile::Variant(String::from("var1")));
    assert!(mgr.changed);
    assert_eq!(mgr.tile_name, "grass");
    assert!(matches!(&mgr.data, TSetTile::Variant(v) if v == "var1"));
    assert_eq!(mgr.tset, 7);
}

#[test]
fn png_dims_reads_the_header_and_rejects_other_bytes() {
    let mut png: Vec<u8> = vec![0x89, b'P', b'N', b'G', b'\r', b'\n', 0x1a, b'\n'];
    png.extend_from_slice(&[0, 0, 0, 13]);
    png.extend_from_slice(b"IHDR");
    png.extend_from_slice(&[0, 0, 0, 32]);
    png.extend_from_slice(&[0, 0, 1, 0]);
    assert_eq!(tset::load::png_dims(&png), Some((32, 256)));
    assert_eq!(tset::load::png_dims(b"not a png at all, much too plain"), None);
    assert_eq!(tset::load::png_dims(&png[0..10]), None);
}
