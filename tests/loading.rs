use insect_island::catalog::{load_resources, FontInfo, Resources};
use insect_island::error::LoadError;
use insect_island::names::{decimal_string, make_sprite_name, parse_sheet_file_name};
use insect_island::sheet::{load_sprite_sheet, slice_grid, Rect, TextureInfo};

fn default_font() -> FontInfo {
    FontInfo { base_size: 10, glyph_count: 224, has_glyph_data: true }
}

fn checker_texture() -> TextureInfo {
    TextureInfo { id: 1, width: 10, height: 10 }
}

fn image(name: &str, id: u32, width: i32, height: i32) -> (String, TextureInfo) {
    (name.to_string(), TextureInfo { id, width, height })
}

fn build(fonts: Vec<(String, FontInfo)>, images: Vec<(String, TextureInfo)>) -> Result<Resources, LoadError> {
    load_resources(fonts, &images, default_font(), checker_texture())
}

#[test]
fn test_load_resources() {
    let resources = build(Vec::new(), Vec::new()).unwrap();
    assert!(resources.fonts.is_empty());
    assert!(resources.fallback_font.is_font_valid());
}

#[test]
fn test_get_sprite() {
    let resources = build(Vec::new(), Vec::new()).unwrap();
    let (texture, rect) = resources.get_sprite("non_existent_sprite");
    assert_eq!(texture.id, resources.fallback_sprite().0.id);
    assert_eq!(*rect, *resources.fallback_sprite().1);
}

#[test]
fn fallback_sprite_covers_checker_texture() {
    let resources = build(Vec::new(), Vec::new()).unwrap();
    let (texture, rect) = resources.fallback_sprite();
    assert_eq!(*texture, checker_texture());
    assert_eq!(*rect, Rect { x: 0, y: 0, width: 10, height: 10 });
}

#[test]
fn tiles_sheet_scenario() {
    let resources = build(Vec::new(), vec![image("tiles_10x10.png", 7, 320, 320)]).unwrap();
    let (texture, rect) = resources.get_sprite("tiles_0");
    assert_eq!(texture.id, 7);
    assert_eq!(*rect, Rect { x: 0, y: 0, width: 10, height: 10 });
    let (texture, rect) = resources.get_sprite("tiles_1023");
    assert_eq!(texture.id, 7);
    assert_eq!(*rect, Rect { x: 310, y: 310, width: 10, height: 10 });
    let (texture, rect) = resources.get_sprite("tiles_33");
    assert_eq!(texture.id, 7);
    assert_eq!(*rect, Rect { x: 10, y: 10, width: 10, height: 10 });
    let (texture, rect) = resources.get_sprite("tiles_1024");
    assert_eq!(texture.id, 1);
    assert_eq!(*rect, Rect { x: 0, y: 0, width: 10, height: 10 });
    let (texture, _) = resources.get_sprite("tiles_9999");
    assert_eq!(texture.id, resources.fallback_sprite().0.id);
    let (texture, _) = resources.get_sprite("tiles_10x10_0");
    assert_eq!(texture.id, 1);
}

#[test]
fn no_font_files_leave_fallback_font() {
    let resources = build(Vec::new(), vec![image("tiles_10x10.png", 7, 320, 320)]).unwrap();
    assert!(resources.fonts.is_empty());
    assert!(resources.fallback_font.is_font_valid());
    assert!(resources.font("any.ttf").is_none());
}

#[test]
fn font_lookup_takes_last_under_name() {
    let small = FontInfo { base_size: 8, glyph_count: 95, has_glyph_data: true };
    let large = FontInfo { base_size: 32, glyph_count: 95, has_glyph_data: true };
    let fonts = vec![
        ("mono.ttf".to_string(), small),
        ("serif.ttf".to_string(), small),
        ("mono.ttf".to_string(), large),
    ];
    let resources = build(fonts, Vec::new()).unwrap();
    assert_eq!(resources.fonts.len(), 3);
    assert_eq!(*resources.font("mono.ttf").unwrap(), large);
    assert_eq!(*resources.font("serif.ttf").unwrap(), small);
    assert!(resources.font("mono").is_none());
}

#[test]
fn font_validity() {
    assert!(default_font().is_font_valid());
    assert!(!FontInfo { base_size: 0, glyph_count: 224, has_glyph_data: true }.is_font_valid());
    assert!(!FontInfo { base_size: 10, glyph_count: 0, has_glyph_data: true }.is_font_valid());
    assert!(!FontInfo { base_size: 10, glyph_count: 224, has_glyph_data: false }.is_font_valid());
}

#[test]
fn grid_discards_partial_cells() {
    let cells = slice_grid(25, 17, 10, 5);
    assert_eq!(cells.len(), 6);
    assert_eq!(cells[0], Rect { x: 0, y: 0, width: 10, height: 5 });
    assert_eq!(cells[1], Rect { x: 10, y: 0, width: 10, height: 5 });
    assert_eq!(cells[2], Rect { x: 0, y: 5, width: 10, height: 5 });
    assert_eq!(cells[5], Rect { x: 10, y: 10, width: 10, height: 5 });
}

#[test]
fn grid_of_small_or_empty_texture() {
    assert!(slice_grid(9, 100, 10, 10).is_empty());
    assert!(slice_grid(0, 0, 1, 1).is_empty());
    assert_eq!(slice_grid(1, 1, 1, 1), vec![Rect { x: 0, y: 0, width: 1, height: 1 }]);
}

#[test]
fn grid_row_major_formula() {
    let cells = slice_grid(64, 48, 16, 16);
    assert_eq!(cells.len(), 12);
    for (i, r) in cells.iter().enumerate() {
        let i = i as i32;
        assert_eq!(*r, Rect { x: (i % 4) * 16, y: (i / 4) * 16, width: 16, height: 16 });
    }
}

#[test]
fn sheet_name_parsing() {
    assert_eq!(parse_sheet_file_name("tiles_10x10.png"), Ok(("tiles".to_string(), 10, 10)));
    assert_eq!(parse_sheet_file_name("big_tree_16x32.png"), Ok(("big_tree".to_string(), 16, 32)));
    assert_eq!(parse_sheet_file_name("a_2x3.v1.png"), Ok(("a".to_string(), 2, 3)));
    assert_eq!(parse_sheet_file_name("_4x4.png"), Ok((String::new(), 4, 4)));
    assert_eq!(parse_sheet_file_name("x_007x12"), Ok(("x".to_string(), 7, 12)));
}

#[test]
fn sheet_name_errors() {
    assert_eq!(parse_sheet_file_name("tiles.png"), Err(LoadError::MissingSizeSuffix));
    assert_eq!(parse_sheet_file_name("10x10.png"), Err(LoadError::MissingSizeSuffix));
    assert_eq!(parse_sheet_file_name("tiles_10.png"), Err(LoadError::InvalidSize));
    assert_eq!(parse_sheet_file_name("tiles_0x10.png"), Err(LoadError::InvalidSize));
    assert_eq!(parse_sheet_file_name("tiles_10x.png"), Err(LoadError::InvalidSize));
    assert_eq!(parse_sheet_file_name("tiles_ax10.png"), Err(LoadError::InvalidSize));
    assert_eq!(parse_sheet_file_name("tiles_10x10x5.png"), Err(LoadError::InvalidSize));
    assert_eq!(parse_sheet_file_name("tiles_-3x10.png"), Err(LoadError::InvalidSize));
    assert_eq!(parse_sheet_file_name("tiles_2147483648x1.png"), Err(LoadError::InvalidSize));
    assert_eq!(parse_sheet_file_name("tiles_2147483647x1.png"), Ok(("tiles".to_string(), 2147483647, 1)));
}

#[test]
fn load_sprite_sheet_slices_texture() {
    let texture = TextureInfo { id: 3, width: 30, height: 20 };
    let (key, sheet) = load_sprite_sheet("hero_10x10.png", texture).unwrap();
    assert_eq!(key, "hero");
    assert_eq!(sheet.texture, texture);
    assert_eq!(sheet.sprites.len(), 6);
    assert_eq!(sheet.sprites[4], Rect { x: 10, y: 10, width: 10, height: 10 });
    assert!(matches!(load_sprite_sheet("hero.png", texture), Err(LoadError::MissingSizeSuffix)));
}

#[test]
fn build_errors() {
    assert!(matches!(build(Vec::new(), vec![image("tiles.png", 2, 10, 10)]), Err(LoadError::MissingSizeSuffix)));
    assert!(matches!(build(Vec::new(), vec![image("tiles_zz.png", 2, 10, 10)]), Err(LoadError::InvalidSize)));
    let twice = vec![image("tiles_10x10.png", 2, 10, 10), image("tiles_8x8.png", 3, 16, 16)];
    assert!(matches!(build(Vec::new(), twice), Err(LoadError::DuplicateSheet)));
    let first_wins = vec![image("a_1x1.png", 2, 1, 1), image("a_2x2.png", 3, 2, 2), image("b.png", 4, 1, 1)];
    assert!(matches!(build(Vec::new(), first_wins), Err(LoadError::DuplicateSheet)));
}

#[test]
fn several_sheets_resolve_to_their_textures() {
    let images = vec![
        image("hero_16x16.png", 2, 32, 16),
        image("hero_1_8x8.png", 3, 8, 8),
        image("items_4x4.png", 4, 8, 8),
    ];
    let resources = build(Vec::new(), images).unwrap();
    let (t, r) = resources.get_sprite("hero_1");
    assert_eq!(t.id, 2);
    assert_eq!(*r, Rect { x: 16, y: 0, width: 16, height: 16 });
    let (t, r) = resources.get_sprite("hero_1_0");
    assert_eq!(t.id, 3);
    assert_eq!(*r, Rect { x: 0, y: 0, width: 8, height: 8 });
    let (t, r) = resources.get_sprite("items_3");
    assert_eq!(t.id, 4);
    assert_eq!(*r, Rect { x: 4, y: 4, width: 4, height: 4 });
    assert_eq!(resources.get_sprite("hero_2").0.id, 1);
    assert_eq!(resources.get_sprite("hero_01").0.id, 1);
    assert_eq!(resources.get_sprite("").0.id, 1);
}

#[test]
fn fallback_texture_differs_from_sheets() {
    let resources = build(Vec::new(), vec![image("tiles_10x10.png", 7, 320, 320)]).unwrap();
    let fallback = resources.fallback_sprite().0.id;
    for i in 0..1024 {
        let name = format!("tiles_{}", i);
        assert_ne!(resources.get_sprite(&name).0.id, fallback);
    }
}

#[test]
fn rebuild_gives_same_sprites() {
    let first = build(Vec::new(), vec![image("tiles_10x10.png", 7, 40, 20), image("ui_5x5.png", 8, 10, 5)]).unwrap();
    let second = build(Vec::new(), vec![image("tiles_10x10.png", 17, 40, 20), image("ui_5x5.png", 18, 10, 5)]).unwrap();
    for name in ["tiles_0", "tiles_7", "tiles_8", "ui_1", "ui_2", "other"] {
        let (t1, r1) = first.get_sprite(name);
        let (t2, r2) = second.get_sprite(name);
        assert_eq!(r1, r2);
        assert_eq!(t1.id == 1, t2.id == 1);
    }
}

#[test]
fn decimal_and_sprite_names() {
    assert_eq!(decimal_string(0), "0");
    assert_eq!(decimal_string(7), "7");
    assert_eq!(decimal_string(1023), "1023");
    assert_eq!(decimal_string(usize::MAX), usize::MAX.to_string());
    assert_eq!(make_sprite_name(&"tiles".to_string(), 42), "tiles_42");
    assert_eq!(make_sprite_name(&String::new(), 0), "_0");
}

#[test]
fn getters_expose_fonts_and_fallback_font() {
    let mono = FontInfo { base_size: 12, glyph_count: 95, has_glyph_data: true };
    let resources = build(vec![("mono.ttf".to_string(), mono)], Vec::new()).unwrap();
    assert_eq!(resources.get_fonts().len(), 1);
    assert_eq!(resources.get_fonts()[0].0, "mono.ttf");
    assert_eq!(resources.get_fonts()[0].1, mono);
    assert_eq!(*resources.get_fallback_font(), default_font());
}

#[test]
fn returned_cells_lie_inside_textures() {
    let resources = build(Vec::new(), vec![image("tiles_7x5.png", 7, 30, 23)]).unwrap();
    for i in 0..20 {
        let name = format!("tiles_{}", i);
        let (t, r) = resources.get_sprite(&name);
        assert!(r.x >= 0 && r.y >= 0 && r.width > 0 && r.height > 0);
        assert!(r.x + r.width <= t.width && r.y + r.height <= t.height);
    }
    assert_eq!(resources.get_sprite("tiles_16").0.id, 1);
}
