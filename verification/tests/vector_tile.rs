use osmviz::imagery::RgbaPixels;
use osmviz::mvt_tile::MvtValue;
use osmviz::vector_tile::{
    compass_direction, direction_tag, get_prop, DirectionTag, height_code_at, is_flat_roof_tag, is_tree, is_tree_ok_exec, parse_osm_color,
    roof_kind,
    OsmColor, RoofKind,
};

fn strings(v: &[&str]) -> Vec<String> {
    v.iter().map(|s| s.to_string()).collect()
}

#[test]
fn get_prop_finds_first_tag_pair() {
    let keys = strings(&["height", "roof_shape", "levels"]);
    // Pairs: (roof_shape -> 4), (height -> 7), (height -> 9).
    let tags = vec![1, 4, 0, 7, 0, 9];
    assert_eq!(get_prop(&keys, &tags, "height"), Some(7));
    assert_eq!(get_prop(&keys, &tags, "roof_shape"), Some(4));
    assert_eq!(get_prop(&keys, &tags, "levels"), None);
    assert_eq!(get_prop(&keys, &tags, "colour"), None);
    // A lone last tag is never reached when an earlier pair matches.
    assert_eq!(get_prop(&keys, &vec![0, 3, 0], "height"), Some(3));
    // Values are not matched against key indices.
    assert_eq!(get_prop(&keys, &vec![1, 0], "height"), None);
}

#[test]
fn is_tree_needs_natural_tree_pair() {
    let keys = strings(&["natural", "leaf_type"]);
    let values = strings(&["wood", "tree", "broadleaved"]);
    assert!(is_tree(&keys, &values, &vec![1, 2, 0, 1]));
    assert!(!is_tree(&keys, &values, &vec![0, 0, 1, 1]));
    assert!(!is_tree(&keys, &values, &vec![]));
}

#[test]
fn is_tree_reads_whole_pairs_up_to_the_tree() {
    let keys = strings(&["natural", "leaf_type"]);
    let values = strings(&["wood", "tree", "broadleaved"]);
    assert!(is_tree_ok_exec(&keys, &values, &vec![1, 2, 0, 1]));
    // Pairs after the first tree pair are never read.
    assert!(is_tree_ok_exec(&keys, &values, &vec![0, 1, 9, 9, 0]));
    // A value index out of range, whatever the key.
    assert!(!is_tree_ok_exec(&keys, &values, &vec![1, 7, 0, 1]));
    // A key index out of range.
    assert!(!is_tree_ok_exec(&keys, &values, &vec![5, 0]));
    // A lone last tag.
    assert!(!is_tree_ok_exec(&keys, &values, &vec![1, 2, 0]));
    assert!(is_tree_ok_exec(&keys, &values, &vec![]));
}

#[test]
fn osm_colors() {
    assert_eq!(parse_osm_color("white"), OsmColor::Permille(900, 900, 900));
    assert_eq!(parse_osm_color("grey"), OsmColor::Permille(500, 500, 500));
    assert_eq!(parse_osm_color("gray"), OsmColor::Permille(500, 500, 500));
    assert_eq!(parse_osm_color("beige"), OsmColor::Permille(960, 960, 860));
    assert_eq!(parse_osm_color("roof_default"), OsmColor::Permille(550, 200, 200));
    assert_eq!(parse_osm_color("default"), OsmColor::Permille(850, 850, 850));
    assert_eq!(parse_osm_color("#FF8000"), OsmColor::Rgb8(255, 128, 0));
    assert_eq!(parse_osm_color("#a0B1c2"), OsmColor::Rgb8(160, 177, 194));
    // Channels that do not parse count as 255; a lone '+' sign is allowed.
    assert_eq!(parse_osm_color("#zz+f-1"), OsmColor::Rgb8(255, 15, 255));
    assert_eq!(parse_osm_color("#12345"), OsmColor::Permille(800, 800, 800));
    assert_eq!(parse_osm_color("mauve"), OsmColor::Permille(800, 800, 800));
    assert_eq!(parse_osm_color("White"), OsmColor::Permille(800, 800, 800));
}

#[test]
fn osm_hex_channels_match_from_str_radix() {
    let digits: Vec<u8> = b"0123456789abcdefABCDEF+-xG ".to_vec();
    for &a in &digits {
        for &b in &digits {
            let s = format!("#{}{}0000", a as char, b as char);
            let expected = u8::from_str_radix(&s[1..3], 16).unwrap_or(255);
            match parse_osm_color(&s) {
                OsmColor::Rgb8(r, _, _) => assert_eq!(r, expected, "{}", s),
                other => panic!("{:?}", other),
            }
        }
    }
}

#[test]
fn compass_directions() {
    assert_eq!(compass_direction("N"), Ok(0));
    assert_eq!(compass_direction(" nne "), Ok(225));
    assert_eq!(compass_direction("sw"), Ok(2250));
    assert_eq!(compass_direction("NNW"), Ok(3375));
    assert_eq!(compass_direction(" 42.5 "), Err("42.5".to_string()));
    assert_eq!(compass_direction("north"), Err("NORTH".to_string()));
    // Any Unicode white space is trimmed, inside is kept.
    assert_eq!(compass_direction("\u{a0}\tnne\u{3000}\n"), Ok(225));
    assert_eq!(compass_direction(" n e "), Err("N E".to_string()));
}

#[test]
fn roof_kinds() {
    assert_eq!(roof_kind("gabled"), RoofKind::Hipped);
    assert_eq!(roof_kind("hipped"), RoofKind::Hipped);
    assert_eq!(roof_kind("gambrel"), RoofKind::Mansard);
    assert_eq!(roof_kind("tented"), RoofKind::Pyramidal);
    assert_eq!(roof_kind("dome"), RoofKind::Dome);
    assert_eq!(roof_kind("onion"), RoofKind::Onion);
    assert_eq!(roof_kind("skillion"), RoofKind::Skillion);
    assert_eq!(roof_kind("flat"), RoofKind::Flat);
    assert_eq!(roof_kind("round"), RoofKind::Flat);
    assert!(is_flat_roof_tag("flat"));
    assert!(!is_flat_roof_tag("round"));
}

#[test]
fn terrain_rgb_height_codes() {
    // 2x1 image: pixel (0,0) = (1, 134, 160) -> 100000 (0 m), pixel (1,0) = (0, 0, 7).
    let img = RgbaPixels { width: 2, height: 1, data: vec![1, 134, 160, 255, 0, 0, 7, 255] };
    assert_eq!(height_code_at(&img, 0, 0), 100000);
    assert_eq!(height_code_at(&img, 1, 0), 7);
}

fn value() -> MvtValue {
    MvtValue {
        string_value: None,
        float_bits: None,
        double_bits: None,
        int_value: None,
        uint_value: None,
        sint_value: None,
        bool_value: None,
    }
}

#[test]
fn direction_tag_reads_text_then_float_then_int() {
    let all = MvtValue {
        string_value: Some(" se".to_string()),
        float_bits: Some(12.5f32.to_bits()),
        int_value: Some(7),
        ..value()
    };
    assert_eq!(direction_tag(&all), DirectionTag::Compass(1350));
    let text = MvtValue { string_value: Some("42".to_string()), ..value() };
    assert_eq!(direction_tag(&text), DirectionTag::Text("42".to_string()));
    let float = MvtValue { float_bits: Some(12.5f32.to_bits()), int_value: Some(7), ..value() };
    assert_eq!(direction_tag(&float), DirectionTag::FloatBits(12.5f32.to_bits()));
    let int = MvtValue { int_value: Some(-90), uint_value: Some(3), ..value() };
    assert_eq!(direction_tag(&int), DirectionTag::Int(-90));
    let other = MvtValue { double_bits: Some(1.0f64.to_bits()), bool_value: Some(true), ..value() };
    assert_eq!(direction_tag(&other), DirectionTag::Missing);
}
