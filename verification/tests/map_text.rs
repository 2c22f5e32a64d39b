use rpg_core::map::{TileType, MAP_HEIGHT, MAP_WIDTH};
use rpg_core::mapfile::{parse_i32, parse_tile_value, parse_world_text, split_pieces, white_space, MapError, Separator};

fn chars(s: &str) -> Vec<char> {
    s.chars().collect()
}

fn grass_text(rows: usize, cols: usize) -> String {
    let line = vec!["0"; cols].join(" ");
    let mut text = String::new();
    for _ in 0..rows {
        text.push_str(&line);
        text.push('\n');
    }
    text
}

#[test]
fn tile_codes() {
    let expected = [
        ("-5", TileType::VictoryChest),
        ("-4", TileType::Coffre),
        ("-3", TileType::CollisionInvisible),
        ("-2", TileType::Maison),
        ("-1", TileType::Eau),
        ("0", TileType::Herbe),
        ("1", TileType::Chemin),
        ("2", TileType::Chemin),
        ("3", TileType::Portal),
        ("4", TileType::SpiralPortal),
        ("5", TileType::SpiralPortal2),
        ("+3", TileType::Portal),
        ("000", TileType::Herbe),
    ];
    for (token, tile) in expected {
        match parse_tile_value(token) {
            Ok(t) => assert_eq!(t, tile, "token {}", token),
            Err(e) => panic!("token {} refused: {:?}", token, e),
        }
    }
}

#[test]
fn unknown_and_invalid_codes() {
    assert!(matches!(parse_tile_value("6"), Err(MapError::UnknownCode(6))));
    assert!(matches!(parse_tile_value("-6"), Err(MapError::UnknownCode(-6))));
    match parse_tile_value("x1") {
        Err(MapError::InvalidValue(t)) => assert_eq!(t, chars("x1")),
        other => panic!("unexpected {:?}", other),
    }
    assert!(matches!(parse_tile_value(""), Err(MapError::InvalidValue(_))));
    assert!(matches!(parse_tile_value("-"), Err(MapError::InvalidValue(_))));
    assert!(matches!(parse_tile_value("2147483648"), Err(MapError::InvalidValue(_))));
    assert!(matches!(parse_tile_value("2147483647"), Err(MapError::UnknownCode(2147483647))));
}

#[test]
fn integer_reading_follows_std() {
    for s in ["0", "-0", "+12", "-2147483648", "2147483647", "2147483648", "-2147483649", "1a", " 1", "", "+", "--1"] {
        assert_eq!(parse_i32(&chars(s)), s.parse::<i32>().ok(), "input {:?}", s);
    }
}

#[test]
fn white_space_matches_std() {
    for c in ['\t', '\n', '\r', ' ', '\u{85}', '\u{a0}', '\u{2003}', '\u{3000}', 'a', ',', '0', '\u{200b}'] {
        assert_eq!(white_space(c), c.is_whitespace(), "char {:?}", c);
    }
}

#[test]
fn pieces_keep_empty_ones() {
    let p = split_pieces(&chars("1,,2 3"), Separator::TokenBreak);
    assert_eq!(p, vec![chars("1"), chars(""), chars("2"), chars("3")]);
    let l = split_pieces(&chars("a\nb\n"), Separator::Newline);
    assert_eq!(l, vec![chars("a"), chars("b"), chars("")]);
}

#[test]
fn reads_a_full_map_with_comments_blank_lines_and_commas() {
    let mut text = String::from("# a comment\n\n   \n");
    for y in 0..MAP_HEIGHT {
        let mut row: Vec<&str> = vec!["0"; MAP_WIDTH];
        if y == 2 {
            row[3] = "3";
        }
        if y == 5 {
            row[0] = "-4";
        }
        text.push_str(&row.join(", "));
        text.push_str("\r\n");
        if y == 6 {
            text.push_str("  # another one\n");
        }
    }
    let map = parse_world_text(&text).expect("the map is valid");
    assert_eq!(map.len(), MAP_HEIGHT);
    assert!(map.iter().all(|r| r.len() == MAP_WIDTH));
    assert_eq!(map[2][3], TileType::Portal);
    assert_eq!(map[5][0], TileType::Coffre);
    assert_eq!(map[0][0], TileType::Herbe);
}

#[test]
fn wrong_number_of_rows() {
    assert!(matches!(parse_world_text(&grass_text(MAP_HEIGHT - 1, MAP_WIDTH)), Err(MapError::WrongLineCount(n)) if n == MAP_HEIGHT - 1));
    assert!(matches!(parse_world_text(&grass_text(MAP_HEIGHT + 2, MAP_WIDTH)), Err(MapError::WrongLineCount(n)) if n == MAP_HEIGHT + 2));
    assert!(matches!(parse_world_text(""), Err(MapError::WrongLineCount(0))));
}

#[test]
fn wrong_number_of_columns() {
    let mut text = grass_text(4, MAP_WIDTH);
    text.push_str(&vec!["0"; MAP_WIDTH + 1].join(" "));
    text.push('\n');
    text.push_str(&grass_text(MAP_HEIGHT - 5, MAP_WIDTH));
    match parse_world_text(&text) {
        Err(MapError::WrongColumnCount { line, columns }) => assert_eq!((line, columns), (4, MAP_WIDTH + 1)),
        other => panic!("unexpected {:?}", other),
    }
}

#[test]
fn bad_token_wins_over_shape() {
    let mut text = grass_text(3, MAP_WIDTH);
    text.push_str("0 0 9\n");
    assert!(matches!(parse_world_text(&text), Err(MapError::UnknownCode(9))));
    let text2 = "0 zz\n";
    match parse_world_text(text2) {
        Err(MapError::InvalidValue(t)) => assert_eq!(t, chars("zz")),
        other => panic!("unexpected {:?}", other),
    }
}
