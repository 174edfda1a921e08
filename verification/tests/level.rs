use sokoworld::level::pack::PackLevel;
use sokoworld::level::{Level, ParseError};

#[test]
fn test_level_is_valid() {
    let pack_level = PackLevel {
        title: "test level".to_string(),
        data: r#"
            #####
            #@$.#
            #####
            "#
        .to_string(),
    };
    let level = Level::parse(&pack_level).unwrap();
    assert!(level.is_valid());
}

#[test]
fn test_level_without_player_is_invalid() {
    let pack_level = PackLevel {
        title: "test level".to_string(),
        data: r#"
            ###
            # #
            ###
            "#
        .to_string(),
    };
    let level = Level::parse(&pack_level).unwrap();
    assert!(!level.is_valid());
}

#[test]
fn test_level_without_crate_is_invalid() {
    let pack_level = PackLevel {
        title: "test level".to_string(),
        data: r#"
            #####
            #@  #
            #####
            "#
        .to_string(),
    };
    let level = Level::parse(&pack_level).unwrap();
    assert!(!level.is_valid());
}

#[test]
fn test_level_with_mismatch_crates_and_storage_locations_is_invalid() {
    let pack_level = PackLevel {
        title: "test level".to_string(),
        data: r#"
            #######
            #@$.. #
            #######
            "#
        .to_string(),
    };
    let level = Level::parse(&pack_level).unwrap();
    assert!(!level.is_valid());
}

fn parse(data: &str) -> Result<Level, ParseError> {
    Level::parse(&PackLevel {
        title: "t".to_string(),
        data: data.to_string(),
    })
}

#[test]
fn parses_simple_level_geometry() {
    let level = parse("#####\n#@$.#\n#####").unwrap();
    assert_eq!(level.width, 5);
    assert_eq!(level.height, 3);
    assert_eq!(level.crates.len(), 1);
    assert_eq!(level.crates[0].x, 2);
    assert_eq!(level.crates[0].y, 1);
    assert_eq!(level.storage_locations.len(), 1);
    assert_eq!(level.storage_locations[0].x, 3);
    assert_eq!(level.storage_locations[0].y, 1);
    assert_eq!(level.player.x, 1);
    assert_eq!(level.player.y, 1);
    assert_eq!(level.walls.len(), 12);
    assert!(level.is_valid());
}

#[test]
fn width_is_longest_row_and_height_counts_lines() {
    let level = parse("###\n#####\n").unwrap();
    assert_eq!(level.width, 5);
    assert_eq!(level.height, 2);
}

#[test]
fn crlf_lines_parse_like_lf_lines() {
    let a = parse("#####\r\n#@$.#\r\n#####").unwrap();
    let b = parse("#####\n#@$.#\n#####").unwrap();
    assert_eq!(a.width, b.width);
    assert_eq!(a.height, b.height);
    assert_eq!(a.player, b.player);
    assert_eq!(a.crates, b.crates);
    assert_eq!(a.walls, b.walls);
}

#[test]
fn unexpected_char_fails_with_its_coordinates() {
    let err = parse("#####\n#@q.#\n#####").unwrap_err();
    assert_eq!(err, ParseError::UnexpectedChar { x: 2, y: 1, c: 'q' });
}

#[test]
fn first_bad_char_in_row_major_order_wins() {
    let err = parse("##z##\n#q###").unwrap_err();
    assert_eq!(err, ParseError::UnexpectedChar { x: 2, y: 0, c: 'z' });
}

#[test]
fn star_is_crate_on_storage_and_plus_is_player_on_storage() {
    let level = parse("#####\n#+*.#\n#####").unwrap();
    assert_eq!(level.player.x, 1);
    assert_eq!(level.player.y, 1);
    assert_eq!(level.crates.len(), 1);
    assert_eq!(level.crates[0].x, 2);
    // '+', '*' and '.' all count as storage locations
    assert_eq!(level.storage_locations.len(), 3);
}

#[test]
fn last_player_start_wins() {
    let level = parse("###\n#@#\n#@#\n###").unwrap();
    assert_eq!(level.player.x, 1);
    assert_eq!(level.player.y, 2);
}

#[test]
fn blanks_before_the_first_wall_are_not_ground() {
    // no wall stands before the blanks of the middle row, so none is ground
    let level = parse("####\n _ #\n####").unwrap();
    assert_eq!(level.grounds.len(), 0);
    // here the row starts with a wall, so both blanks are ground
    let level = parse("####\n#_ #\n####").unwrap();
    assert_eq!(level.grounds.len(), 2);
}

#[test]
fn dashes_and_underscores_are_ground() {
    let level = parse("####\n#-_#\n####").unwrap();
    assert_eq!(level.grounds.len(), 2);
}
