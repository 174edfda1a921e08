use sokoworld::level::pack::{Difficulty, Pack, PackLevel};
use sokoworld::text::{text_size, Size};
use sokoworld::tile::{tilesheet_i_for_tile, Tile};

fn sample_pack() -> Pack {
    Pack {
        title: "Sample".to_string(),
        slug: "sample".to_string(),
        description: "a couple of test levels".to_string(),
        author: "someone".to_string(),
        license: "CC0".to_string(),
        year: 2024,
        levels: vec![
            PackLevel {
                title: "one".to_string(),
                data: "#####\n#@$.#\n#####".to_string(),
            },
            PackLevel {
                title: "two".to_string(),
                data: "######\n#@$ .#\n######".to_string(),
            },
        ],
        version: "1".to_string(),
        file: None,
        difficulty: Difficulty::Easy,
    }
}

#[test]
fn get_returns_levels_in_order() {
    let pack = sample_pack();
    assert_eq!(pack.get(0).unwrap().title, "one");
    assert_eq!(pack.get(1).unwrap().title, "two");
    assert!(pack.get(2).is_none());
}

#[test]
fn difficulty_names() {
    assert_eq!(Difficulty::Easy.name(), "Easy");
    assert_eq!(Difficulty::Medium.name(), "Medium");
    assert_eq!(Difficulty::Hard.name(), "Hard");
}

#[test]
fn text_sizes_are_fixed() {
    assert_eq!(text_size(Size::Small), 20);
    assert_eq!(text_size(Size::Medium), 32);
    assert_eq!(text_size(Size::Large), 48);
}

#[test]
fn tilesheet_indices_are_fixed() {
    assert_eq!(tilesheet_i_for_tile(Tile::Crate), 0);
    assert_eq!(tilesheet_i_for_tile(Tile::CrateOnStorageLocation), 1);
    assert_eq!(tilesheet_i_for_tile(Tile::StorageLocation), 2);
    assert_eq!(tilesheet_i_for_tile(Tile::Player), 3);
    assert_eq!(tilesheet_i_for_tile(Tile::Ground), 4);
    assert_eq!(tilesheet_i_for_tile(Tile::Wall), 5);
}
