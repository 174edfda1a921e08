use sokoworld::save::Save;

#[test]
fn completing_a_level_records_it() {
    let mut save = Save::new("0.1.0".to_string());
    let pack = "pack".to_string();
    let title = "level one".to_string();
    assert!(!save.is_level_complete(&pack, &title));
    save.complete_level(pack.clone(), title.clone(), 12, 3);
    assert!(save.is_level_complete(&pack, &title));
    assert!(!save.is_level_complete(&pack, &"level two".to_string()));
}

#[test]
fn completing_again_replaces_the_record() {
    let mut save = Save::new("0.1.0".to_string());
    save.complete_level("p".to_string(), "l".to_string(), 30, 9);
    save.complete_level("p".to_string(), "l".to_string(), 20, 5);
    assert_eq!(save.level_completions.len(), 1);
    assert_eq!(save.level_completions[0].steps, 20);
    assert_eq!(save.level_completions[0].pushes, 5);
}

#[test]
fn the_key_is_pack_colon_level() {
    let key = Save::level_completion_key(&"sokoworld".to_string(), &"first steps".to_string());
    assert_eq!(key, "sokoworld:first steps");
}

#[test]
fn keys_collide_across_the_separator() {
    // the table is keyed by the combined string, so these two name the same
    // record
    let mut save = Save::new("0.1.0".to_string());
    save.complete_level("a:b".to_string(), "c".to_string(), 1, 1);
    assert!(save.is_level_complete(&"a".to_string(), &"b:c".to_string()));
}
