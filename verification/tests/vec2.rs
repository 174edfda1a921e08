use sokoworld::vec2::Vec2;

#[test]
fn test_is_zero() {
    assert!(Vec2 { x: 0, y: 0 }.is_zero());
    assert!(!Vec2 { x: 1, y: 0 }.is_zero());
}

#[test]
fn add_is_component_wise() {
    let mut v = Vec2 { x: 3, y: -2 };
    v.add(Vec2 { x: -1, y: 5 });
    assert_eq!(v, Vec2 { x: 2, y: 3 });
}
