use sokoworld::level::pack::PackLevel;
use sokoworld::level::playable_level::{Direction, Intent, MoveOutcome, PlayState, resolve_direction};
use sokoworld::level::Level;
use sokoworld::vec2::Vec2;

fn state(data: &str) -> PlayState {
    let level = Level::parse(&PackLevel {
        title: "t".to_string(),
        data: data.to_string(),
    })
    .unwrap();
    PlayState::new(level)
}

fn snapshot(s: &PlayState) -> (Vec2, Vec<(Vec2, bool)>, i32, i32, bool, usize) {
    (
        s.player.pos,
        s.crates
            .iter()
            .map(|c| (c.pos, c.on_storage_location))
            .collect(),
        s.steps,
        s.pushes,
        s.complete,
        s.history_len(),
    )
}

#[test]
fn push_onto_storage_completes_the_level() {
    // the scenario: one crate, one storage cell right of it
    let mut s = state("#####\n#@$.#\n#####");
    let out = s.apply_intent(Intent::MoveRight);
    assert_eq!(out, MoveOutcome::LevelCompleted { steps: 1, pushes: 1 });
    assert_eq!(s.crates[0].pos, Vec2 { x: 3, y: 1 });
    assert!(s.crates[0].on_storage_location);
    assert_eq!(s.player.pos, Vec2 { x: 2, y: 1 });
    assert_eq!(s.steps, 1);
    assert_eq!(s.pushes, 1);
    assert!(s.complete);
}

#[test]
fn plain_move_counts_a_step_but_no_push() {
    let mut s = state("######\n#@ $.#\n######");
    let out = s.apply_intent(Intent::MoveRight);
    assert_eq!(out, MoveOutcome::Moved);
    assert_eq!(s.player.pos, Vec2 { x: 2, y: 1 });
    assert_eq!(s.steps, 1);
    assert_eq!(s.pushes, 0);
    assert!(!s.complete);
}

#[test]
fn push_off_storage_reports_the_crate() {
    let mut s = state("######\n#@$ .#\n######");
    let out = s.apply_intent(Intent::MoveRight);
    assert_eq!(
        out,
        MoveOutcome::Pushed {
            crate_index: 0,
            on_storage: false
        }
    );
    assert_eq!(s.crates[0].pos, Vec2 { x: 3, y: 1 });
    assert!(!s.crates[0].on_storage_location);
    assert_eq!(s.steps, 1);
    assert_eq!(s.pushes, 1);
}

#[test]
fn push_into_wall_is_blocked_and_pure() {
    let mut s = state("####\n#@$#\n#..#\n####");
    let before = snapshot(&s);
    let out = s.apply_intent(Intent::MoveRight);
    assert_eq!(out, MoveOutcome::Blocked);
    assert_eq!(snapshot(&s), before);
}

#[test]
fn push_into_another_crate_is_blocked_and_pure() {
    let mut s = state("######\n#@$$.#\n#...##\n######");
    let before = snapshot(&s);
    let out = s.apply_intent(Intent::MoveRight);
    assert_eq!(out, MoveOutcome::Blocked);
    assert_eq!(snapshot(&s), before);
}

#[test]
fn walking_into_a_wall_is_blocked_and_pure() {
    let mut s = state("#####\n#@$.#\n#####");
    let before = snapshot(&s);
    let out = s.apply_intent(Intent::MoveUp);
    assert_eq!(out, MoveOutcome::Blocked);
    assert_eq!(snapshot(&s), before);
}

#[test]
fn movement_is_ignored_while_complete() {
    let mut s = state("#####\n#@$.#\n#####");
    s.apply_intent(Intent::MoveRight);
    assert!(s.complete);
    let before = snapshot(&s);
    assert_eq!(s.apply_intent(Intent::MoveLeft), MoveOutcome::Ignored);
    assert_eq!(s.apply_intent(Intent::Rewind), MoveOutcome::Ignored);
    assert_eq!(snapshot(&s), before);
}

#[test]
fn rewind_restores_moves_and_pushes_exactly() {
    // one push and two plain moves, then rewind all three
    let mut s = state("#######\n#@$  .#\n#     #\n#######");
    let before = snapshot(&s);
    assert_eq!(s.apply_intent(Intent::MoveRight), MoveOutcome::Pushed { crate_index: 0, on_storage: false });
    assert_eq!(s.apply_intent(Intent::MoveDown), MoveOutcome::Moved);
    assert_eq!(s.apply_intent(Intent::MoveRight), MoveOutcome::Moved);
    assert_eq!(s.history_len(), 3);
    assert_eq!(s.apply_intent(Intent::Rewind), MoveOutcome::Rewound);
    assert_eq!(s.apply_intent(Intent::Rewind), MoveOutcome::Rewound);
    assert_eq!(s.apply_intent(Intent::Rewind), MoveOutcome::Rewound);
    assert_eq!(snapshot(&s), before);
    assert_eq!(s.history_len(), 0);
}

#[test]
fn rewind_on_empty_history_signals_distinctly() {
    let mut s = state("#####\n#@$.#\n#####");
    let before = snapshot(&s);
    assert_eq!(s.apply_intent(Intent::Rewind), MoveOutcome::RewindNothingToUndo);
    assert_eq!(snapshot(&s), before);
    assert_eq!(s.rewind(), None);
}

#[test]
fn rewind_pops_the_recorded_move() {
    let mut s = state("######\n#@$ .#\n######");
    s.apply_intent(Intent::MoveRight);
    let undone = s.rewind().unwrap();
    assert_eq!(undone.direction, Direction::Right);
    assert_eq!(undone.crate_index, Some(0));
    assert_eq!(s.player.pos, Vec2 { x: 1, y: 1 });
    assert_eq!(s.crates[0].pos, Vec2 { x: 2, y: 1 });
    assert_eq!(s.steps, 0);
    assert_eq!(s.pushes, 0);
}

#[test]
fn rewind_does_not_clear_completion() {
    let mut s = state("#####\n#@$.#\n#####");
    s.apply_intent(Intent::MoveRight);
    assert!(s.complete);
    // rewind is ignored while complete, and the flag ratchets
    s.apply_intent(Intent::Rewind);
    assert!(s.complete);
}

#[test]
fn reset_restores_the_initial_state() {
    let mut s = state("#######\n#@$  .#\n#     #\n#######");
    let before = snapshot(&s);
    s.apply_intent(Intent::MoveRight);
    s.apply_intent(Intent::MoveDown);
    assert_eq!(s.apply_intent(Intent::Reset), MoveOutcome::ResetDone);
    assert_eq!(snapshot(&s), before);
}

#[test]
fn reset_twice_equals_reset_once() {
    let mut s = state("#######\n#@$  .#\n#     #\n#######");
    s.apply_intent(Intent::MoveRight);
    let mut t = s.clone();
    s.apply_intent(Intent::Reset);
    t.apply_intent(Intent::Reset);
    t.apply_intent(Intent::Reset);
    assert_eq!(snapshot(&s), snapshot(&t));
}

#[test]
fn steps_never_fall_below_pushes() {
    let mut s = state("#######\n#@$  .#\n#     #\n#######");
    let intents = [
        Intent::MoveRight,
        Intent::MoveDown,
        Intent::MoveUp,
        Intent::MoveRight,
        Intent::Rewind,
        Intent::MoveLeft,
    ];
    for intent in intents {
        s.apply_intent(intent);
        assert!(s.steps >= s.pushes);
        assert!(s.pushes >= 0);
    }
}

#[test]
fn direction_priority_is_up_down_left_right() {
    assert_eq!(resolve_direction(true, true, true, true), Some(Direction::Up));
    assert_eq!(resolve_direction(false, true, true, true), Some(Direction::Down));
    assert_eq!(resolve_direction(false, false, true, true), Some(Direction::Left));
    assert_eq!(resolve_direction(false, false, false, true), Some(Direction::Right));
    assert_eq!(resolve_direction(false, false, false, false), None);
}
