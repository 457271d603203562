use arcade_core::game::{
    apply_movement, manual_reset, process_collisions, timer_spawn, CollisionEvent, Effect,
    GameState, World,
};

#[test]
fn collision_phase_scores_each_player_begin_event() {
    let mut state = GameState::new();
    let mut world = World::new();
    world.zebras = vec![0, 1];
    state.target_index = 2;
    let events = vec![
        CollisionEvent { a: b"player".to_vec(), b: b"zebra_0".to_vec(), begin: true },
        CollisionEvent { a: b"zebra_1".to_vec(), b: b"player".to_vec(), begin: true },
    ];
    let mut effects = Vec::new();
    process_collisions(&mut state, &mut world, &events, &mut effects);
    assert_eq!(state.score, 2);
    assert_eq!(state.high_score, 2);
    assert!(world.zebras.is_empty());
    assert_eq!(world.score_text_value, b"Score: 2".to_vec());
    assert_eq!(world.high_score_text_value, b"High score: 2".to_vec());
    assert_eq!(effects.iter().filter(|e| matches!(e, Effect::PlaySfx)).count(), 2);
}

#[test]
fn collision_phase_ignores_end_events() {
    let mut state = GameState::new();
    let mut world = World::new();
    world.zebras = vec![0];
    state.target_index = 1;
    let events =
        vec![CollisionEvent { a: b"player".to_vec(), b: b"zebra_0".to_vec(), begin: false }];
    let mut effects = Vec::new();
    process_collisions(&mut state, &mut world, &events, &mut effects);
    assert_eq!(state.score, 0);
    assert_eq!(world.zebras, vec![0]);
    assert!(effects.is_empty());
}

#[test]
fn movement_phase_displaces_along_each_pressed_axis() {
    let mut world = World::new();
    apply_movement(&mut world, 25, false, true, true, false);
    assert_eq!(world.player_x, -5000);
    assert_eq!(world.player_y, -5000);
    apply_movement(&mut world, 25, true, false, false, true);
    assert_eq!(world.player_x, 0);
    assert_eq!(world.player_y, 0);
}

#[test]
fn timer_phase_carries_the_remainder() {
    let mut state = GameState::new();
    let mut world = World::new();
    let mut effects = Vec::new();
    state.spawn_elapsed_ms = 900;
    timer_spawn(&mut state, &mut world, 250, &mut effects);
    assert_eq!(state.spawn_elapsed_ms, 150);
    assert_eq!(state.target_index, 1);
    assert_eq!(world.zebras, vec![0]);
    assert_eq!(effects.len(), 1);
    timer_spawn(&mut state, &mut world, 849, &mut effects);
    assert_eq!(state.spawn_elapsed_ms, 999);
    assert_eq!(state.target_index, 1);
    assert_eq!(effects.len(), 1);
}

#[test]
fn reset_phase_only_acts_on_a_fresh_press() {
    let mut state = GameState { high_score: 4, score: 3, target_index: 0, spawn_elapsed_ms: 0 };
    let mut world = World::new();
    world.score_text_value = b"Score: 3".to_vec();
    let mut effects = Vec::new();
    manual_reset(&mut state, &mut world, false, &mut effects);
    assert_eq!(state.score, 3);
    assert!(effects.is_empty());
    manual_reset(&mut state, &mut world, true, &mut effects);
    assert_eq!(state.score, 0);
    assert_eq!(state.high_score, 4);
    assert_eq!(world.score_text_value, b"Score: 0".to_vec());
    assert_eq!(effects.len(), 1);
}
