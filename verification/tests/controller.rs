use arcade_core::game::{
    tick, CollisionEvent, Effect, FrameInput, GameState, World,
};

fn idle_input(delta_ms: u32) -> FrameInput {
    FrameInput {
        delta_ms,
        events: Vec::new(),
        up: false,
        down: false,
        left: false,
        right: false,
        reset_just_pressed: false,
        click_just_pressed: false,
        cursor: None,
    }
}

fn begin(a: &[u8], b: &[u8]) -> CollisionEvent {
    CollisionEvent { a: a.to_vec(), b: b.to_vec(), begin: true }
}

fn add_sprite_effects(effects: &[Effect]) -> Vec<(Vec<u8>, i64, i64, u32)> {
    let mut out = Vec::new();
    for e in effects {
        if let Effect::AddSprite { label, x, y, scale } = e {
            out.push((label.clone(), *x, *y, *scale));
        }
    }
    out
}

#[test]
fn collision_scoring_counts_player_begin_events() {
    let mut state = GameState { high_score: 5, score: 2, target_index: 3, spawn_elapsed_ms: 0 };
    let mut world = World::new();
    world.zebras = vec![0, 1, 2];
    world.score_text_value = b"Score: 2".to_vec();
    let mut input = idle_input(0);
    input.events = vec![
        begin(b"player", b"zebra_1"),
        begin(b"zebra_0", b"player"),
        CollisionEvent { a: b"player".to_vec(), b: b"zebra_2".to_vec(), begin: false },
        begin(b"zebra_0", b"zebra_2"),
    ];
    let effects = tick(&mut state, &mut world, &input);
    assert_eq!(state.score, 4);
    assert_eq!(state.high_score, 5);
    assert_eq!(world.zebras, vec![2]);
    assert_eq!(world.score_text_value, b"Score: 4".to_vec());
    assert!(effects.iter().any(|e| matches!(e, Effect::RemoveSprite { label } if label == b"zebra_1")));
    assert!(effects.iter().any(|e| matches!(e, Effect::RemoveSprite { label } if label == b"zebra_0")));
}

#[test]
fn collision_with_absent_target_still_scores() {
    let mut state = GameState { high_score: 0, score: 0, target_index: 1, spawn_elapsed_ms: 0 };
    let mut world = World::new();
    world.zebras = vec![0];
    let mut input = idle_input(0);
    input.events = vec![begin(b"player", b"zebra_5")];
    tick(&mut state, &mut world, &input);
    assert_eq!(state.score, 1);
    assert_eq!(world.zebras, vec![0]);
}

#[test]
fn collision_of_player_with_player_removes_nothing() {
    let mut state = GameState { high_score: 3, score: 0, target_index: 1, spawn_elapsed_ms: 0 };
    let mut world = World::new();
    world.zebras = vec![0];
    let mut input = idle_input(0);
    input.events = vec![begin(b"player", b"player")];
    tick(&mut state, &mut world, &input);
    assert_eq!(state.score, 1);
    assert_eq!(world.zebras, vec![0]);
}

#[test]
fn scoring_updates_displays_sound_and_log() {
    let mut state = GameState::new();
    let mut world = World::new();
    let mut input = idle_input(0);
    input.events = vec![begin(b"player", b"zebra_0")];
    let effects = tick(&mut state, &mut world, &input);
    assert_eq!(state.score, 1);
    assert_eq!(state.high_score, 1);
    assert_eq!(world.score_text_value, b"Score: 1".to_vec());
    assert_eq!(world.high_score_text_value, b"High score: 1".to_vec());
    assert!(effects.iter().any(|e| matches!(e, Effect::PlaySfx)));
    assert!(effects.iter().any(
        |e| matches!(e, Effect::Log { line } if line == b"Current score: 1"),
    ));
    assert!(effects.iter().any(
        |e| matches!(e, Effect::SetScoreText { value } if value == b"Score: 1"),
    ));
    assert!(effects.iter().any(
        |e| matches!(e, Effect::SetHighScoreText { value } if value == b"High score: 1"),
    ));
}

#[test]
fn high_score_tracks_best_score_across_ticks() {
    let mut state = GameState::new();
    let mut world = World::new();
    let mut highs = Vec::new();
    for n in [2usize, 1, 3] {
        let mut input = idle_input(0);
        for _ in 0..n {
            input.events.push(begin(b"player", b"zebra_9"));
        }
        tick(&mut state, &mut world, &input);
        highs.push(state.high_score);
        let mut reset = idle_input(0);
        reset.reset_just_pressed = true;
        tick(&mut state, &mut world, &reset);
        highs.push(state.high_score);
    }
    assert_eq!(highs, vec![2, 2, 2, 2, 3, 3]);
    for w in highs.windows(2) {
        assert!(w[0] <= w[1]);
    }
}

#[test]
fn manual_reset_zeroes_score_and_keeps_high_score() {
    let mut state = GameState { high_score: 9, score: 7, target_index: 0, spawn_elapsed_ms: 0 };
    let mut world = World::new();
    world.score_text_value = b"Score: 7".to_vec();
    world.high_score_text_value = b"High score: 9".to_vec();
    let mut input = idle_input(0);
    input.reset_just_pressed = true;
    let effects = tick(&mut state, &mut world, &input);
    assert_eq!(state.score, 0);
    assert_eq!(state.high_score, 9);
    assert_eq!(world.score_text_value, b"Score: 0".to_vec());
    assert_eq!(world.high_score_text_value, b"High score: 9".to_vec());
    assert!(matches!(
        effects.last(),
        Some(Effect::SetScoreText { value }) if value == b"Score: 0"
    ));
}

#[test]
fn spawn_identifiers_increase_and_never_repeat() {
    let mut state = GameState::new();
    let mut world = World::new();
    let mut labels = Vec::new();
    for _ in 0..2 {
        let mut input = idle_input(0);
        input.click_just_pressed = true;
        input.cursor = Some((1000, -2000));
        let effects = tick(&mut state, &mut world, &input);
        for (label, _, _, _) in add_sprite_effects(&effects) {
            labels.push(label);
        }
    }
    let effects = tick(&mut state, &mut world, &idle_input(1000));
    for (label, _, _, _) in add_sprite_effects(&effects) {
        labels.push(label);
    }
    assert_eq!(
        labels,
        vec![b"zebra_0".to_vec(), b"zebra_1".to_vec(), b"zebra_2".to_vec()],
    );
    assert_eq!(state.target_index, 3);
    assert_eq!(world.zebras, vec![0, 1, 2]);
}

#[test]
fn timer_fires_once_per_interval_regardless_of_chunking() {
    let mut chunked_state = GameState::new();
    let mut chunked_world = World::new();
    let mut chunked_spawns = 0;
    for _ in 0..10 {
        let effects = tick(&mut chunked_state, &mut chunked_world, &idle_input(100));
        chunked_spawns += add_sprite_effects(&effects).len();
    }
    let mut whole_state = GameState::new();
    let mut whole_world = World::new();
    let whole_spawns =
        add_sprite_effects(&tick(&mut whole_state, &mut whole_world, &idle_input(1000))).len();
    assert_eq!(chunked_spawns, 1);
    assert_eq!(whole_spawns, 1);
    assert_eq!(chunked_state.spawn_elapsed_ms, whole_state.spawn_elapsed_ms);
    assert_eq!(chunked_state.target_index, whole_state.target_index);
}

#[test]
fn timer_fires_once_per_full_interval_in_one_large_tick() {
    let mut state = GameState::new();
    let mut world = World::new();
    let effects = tick(&mut state, &mut world, &idle_input(2500));
    assert_eq!(add_sprite_effects(&effects).len(), 2);
    assert_eq!(state.spawn_elapsed_ms, 500);
    assert_eq!(world.zebras, vec![0, 1]);
}

#[test]
fn timer_spawn_positions_fall_within_the_field() {
    let mut state = GameState::new();
    let mut world = World::new();
    for _ in 0..20 {
        let effects = tick(&mut state, &mut world, &idle_input(1000));
        let adds = add_sprite_effects(&effects);
        assert_eq!(adds.len(), 1);
        let (_, x, y, scale) = &adds[0];
        assert!(-550_000 <= *x && *x <= 550_000);
        assert!(-325_000 <= *y && *y <= 325_000);
        assert_eq!(*scale, 100);
    }
}

#[test]
fn movement_is_additive_per_axis() {
    let mut state = GameState::new();
    let mut world = World::new();
    let mut input = idle_input(50);
    input.up = true;
    input.right = true;
    tick(&mut state, &mut world, &input);
    assert_eq!(world.player_x, 200 * 50);
    assert_eq!(world.player_y, 200 * 50);
}

#[test]
fn opposite_keys_cancel_and_no_keys_hold_still() {
    let mut state = GameState::new();
    let mut world = World::new();
    let mut input = idle_input(80);
    input.up = true;
    input.down = true;
    input.left = true;
    tick(&mut state, &mut world, &input);
    assert_eq!(world.player_x, -200 * 80);
    assert_eq!(world.player_y, 0);
    tick(&mut state, &mut world, &idle_input(999));
    assert_eq!(world.player_x, -200 * 80);
    assert_eq!(world.player_y, 0);
}

#[test]
fn click_spawn_fires_only_on_the_transition_frame() {
    let mut state = GameState::new();
    let mut world = World::new();
    let mut press = idle_input(0);
    press.click_just_pressed = true;
    press.cursor = Some((5000, 6000));
    let effects = tick(&mut state, &mut world, &press);
    let adds = add_sprite_effects(&effects);
    assert_eq!(adds.len(), 1);
    assert_eq!(adds[0], (b"zebra_0".to_vec(), 5000, 6000, 100));
    let mut held = idle_input(0);
    held.cursor = Some((5000, 6000));
    for _ in 0..5 {
        let effects = tick(&mut state, &mut world, &held);
        assert!(add_sprite_effects(&effects).is_empty());
    }
    assert_eq!(state.target_index, 1);
}

#[test]
fn click_without_cursor_position_spawns_nothing() {
    let mut state = GameState::new();
    let mut world = World::new();
    let mut input = idle_input(0);
    input.click_just_pressed = true;
    input.cursor = None;
    let effects = tick(&mut state, &mut world, &input);
    assert!(add_sprite_effects(&effects).is_empty());
    assert_eq!(state.target_index, 0);
}

#[test]
fn effects_come_in_processing_order() {
    let mut state = GameState::new();
    let mut world = World::new();
    world.zebras = vec![7];
    state.target_index = 8;
    let mut input = idle_input(1000);
    input.events = vec![begin(b"player", b"zebra_7")];
    input.click_just_pressed = true;
    input.cursor = Some((0, 0));
    input.reset_just_pressed = true;
    let effects = tick(&mut state, &mut world, &input);
    let kinds: Vec<u32> = effects
        .iter()
        .map(|e| match e {
            Effect::RemoveSprite { .. } => 0,
            Effect::SetScoreText { .. } => 1,
            Effect::SetHighScoreText { .. } => 2,
            Effect::PlaySfx => 3,
            Effect::Log { .. } => 4,
            Effect::AddSprite { .. } => 5,
        })
        .collect();
    assert_eq!(kinds, vec![0, 1, 2, 3, 4, 5, 5, 1]);
    assert_eq!(state.score, 0);
    assert_eq!(state.high_score, 1);
    assert_eq!(state.target_index, 10);
    assert_eq!(world.zebras, vec![8, 9]);
}
