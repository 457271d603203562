use arcade_core::game::{GameState, World};
use arcade_core::text::{
    bytes_eq, high_score_text_bytes, initial_high_score_text_bytes, player_label_bytes,
    score_log_line_bytes, score_text_bytes, zebra_label_bytes,
};

#[test]
fn labels_render_their_counters() {
    assert_eq!(player_label_bytes(), b"player".to_vec());
    assert_eq!(zebra_label_bytes(0), b"zebra_0".to_vec());
    assert_eq!(zebra_label_bytes(10), b"zebra_10".to_vec());
    assert_eq!(zebra_label_bytes(4096), b"zebra_4096".to_vec());
}

#[test]
fn display_texts_render_their_counters() {
    assert_eq!(score_text_bytes(0), b"Score: 0".to_vec());
    assert_eq!(score_text_bytes(12), b"Score: 12".to_vec());
    assert_eq!(high_score_text_bytes(7), b"High score: 7".to_vec());
    assert_eq!(score_log_line_bytes(3), b"Current score: 3".to_vec());
}

#[test]
fn initial_high_score_text_differs_in_case_from_updates() {
    assert_eq!(initial_high_score_text_bytes(), b"High Score: 0".to_vec());
    assert_ne!(initial_high_score_text_bytes(), high_score_text_bytes(0));
}

#[test]
fn bytes_eq_compares_contents() {
    assert!(bytes_eq(&b"zebra_1".to_vec(), &b"zebra_1".to_vec()));
    assert!(!bytes_eq(&b"zebra_1".to_vec(), &b"zebra_2".to_vec()));
    assert!(!bytes_eq(&b"zebra_1".to_vec(), &b"zebra_10".to_vec()));
    assert!(bytes_eq(&Vec::new(), &Vec::new()));
}

#[test]
fn fresh_state_and_world_match_the_host_fixtures() {
    let state = GameState::default();
    assert_eq!(state.high_score, 0);
    assert_eq!(state.score, 0);
    assert_eq!(state.target_index, 0);
    assert_eq!(state.spawn_elapsed_ms, 0);
    let world = World::new();
    assert_eq!(world.player_x, 0);
    assert_eq!(world.player_y, 0);
    assert!(world.zebras.is_empty());
    assert_eq!(world.score_text_value, b"Score: 0".to_vec());
    assert_eq!(world.high_score_text_value, b"High Score: 0".to_vec());
}
