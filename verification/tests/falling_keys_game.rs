use mecalin::falling_keys_game::{FallingKeysGame, KeyPress, KEY_COUNT};

const LETTERS: [char; 15] = ['a', 's', 'd', 'f', 'j', 'k', 'l', 'q', 'w', 'e', 'r', 'u', 'i', 'o', 'p'];

fn started() -> FallingKeysGame<f64> {
    let mut g = FallingKeysGame::new();
    assert_eq!(g.reset(), Some(1));
    g
}

#[test]
fn new_game_is_empty_and_stopped() {
    let g: FallingKeysGame<f64> = FallingKeysGame::new();
    assert!(g.falling_keys.is_empty());
    assert_eq!(g.board.counters(), (0, 0, 0));
    assert!(!g.game_over);
    assert!(!g.game_loop.running);
}

#[test]
fn reset_starts_loop_once() {
    let mut g = started();
    assert!(g.game_loop.running);
    assert_eq!(g.board.counters(), (0, 1, 4));
    assert_eq!(g.start_game_loop(), None);
    assert_eq!(g.reset(), None);
    assert_eq!(g.game_loop.generation, 1);
}

#[test]
fn place_key_uses_letter_table() {
    let mut g = started();
    for i in 0..KEY_COUNT {
        g.place_key(i, i as f64);
    }
    let keys: Vec<char> = g.falling_keys.iter().map(|k| k.key).collect();
    assert_eq!(keys, LETTERS.to_vec());
    assert!(g.falling_keys.iter().all(|k| k.y_halves == 0));
    assert_eq!(g.falling_keys[3].x, 3.0);
}

#[test]
fn spawn_needs_room() {
    let mut g = started();
    assert!(!FallingKeysGame::<f64>::has_room_to_spawn(100));
    assert!(FallingKeysGame::<f64>::has_room_to_spawn(101));
    g.spawn_key(100, 60.0);
    assert!(g.falling_keys.is_empty());
    for _ in 0..50 {
        g.spawn_key(400, 60.0);
    }
    assert_eq!(g.falling_keys.len(), 50);
    assert!(g.falling_keys.iter().all(|k| LETTERS.contains(&k.key) && k.y_halves == 0));
    // fifty draws of the same letter out of fifteen would be astronomically unlikely
    let first = g.falling_keys[0].key;
    assert!(g.falling_keys.iter().any(|k| k.key != first));
}

#[test]
fn keys_fall_by_speed_and_end_game_past_bottom() {
    let mut g = started();
    g.place_key(0, 10.0);
    // two pixels per tick: after 50 ticks a key is at 100 pixels
    for _ in 0..50 {
        assert!(!g.update_game(100));
    }
    assert_eq!(g.falling_keys[0].y_halves, 200);
    assert!(!g.game_over);
    assert!(g.update_game(100));
    assert!(g.game_over);
    assert_eq!(g.falling_keys[0].y_halves, 204);
    assert!(!g.update_timer_continues(1));
    assert!(!g.game_loop.running);
    assert!(!g.spawn_timer_continues(1));
}

#[test]
fn update_timer_goes_on_while_playing() {
    let mut g = started();
    assert!(g.update_timer_continues(1));
    assert!(g.game_loop.running);
    assert!(g.spawn_timer_continues(1));
}

#[test]
fn hit_removes_first_matching_key() {
    let mut g = started();
    g.place_key(0, 1.0); // a
    g.place_key(1, 2.0); // s
    g.place_key(0, 3.0); // a
    assert_eq!(g.handle_key_press('a'), KeyPress::Hit { level_up: false });
    assert_eq!(g.falling_keys.len(), 2);
    assert_eq!(g.falling_keys[0].key, 's');
    assert_eq!(g.falling_keys[1].x, 3.0);
    assert_eq!(g.board.score(), 1);
}

#[test]
fn miss_costs_a_point_but_not_below_zero() {
    let mut g = started();
    g.place_key(1, 2.0);
    assert_eq!(g.handle_key_press('z'), KeyPress::Miss { score_changed: false });
    assert_eq!(g.handle_key_press('s'), KeyPress::Hit { level_up: false });
    assert_eq!(g.handle_key_press('s'), KeyPress::Miss { score_changed: true });
    assert_eq!(g.board.score(), 0);
}

#[test]
fn tenth_catch_speeds_up_falling() {
    let mut g = started();
    for _ in 0..10 {
        g.place_key(2, 0.0);
    }
    for _ in 0..9 {
        assert_eq!(g.handle_key_press('d'), KeyPress::Hit { level_up: false });
    }
    assert_eq!(g.handle_key_press('d'), KeyPress::Hit { level_up: true });
    assert_eq!(g.board.counters(), (10, 2, 5));
    g.place_key(2, 0.0);
    g.update_game(1000);
    assert_eq!(g.falling_keys[0].y_halves, 5);
}

#[test]
fn typed_capitals_catch_small_letters() {
    assert_eq!(FallingKeysGame::<f64>::key_for_typed_char('A'), 'a');
    assert_eq!(FallingKeysGame::<f64>::key_for_typed_char('Z'), 'z');
    assert_eq!(FallingKeysGame::<f64>::key_for_typed_char('q'), 'q');
    assert_eq!(FallingKeysGame::<f64>::key_for_typed_char('Ñ'), 'Ñ');
    assert_eq!(FallingKeysGame::<f64>::key_for_typed_char('1'), '1');
}

#[test]
fn reset_clears_keys_and_game_over() {
    let mut g = started();
    g.place_key(0, 0.0);
    for _ in 0..100 {
        g.update_game(10);
    }
    assert!(g.game_over);
    assert!(!g.update_timer_continues(1));
    assert_eq!(g.reset(), Some(2));
    assert!(g.falling_keys.is_empty());
    assert!(!g.game_over);
    assert_eq!(g.board.counters(), (0, 1, 4));
}

#[test]
fn restart_after_game_over_retires_old_timers() {
    let mut g = started();
    g.place_key(0, 0.0);
    while !g.update_game(10) {}
    // the update timer of the first start sees the game over and stops
    assert!(!g.update_timer_continues(1));
    assert!(!g.game_loop.running);
    // restart before the first spawn timer ticks again
    assert_eq!(g.reset(), Some(2));
    // the old spawn timer stops; only the new timers go on
    assert!(!g.spawn_timer_continues(1));
    assert!(!g.update_timer_continues(1));
    assert!(g.spawn_timer_continues(2));
    assert!(g.update_timer_continues(2));
    assert!(g.game_loop.running);
}

#[test]
fn restart_while_running_keeps_the_same_timers() {
    let mut g = started();
    g.place_key(0, 0.0);
    while !g.update_game(10) {}
    // restart before the update timer noticed the game over
    assert_eq!(g.reset(), None);
    assert!(g.update_timer_continues(1));
    assert!(g.spawn_timer_continues(1));
}
