use mecalin::scrolling_lanes_game::{
    LaneInput, LaneKeyResult, ScrollingLanesGame, ScrollingText, TypingResult, LANE_COUNT,
};
use mecalin::text::split_words;

fn words(list: &[&str]) -> Vec<String> {
    list.iter().map(|s| s.to_string()).collect()
}

fn started() -> ScrollingLanesGame {
    let mut g = ScrollingLanesGame::new(words(&["uno", "dos", "tres"]));
    assert!(g.reset());
    g
}

fn lane(g: &ScrollingLanesGame, i: usize) -> Vec<(String, i64)> {
    g.lane_texts[i].iter().map(|t: &ScrollingText| (t.text.clone(), t.x_halves)).collect()
}

#[test]
fn new_game_has_four_empty_lanes() {
    let g = ScrollingLanesGame::new(words(&["a"]));
    assert_eq!(g.lane_texts.len(), LANE_COUNT);
    assert!(g.lane_texts.iter().all(|l| l.is_empty()));
    assert_eq!(g.current_lane, 0);
    assert_eq!(g.board.counters(), (0, 0, 0));
    assert!(!g.game_loop_running);
}

#[test]
fn from_text_splits_on_white_space() {
    let g = ScrollingLanesGame::from_text("  hola\tmundo\n\u{00A0}año  ");
    assert_eq!(g.word_list, words(&["hola", "mundo", "año"]));
}

#[test]
fn split_words_matches_std() {
    let samples = ["", "   ", "a", " a b ", "uno  dos\r\ntres", "x\u{3000}y\u{2028}z", "\u{200B}a"];
    for s in samples {
        let expected: Vec<String> = s.split_whitespace().map(|w| w.to_string()).collect();
        assert_eq!(split_words(s), expected, "splitting {:?}", s);
    }
}

#[test]
fn white_space_matches_std_for_every_char() {
    for v in 0..=0x10FFFFu32 {
        if let Some(c) = char::from_u32(v) {
            assert_eq!(mecalin::text::white_space(c), c.is_whitespace(), "char {:x}", v);
        }
    }
}

#[test]
fn place_text_starts_at_right_edge() {
    let mut g = started();
    let widths = vec![300, 300, 250, 300];
    g.place_text(2, "dos".to_string(), &widths);
    assert_eq!(lane(&g, 2), vec![("dos".to_string(), 500)]);
    assert!(g.lane_texts[0].is_empty());
    let no_widths: Vec<i32> = vec![300];
    g.place_text(3, "uno".to_string(), &no_widths);
    assert!(g.lane_texts[3].is_empty());
}

#[test]
fn spawn_text_uses_word_list() {
    let mut g = started();
    let widths = vec![100, 100, 100, 100];
    for _ in 0..20 {
        g.spawn_text(&widths);
    }
    let all: Vec<(String, i64)> = (0..LANE_COUNT).flat_map(|i| lane(&g, i)).collect();
    assert_eq!(all.len(), 20);
    assert!(all.iter().all(|(w, x)| ["uno", "dos", "tres"].contains(&w.as_str()) && *x == 200));
    // twenty draws landing in a single lane, or on a single word, would be very unlikely
    assert!((0..LANE_COUNT).filter(|i| !g.lane_texts[*i].is_empty()).count() > 1);
    assert!(all.iter().any(|(w, _)| *w != all[0].0));
}

#[test]
fn up_and_down_stay_within_lanes() {
    let mut g = started();
    assert_eq!(g.handle_key_press(LaneInput::Up), LaneKeyResult::Moved(0));
    assert_eq!(g.handle_key_press(LaneInput::Down), LaneKeyResult::Moved(1));
    assert_eq!(g.handle_key_press(LaneInput::Down), LaneKeyResult::Moved(2));
    assert_eq!(g.handle_key_press(LaneInput::Down), LaneKeyResult::Moved(3));
    assert_eq!(g.handle_key_press(LaneInput::Down), LaneKeyResult::Moved(3));
    assert_eq!(g.handle_key_press(LaneInput::Up), LaneKeyResult::Moved(2));
    assert_eq!(g.handle_key_press(LaneInput::Other), LaneKeyResult::Ignored);
    assert_eq!(g.current_lane, 2);
    g.handle_key_press(LaneInput::Typed('x'));
    assert_eq!(g.current_lane, 2);
}

#[test]
fn typing_peels_first_matching_word_in_current_lane() {
    let mut g = started();
    let widths = vec![100, 100, 100, 100];
    g.place_text(0, "dos".to_string(), &widths);
    g.place_text(0, "do".to_string(), &widths);
    g.place_text(1, "dia".to_string(), &widths);
    assert_eq!(g.handle_typing('d'), TypingResult::Hit { level_up: false });
    assert_eq!(lane(&g, 0), vec![("os".to_string(), 200), ("do".to_string(), 200)]);
    assert_eq!(lane(&g, 1), vec![("dia".to_string(), 200)]);
    assert_eq!(g.handle_typing('o'), TypingResult::Hit { level_up: false });
    assert_eq!(g.handle_typing('s'), TypingResult::Hit { level_up: false });
    assert_eq!(lane(&g, 0), vec![("do".to_string(), 200)]);
    assert_eq!(g.board.score(), 3);
}

#[test]
fn typing_wrong_letter_costs_a_point() {
    let mut g = started();
    let widths = vec![100, 100, 100, 100];
    g.place_text(0, "año".to_string(), &widths);
    assert_eq!(g.handle_typing('x'), TypingResult::Miss { score_changed: false });
    assert_eq!(g.handle_key_press(LaneInput::Typed('a')), LaneKeyResult::Typed(TypingResult::Hit { level_up: false }));
    assert_eq!(g.handle_key_press(LaneInput::Typed('x')), LaneKeyResult::Typed(TypingResult::Miss { score_changed: true }));
    assert_eq!(g.handle_typing('ñ'), TypingResult::Hit { level_up: false });
    assert_eq!(lane(&g, 0), vec![("o".to_string(), 200)]);
}

#[test]
fn typing_in_lane_without_words_misses() {
    let mut g = started();
    let widths = vec![100, 100, 100, 100];
    g.place_text(1, "uno".to_string(), &widths);
    assert_eq!(g.handle_typing('u'), TypingResult::Miss { score_changed: false });
    assert_eq!(lane(&g, 1), vec![("uno".to_string(), 200)]);
}

#[test]
fn words_scroll_left_and_game_ends_past_limit() {
    let mut g = started();
    let widths = vec![0, 10, 0, 0];
    g.place_text(1, "uno".to_string(), &widths);
    g.place_text(2, "dos".to_string(), &widths);
    // lane 1 starts at 20 half pixels, lane 2 at 0: lane 2 is lost first
    for _ in 0..100 {
        assert!(!g.update_game());
    }
    assert_eq!(lane(&g, 1), vec![("uno".to_string(), -380)]);
    assert_eq!(lane(&g, 2), vec![("dos".to_string(), -400)]);
    assert!(g.update_game());
    assert!(g.game_over);
    assert_eq!(lane(&g, 1), vec![("uno".to_string(), -384)]);
    assert_eq!(lane(&g, 2), vec![("dos".to_string(), -404)]);
    assert!(!g.update_timer_continues());
    assert!(!g.game_loop_running);
    assert!(!g.spawn_timer_continues());
    // a restart starts new timers; a spawn timer still waiting to tick goes on too
    assert!(g.reset());
    assert!(g.spawn_timer_continues());
    assert!(g.update_timer_continues());
}

#[test]
fn lanes_after_lost_lane_do_not_move() {
    let mut g = started();
    let widths = vec![0, 0, 0, 0];
    g.place_text(0, "uno".to_string(), &widths);
    g.place_text(3, "dos".to_string(), &widths);
    g.lane_texts[0][0].x_halves = -398;
    assert!(g.update_game());
    assert_eq!(lane(&g, 0), vec![("uno".to_string(), -402)]);
    assert_eq!(lane(&g, 3), vec![("dos".to_string(), 0)]);
}

#[test]
fn key_names_map_to_inputs() {
    assert_eq!(LaneInput::from_key(Some("Up"), None), LaneInput::Up);
    assert_eq!(LaneInput::from_key(Some("Down"), None), LaneInput::Down);
    assert_eq!(LaneInput::from_key(Some("a"), Some('a')), LaneInput::Typed('a'));
    assert_eq!(LaneInput::from_key(Some("Left"), None), LaneInput::Other);
    assert_eq!(LaneInput::from_key(None, None), LaneInput::Other);
}

#[test]
fn visibility_window() {
    assert!(ScrollingLanesGame::is_text_visible(0, 100));
    assert!(!ScrollingLanesGame::is_text_visible(200, 100));
    assert!(ScrollingLanesGame::is_text_visible(199, 100));
    assert!(!ScrollingLanesGame::is_text_visible(-400, 100));
    assert!(ScrollingLanesGame::is_text_visible(-399, 100));
}

#[test]
fn reset_empties_lanes_and_goes_to_first_lane() {
    let mut g = started();
    let widths = vec![100, 100, 100, 100];
    g.place_text(2, "uno".to_string(), &widths);
    g.handle_key_press(LaneInput::Down);
    assert!(!g.reset());
    assert!(g.lane_texts.iter().all(|l| l.is_empty()));
    assert_eq!(g.lane_texts.len(), LANE_COUNT);
    assert_eq!(g.current_lane, 0);
    assert_eq!(g.board.counters(), (0, 1, 4));
}
