//! The scrolling lanes game: words scroll from right to left along four lanes.
//! The learner moves between lanes with Up and Down and types the first letter
//! of a word in the current lane to peel it off; a word with no letters left
//! disappears. The game ends when a word scrolls too far past the left edge.
//!
//! Horizontal positions are counted in half pixels, so that the speeds of the
//! game (two pixels per tick plus half a pixel per level) are exact.
use vstd::prelude::*;
use crate::chance::{choose_word, random_below};
use crate::scoring::{BoardView, Scoreboard};
use crate::text::{same_text, split_words, strings_view, words};

verus! {

/// Number of lanes.
pub const LANE_COUNT: usize = 4;

/// A word is lost once it is more than 200 pixels past the left edge.
pub const LEFT_LIMIT_HALVES: i64 = -400;

/// A word scrolling along a lane, and where it is (in half pixels).
pub struct ScrollingText {
    pub text: String,
    pub x_halves: i64,
}

impl View for ScrollingText {
    type V = (Seq<char>, i64);

    open spec fn view(&self) -> (Seq<char>, i64) {
        (self.text@, self.x_halves)
    }
}

/// A lane by the views of its words.
pub open spec fn lane_view(lane: Vec<ScrollingText>) -> Seq<(Seq<char>, i64)> {
    lane@.map_values(|t: ScrollingText| t@)
}

/// All lanes by the views of their words.
pub open spec fn lanes_view(lanes: Seq<Vec<ScrollingText>>) -> Seq<Seq<(Seq<char>, i64)>> {
    lanes.map_values(|l: Vec<ScrollingText>| lane_view(l))
}

/// Position `x` moved `speed` half pixels to the left, stopping at the
/// smallest `i64`, far beyond the left limit.
pub open spec fn shifted_x(x: i64, speed: u64) -> i64 {
    if x - speed < i64::MIN {
        i64::MIN
    } else {
        (x - speed) as i64
    }
}

/// A lane after one tick: every word moves `speed` half pixels to the left.
pub open spec fn shift_lane(lane: Seq<(Seq<char>, i64)>, speed: u64) -> Seq<(Seq<char>, i64)> {
    lane.map_values(|w: (Seq<char>, i64)| (w.0, shifted_x(w.1, speed)))
}

/// Some word of the lane is past the left limit.
pub open spec fn lane_lost(lane: Seq<(Seq<char>, i64)>) -> bool {
    exists|j: int| 0 <= j < lane.len() && (#[trigger] lane[j]).1 < LEFT_LIMIT_HALVES
}

/// First lane, from `i` on, in which a word is past the left limit once
/// shifted; the number of lanes when there is none.
pub open spec fn first_lost_lane(lanes: Seq<Seq<(Seq<char>, i64)>>, speed: u64, i: int) -> int
    decreases lanes.len() - i,
{
    if i >= lanes.len() {
        lanes.len() as int
    } else if lane_lost(shift_lane(lanes[i], speed)) {
        i
    } else {
        first_lost_lane(lanes, speed, i + 1)
    }
}

/// The lanes after one tick: lanes are shifted in order, up to and including
/// the first one that loses a word; the lanes after it stay where they were.
pub open spec fn lanes_after_tick(lanes: Seq<Seq<(Seq<char>, i64)>>, speed: u64) -> Seq<Seq<(Seq<char>, i64)>> {
    let k = first_lost_lane(lanes, speed, 0);
    Seq::new(lanes.len(), |i: int| if i <= k { shift_lane(lanes[i], speed) } else { lanes[i] })
}

/// The word starts with the character `c`.
pub open spec fn starts_with_char(w: (Seq<char>, i64), c: char) -> bool {
    w.0.len() > 0 && w.0[0] == c
}

/// `j` is the first word of the lane that starts with `c`.
pub open spec fn is_first_starting(lane: Seq<(Seq<char>, i64)>, c: char, j: int) -> bool {
    &&& 0 <= j < lane.len()
    &&& starts_with_char(lane[j], c)
    &&& forall|m: int| 0 <= m < j ==> !starts_with_char(#[trigger] lane[m], c)
}

/// The lane after its `j`-th word lost its first letter; a word left
/// without letters disappears.
pub open spec fn peeled(lane: Seq<(Seq<char>, i64)>, j: int) -> Seq<(Seq<char>, i64)> {
    if lane[j].0.len() == 1 {
        lane.remove(j)
    } else {
        lane.update(j, (lane[j].0.drop_first(), lane[j].1))
    }
}

/// Number of letters left in the words of a lane.
pub open spec fn letters(lane: Seq<(Seq<char>, i64)>) -> nat
    decreases lane.len(),
{
    if lane.len() == 0 {
        0
    } else {
        letters(lane.drop_last()) + lane.last().0.len()
    }
}

proof fn lemma_letters_update(lane: Seq<(Seq<char>, i64)>, j: int, w: (Seq<char>, i64))
    requires
        0 <= j < lane.len(),
    ensures
        letters(lane.update(j, w)) + lane[j].0.len() == letters(lane) + w.0.len(),
    decreases lane.len(),
{
    if j == lane.len() - 1 {
        assert(lane.update(j, w).drop_last() =~= lane.drop_last());
    } else {
        assert(lane.update(j, w).drop_last() =~= lane.drop_last().update(j, w));
        lemma_letters_update(lane.drop_last(), j, w);
    }
}

proof fn lemma_letters_remove(lane: Seq<(Seq<char>, i64)>, j: int)
    requires
        0 <= j < lane.len(),
    ensures
        letters(lane.remove(j)) + lane[j].0.len() == letters(lane),
    decreases lane.len(),
{
    if j == lane.len() - 1 {
        assert(lane.remove(j) =~= lane.drop_last());
    } else {
        assert(lane.remove(j).drop_last() =~= lane.drop_last().remove(j));
        assert(lane.remove(j).last() == lane.last());
        lemma_letters_remove(lane.drop_last(), j);
    }
}

/// Typing the first letter of a word takes exactly one letter off the lane.
pub proof fn law_hit_peels_one_letter(lane: Seq<(Seq<char>, i64)>, c: char, j: int)
    requires
        is_first_starting(lane, c, j),
    ensures
        letters(peeled(lane, j)) + 1 == letters(lane),
{
    if lane[j].0.len() == 1 {
        lemma_letters_remove(lane, j);
    } else {
        lemma_letters_update(lane, j, (lane[j].0.drop_first(), lane[j].1));
    }
}

/// A tick only moves words: every lane keeps its words, in order, with the
/// same letters, and no word moves right.
pub proof fn law_tick_only_moves_words(lanes: Seq<Seq<(Seq<char>, i64)>>, speed: u64, i: int, j: int)
    requires
        0 <= i < lanes.len(),
        0 <= j < lanes[i].len(),
    ensures
        lanes_after_tick(lanes, speed).len() == lanes.len(),
        lanes_after_tick(lanes, speed)[i].len() == lanes[i].len(),
        lanes_after_tick(lanes, speed)[i][j].0 == lanes[i][j].0,
        lanes_after_tick(lanes, speed)[i][j].1 <= lanes[i][j].1,
{
}

/// A tick moves every word of a shifted lane left by exactly the speed
/// (unless that would pass the smallest `i64`, where it stops), and keeps its
/// letters; the lane keeps all its words, in order.
pub proof fn law_shift_moves_each_word_by_speed(lane: Seq<(Seq<char>, i64)>, speed: u64, j: int)
    requires
        0 <= j < lane.len(),
    ensures
        shift_lane(lane, speed).len() == lane.len(),
        shift_lane(lane, speed)[j].0 == lane[j].0,
        lane[j].1 - speed >= i64::MIN ==> shift_lane(lane, speed)[j].1 == lane[j].1 - speed,
        lane[j].1 - speed < i64::MIN ==> shift_lane(lane, speed)[j].1 == i64::MIN,
{
}

/// A lane loses a word on a tick exactly when one of its words, moved left
/// by the speed, is past the left limit.
proof fn lemma_lane_lost_iff(lane: Seq<(Seq<char>, i64)>, speed: u64)
    ensures
        lane_lost(shift_lane(lane, speed)) <==> exists|j: int|
            0 <= j < lane.len() && (#[trigger] lane[j]).1 - speed < LEFT_LIMIT_HALVES,
{
    if lane_lost(shift_lane(lane, speed)) {
        let j = choose|j: int|
            0 <= j < shift_lane(lane, speed).len() && (#[trigger] shift_lane(lane, speed)[j]).1
                < LEFT_LIMIT_HALVES;
        assert(lane[j].1 - speed < LEFT_LIMIT_HALVES);
    }
    if exists|j: int| 0 <= j < lane.len() && (#[trigger] lane[j]).1 - speed < LEFT_LIMIT_HALVES {
        let j = choose|j: int| 0 <= j < lane.len() && (#[trigger] lane[j]).1 - speed < LEFT_LIMIT_HALVES;
        assert(shift_lane(lane, speed)[j].1 < LEFT_LIMIT_HALVES);
    }
}

proof fn lemma_first_lost_lane_from(lanes: Seq<Seq<(Seq<char>, i64)>>, speed: u64, i: int)
    requires
        0 <= i <= lanes.len(),
    ensures
        i <= first_lost_lane(lanes, speed, i) <= lanes.len(),
        forall|m: int, j: int|
            i <= m < first_lost_lane(lanes, speed, i) && 0 <= j < lanes[m].len() ==> !(
            #[trigger] lanes[m][j].1 - speed < LEFT_LIMIT_HALVES),
        first_lost_lane(lanes, speed, i) < lanes.len() ==> exists|j: int|
            0 <= j < lanes[first_lost_lane(lanes, speed, i)].len()
                && (#[trigger] lanes[first_lost_lane(lanes, speed, i)][j]).1 - speed
                < LEFT_LIMIT_HALVES,
    decreases lanes.len() - i,
{
    if i < lanes.len() {
        lemma_lane_lost_iff(lanes[i], speed);
        if !lane_lost(shift_lane(lanes[i], speed)) {
            lemma_first_lost_lane_from(lanes, speed, i + 1);
        }
    }
}

/// A tick ends the game exactly when some word of some lane, moved left by
/// the speed, is past the left limit. The lanes are taken in order: the tick
/// stops at the first lane with such a word (no word of an earlier lane is
/// past the limit), whichever lane that is, the last one included.
pub proof fn law_tick_ends_game_when_a_word_is_lost(lanes: Seq<Seq<(Seq<char>, i64)>>, speed: u64)
    ensures
        (first_lost_lane(lanes, speed, 0) < lanes.len()) <==> exists|i: int, j: int|
            0 <= i < lanes.len() && 0 <= j < lanes[i].len() && (#[trigger] lanes[i][j]).1 - speed
                < LEFT_LIMIT_HALVES,
        0 <= first_lost_lane(lanes, speed, 0) <= lanes.len(),
        forall|i: int, j: int|
            0 <= i < first_lost_lane(lanes, speed, 0) && 0 <= j < lanes[i].len() ==> !(
            #[trigger] lanes[i][j].1 - speed < LEFT_LIMIT_HALVES),
{
    lemma_first_lost_lane_from(lanes, speed, 0);
    let k = first_lost_lane(lanes, speed, 0);
    if exists|i: int, j: int|
        0 <= i < lanes.len() && 0 <= j < lanes[i].len() && (#[trigger] lanes[i][j]).1 - speed
            < LEFT_LIMIT_HALVES {
        let (i, j) = choose|i: int, j: int|
            0 <= i < lanes.len() && 0 <= j < lanes[i].len() && (#[trigger] lanes[i][j]).1 - speed
                < LEFT_LIMIT_HALVES;
        assert(!(i < k));
    }
}

/// After a tick, the lanes up to and including the first one that loses a
/// word have every word moved left by exactly the speed; the lanes after it
/// did not move.
pub proof fn law_tick_moves_lanes_up_to_first_lost(
    lanes: Seq<Seq<(Seq<char>, i64)>>,
    speed: u64,
    i: int,
    j: int,
)
    requires
        0 <= i < lanes.len(),
        0 <= j < lanes[i].len(),
        lanes[i][j].1 - speed >= i64::MIN,
    ensures
        i <= first_lost_lane(lanes, speed, 0) ==> lanes_after_tick(lanes, speed)[i][j] == (
        lanes[i][j].0, (lanes[i][j].1 - speed) as i64),
        i > first_lost_lane(lanes, speed, 0) ==> lanes_after_tick(lanes, speed)[i][j]
            == lanes[i][j],
{
}

/// Number of letters left in the words of all lanes.
pub open spec fn total_letters(lanes: Seq<Seq<(Seq<char>, i64)>>) -> nat
    decreases lanes.len(),
{
    if lanes.len() == 0 {
        0
    } else {
        total_letters(lanes.drop_last()) + letters(lanes.last())
    }
}

/// No lane holds a word without letters.
pub open spec fn all_words_nonempty(lanes: Seq<Seq<(Seq<char>, i64)>>) -> bool {
    forall|i: int, j: int|
        0 <= i < lanes.len() && 0 <= j < lanes[i].len() ==> (#[trigger] lanes[i][j]).0.len() > 0
}

proof fn lemma_total_letters_update(lanes: Seq<Seq<(Seq<char>, i64)>>, i: int, lane: Seq<(Seq<char>, i64)>)
    requires
        0 <= i < lanes.len(),
    ensures
        total_letters(lanes.update(i, lane)) + letters(lanes[i]) == total_letters(lanes) + letters(lane),
    decreases lanes.len(),
{
    if i == lanes.len() - 1 {
        assert(lanes.update(i, lane).drop_last() =~= lanes.drop_last());
    } else {
        assert(lanes.update(i, lane).drop_last() =~= lanes.drop_last().update(i, lane));
        lemma_total_letters_update(lanes.drop_last(), i, lane);
    }
}

/// A key as the game sees it.
#[derive(Clone, Copy, Debug, PartialEq, Eq, Structural)]
pub enum LaneInput {
    Up,
    Down,
    Typed(char),
    Other,
}

/// What typing a character did.
#[derive(Clone, Copy, Debug, PartialEq, Eq, Structural)]
pub enum TypingResult {
    /// A word in the current lane lost its first letter; `level_up` tells
    /// whether the level rose.
    Hit { level_up: bool },
    /// No word in the current lane starts with the character; `score_changed`
    /// tells whether a point was lost.
    Miss { score_changed: bool },
    /// There is no current lane: nothing happened.
    NoLane,
}

/// What a key press did.
#[derive(Clone, Copy, Debug, PartialEq, Eq, Structural)]
pub enum LaneKeyResult {
    /// Up or Down: the current lane is the one given (it may be unchanged at
    /// the top or bottom lane).
    Moved(usize),
    /// A character was typed.
    Typed(TypingResult),
    /// Any other key: nothing happened.
    Ignored,
}

/// State of the scrolling lanes game.
pub struct ScrollingLanesGame {
    pub lane_texts: Vec<Vec<ScrollingText>>,
    pub current_lane: usize,
    pub board: Scoreboard,
    pub game_over: bool,
    pub game_loop_running: bool,
    pub word_list: Vec<String>,
}

/// Position `x` moved `speed` half pixels to the left.
fn shift_x(x: i64, speed: u64) -> (nx: i64)
    ensures
        nx == shifted_x(x, speed),
{
    let v = (x as i128) - (speed as i128);
    if v < (i64::MIN as i128) {
        i64::MIN
    } else {
        v as i64
    }
}

/// Moves every word of a lane `speed` half pixels to the left; tells whether
/// a word is then past the left limit.
fn shift_words(lane: &mut Vec<ScrollingText>, speed: u64) -> (lost: bool)
    ensures
        lane_view(*final(lane)) == shift_lane(lane_view(*old(lane)), speed),
        lost == lane_lost(shift_lane(lane_view(*old(lane)), speed)),
{
    let ghost start = lane_view(*lane);
    let ghost target = shift_lane(start, speed);
    let m = lane.len();
    let mut lost = false;
    let mut j: usize = 0;
    while j < m
        invariant
            m == lane@.len(),
            start.len() == m,
            target == shift_lane(start, speed),
            j <= m,
            forall|k: int| 0 <= k < j ==> (#[trigger] lane@[k])@ == target[k],
            forall|k: int| j <= k < m ==> (#[trigger] lane@[k])@ == start[k],
            lost == exists|k: int| 0 <= k < j && (#[trigger] target[k]).1 < LEFT_LIMIT_HALVES,
        decreases m - j,
    {
        let nx = shift_x(lane[j].x_halves, speed);
        lane[j].x_halves = nx;
        if nx < LEFT_LIMIT_HALVES {
            assert(target[j as int].1 < LEFT_LIMIT_HALVES);
            lost = true;
        }
        j = j + 1;
    }
    assert(lane_view(*lane) =~= target);
    lost
}

/// Whether the word starts with `c`.
fn word_starts_with(text: &String, c: char) -> (b: bool)
    ensures
        b == (text@.len() > 0 && text@[0] == c),
{
    let s = text.as_str();
    !s.is_empty() && s.get_char(0) == c
}

/// Takes the first letter off the first word of the lane that starts with
/// `c`; a word left without letters disappears. Tells whether there was
/// such a word.
fn peel_first_starting(lane: &mut Vec<ScrollingText>, c: char) -> (found: bool)
    ensures
        found ==> exists|j: int| is_first_starting(lane_view(*old(lane)), c, j)
            && lane_view(*final(lane)) == peeled(lane_view(*old(lane)), j),
        !found ==> forall|j: int| 0 <= j < lane_view(*old(lane)).len()
            ==> !starts_with_char(#[trigger] lane_view(*old(lane))[j], c),
        !found ==> *final(lane) == *old(lane),
{
    let ghost start = lane_view(*lane);
    let m = lane.len();
    let mut j: usize = 0;
    while j < m && !word_starts_with(&lane[j].text, c)
        invariant
            m == lane@.len(),
            start == lane_view(*lane),
            j <= m,
            forall|k: int| 0 <= k < j ==> !starts_with_char(#[trigger] start[k], c),
        decreases m - j,
    {
        j = j + 1;
    }
    if j == m {
        return false;
    }
    assert(is_first_starting(start, c, j as int));
    let n = lane[j].text.as_str().unicode_len();
    if n == 1 {
        lane.remove(j);
        assert(lane_view(*lane) =~= peeled(start, j as int));
    } else {
        let rest = lane[j].text.as_str().substring_char(1, n).to_owned();
        lane[j].text = rest;
        assert(lane_view(*lane) =~= peeled(start, j as int));
    }
    true
}

/// Viewing the lanes after one lane changed changes that lane's view only.
proof fn lemma_lanes_view_update(lanes: Seq<Vec<ScrollingText>>, i: int, lane: Vec<ScrollingText>)
    requires
        0 <= i < lanes.len(),
    ensures
        lanes_view(lanes.update(i, lane)) == lanes_view(lanes).update(i, lane_view(lane)),
{
    assert(lanes_view(lanes.update(i, lane)) =~= lanes_view(lanes).update(i, lane_view(lane)));
}

impl LaneInput {
    /// Classifies a key by its name and the character it types: "Up" and
    /// "Down" move between lanes, any other key that types a character types
    /// it.
    pub fn from_key(name: Option<&str>, typed: Option<char>) -> (input: LaneInput)
        ensures
            input == if name matches Some(n) && n@ == "Up"@ {
                LaneInput::Up
            } else if name matches Some(n) && n@ == "Down"@ {
                LaneInput::Down
            } else {
                match typed {
                    Some(c) => LaneInput::Typed(c),
                    None => LaneInput::Other,
                }
            },
    {
        if let Some(n) = name {
            if same_text(n, "Up") {
                return LaneInput::Up;
            } else if same_text(n, "Down") {
                return LaneInput::Down;
            }
        }
        match typed {
            Some(c) => LaneInput::Typed(c),
            None => LaneInput::Other,
        }
    }
}

impl ScrollingLanesGame {
    /// The game has its four lanes and the current lane is one of them.
    pub open spec fn lanes_in_place(self) -> bool {
        &&& self.lane_texts@.len() == LANE_COUNT
        &&& self.current_lane < LANE_COUNT
    }

    pub open spec fn lanes(self) -> Seq<Seq<(Seq<char>, i64)>> {
        lanes_view(self.lane_texts@)
    }

    /// What typing `c` does, given as a relation between the game before
    /// (`self`), the result, and the game `after`: the first word of the
    /// current lane that starts with `c` loses that letter and a point is
    /// scored; when no word there starts with `c`, a point is lost; without a
    /// current lane nothing happens.
    pub open spec fn typing_outcome(self, c: char, result: TypingResult, after: Self) -> bool {
        match result {
            TypingResult::Hit { level_up } => {
                let lane = self.lanes()[self.current_lane as int];
                &&& self.current_lane < self.lanes().len()
                &&& exists|j: int| is_first_starting(lane, c, j)
                    && after.lanes() == self.lanes().update(
                        self.current_lane as int,
                        peeled(lane, j),
                    )
                &&& after.board@ == self.board@.after_hit()
                &&& level_up == self.board@.levels_up_on_hit()
            },
            TypingResult::Miss { score_changed } => {
                let lane = self.lanes()[self.current_lane as int];
                &&& self.current_lane < self.lanes().len()
                &&& forall|j: int| 0 <= j < lane.len() ==> !starts_with_char(#[trigger] lane[j], c)
                &&& after.lane_texts@ == self.lane_texts@
                &&& after.board@ == self.board@.after_miss()
                &&& score_changed == (self.board@.score > 0)
            },
            TypingResult::NoLane => {
                &&& self.current_lane >= self.lanes().len()
                &&& after.lane_texts == self.lane_texts
                &&& after.board == self.board
            },
        }
    }

    /// Typing scores: a hit adds a point, a miss takes a point off a positive
    /// score, and without a current lane the board stays as it is. A miss
    /// happens exactly when no word of the current lane starts with the
    /// typed letter.
    pub proof fn law_typing_scores(self, c: char, result: TypingResult, after: Self)
        requires
            self.typing_outcome(c, result, after),
        ensures
            result is Hit && self.board@.score < u32::MAX ==> after.board@.score == self.board@.score + 1,
            result is Miss ==> after.board@.score == if self.board@.score > 0 {
                self.board@.score - 1
            } else {
                0
            },
            result is Miss ==> after.board@.difficulty == self.board@.difficulty
                && after.board@.speed_halves == self.board@.speed_halves,
            result is Miss ==> forall|j: int|
                0 <= j < self.lanes()[self.current_lane as int].len() ==> !(
                self.lanes()[self.current_lane as int][j].0.len() > 0
                    && #[trigger] self.lanes()[self.current_lane as int][j].0[0] == c),
            result is Hit ==> exists|j: int|
                0 <= j < self.lanes()[self.current_lane as int].len()
                    && self.lanes()[self.current_lane as int][j].0.len() > 0
                    && #[trigger] self.lanes()[self.current_lane as int][j].0[0] == c,
            result is NoLane ==> after.board@ == self.board@,
    {
        if result is Miss {
            let lane = self.lanes()[self.current_lane as int];
            assert forall|j: int| 0 <= j < lane.len() implies !(lane[j].0.len() > 0 && #[trigger] lane[j].0[0] == c) by {
                assert(!starts_with_char(lane[j], c));
            }
        }
        if result is Hit {
            let lane = self.lanes()[self.current_lane as int];
            let j = choose|j: int| is_first_starting(lane, c, j)
                && after.lanes() == self.lanes().update(self.current_lane as int, peeled(lane, j));
            assert(lane[j].0[0] == c);
        }
    }

    /// Typing takes exactly one letter off the words of all lanes when it
    /// hits, and none when it does not; words never become empty: a word
    /// that loses its last letter disappears.
    pub proof fn law_typing_takes_one_letter(self, c: char, result: TypingResult, after: Self)
        requires
            self.typing_outcome(c, result, after),
            all_words_nonempty(self.lanes()),
        ensures
            all_words_nonempty(after.lanes()),
            result is Hit ==> total_letters(after.lanes()) + 1 == total_letters(self.lanes()),
            !(result is Hit) ==> total_letters(after.lanes()) == total_letters(self.lanes()),
    {
        if result is Hit {
            let cur = self.current_lane as int;
            let lane = self.lanes()[cur];
            let j = choose|j: int| is_first_starting(lane, c, j)
                && after.lanes() == self.lanes().update(cur, peeled(lane, j));
            law_hit_peels_one_letter(lane, c, j);
            lemma_total_letters_update(self.lanes(), cur, peeled(lane, j));
            assert forall|i: int, k: int|
                0 <= i < after.lanes().len() && 0 <= k < after.lanes()[i].len()
                implies (#[trigger] after.lanes()[i][k]).0.len() > 0 by {
                if i == cur {
                    if lane[j].0.len() == 1 {
                        if k < j {
                            assert(peeled(lane, j)[k] == lane[k]);
                        } else {
                            assert(peeled(lane, j)[k] == lane[k + 1]);
                        }
                    } else if k != j {
                        assert(peeled(lane, j)[k] == lane[k]);
                    }
                } else {
                    assert(after.lanes()[i] == self.lanes()[i]);
                }
            }
        } else {
            assert(after.lanes() == self.lanes());
        }
    }

    /// The lanes once `word` is sent down lane `lane`, starting at that lane's
    /// right edge; unchanged when `lane_widths` has no width for that lane.
    pub open spec fn after_placing(self, lane: int, word: Seq<char>, lane_widths: Seq<i32>) -> Seq<Seq<(Seq<char>, i64)>> {
        if lane < lane_widths.len() {
            self.lanes().update(lane, self.lanes()[lane].push((word, (2 * lane_widths[lane]) as i64)))
        } else {
            self.lanes()
        }
    }

    /// A game set up with its four empty lanes, the first one current, every
    /// counter at zero, and the words it will send down the lanes.
    pub fn new(word_list: Vec<String>) -> (g: Self)
        ensures
            g.lanes_in_place(),
            g.lanes() == Seq::new(LANE_COUNT as nat, |i: int| Seq::<(Seq<char>, i64)>::empty()),
            g.current_lane == 0,
            g.board@ == BoardView::initial(),
            !g.game_over,
            !g.game_loop_running,
            g.word_list == word_list,
    {
        let mut lane_texts: Vec<Vec<ScrollingText>> = Vec::new();
        let mut i: usize = 0;
        while i < LANE_COUNT
            invariant
                i <= LANE_COUNT,
                lane_texts@.len() == i,
                forall|j: int| 0 <= j < i ==> (#[trigger] lane_texts@[j])@.len() == 0,
            decreases LANE_COUNT - i,
        {
            lane_texts.push(Vec::new());
            i = i + 1;
        }
        let g = ScrollingLanesGame {
            lane_texts,
            current_lane: 0,
            board: Scoreboard::new(),
            game_over: false,
            game_loop_running: false,
            word_list,
        };
        assert forall|j: int| 0 <= j < LANE_COUNT implies #[trigger] g.lanes()[j] =~= Seq::<(Seq<char>, i64)>::empty() by {
            assert(g.lane_texts@[j]@.len() == 0);
        }
        assert(g.lanes() =~= Seq::new(LANE_COUNT as nat, |i: int| Seq::<(Seq<char>, i64)>::empty()));
        g
    }

    /// A game set up as by [`Self::new`], sending down the lanes the words of
    /// `text` (its runs of characters other than white space).
    pub fn from_text(text: &str) -> (g: Self)
        ensures
            g.lanes_in_place(),
            g.lanes() == Seq::new(LANE_COUNT as nat, |i: int| Seq::<(Seq<char>, i64)>::empty()),
            g.current_lane == 0,
            g.board@ == BoardView::initial(),
            !g.game_over,
            !g.game_loop_running,
            strings_view(g.word_list@) == words(text@),
    {
        Self::new(split_words(text))
    }

    /// Restarts the game: every lane emptied, the first lane current, no
    /// points, level 1, two pixels per tick, and the game loop running.
    /// Tells whether the loop's timers must be started (the loop was not
    /// running).
    pub fn reset(&mut self) -> (start_timers: bool)
        ensures
            final(self).lane_texts@.len() == old(self).lane_texts@.len(),
            forall|i: int| 0 <= i < final(self).lane_texts@.len()
                ==> (#[trigger] final(self).lane_texts@[i])@.len() == 0,
            final(self).current_lane == 0,
            final(self).board@ == BoardView::fresh(),
            !final(self).game_over,
            final(self).word_list == old(self).word_list,
            final(self).game_loop_running,
            start_timers == !old(self).game_loop_running,
            old(self).lane_texts@.len() == LANE_COUNT ==> final(self).lanes_in_place(),
    {
        let n = self.lane_texts.len();
        let mut i: usize = 0;
        while i < n
            invariant
                n == self.lane_texts@.len(),
                i <= n,
                forall|j: int| 0 <= j < i ==> (#[trigger] self.lane_texts@[j])@.len() == 0,
                self.word_list == old(self).word_list,
                self.game_loop_running == old(self).game_loop_running,
            decreases n - i,
        {
            self.lane_texts[i].clear();
            i = i + 1;
        }
        self.current_lane = 0;
        self.board.reset();
        self.game_over = false;
        self.start_game_loop()
    }

    /// Marks the game loop as running; tells whether it was not running
    /// before, that is, whether its timers must be started.
    pub fn start_game_loop(&mut self) -> (start_timers: bool)
        ensures
            final(self).game_loop_running,
            start_timers == !old(self).game_loop_running,
            final(self).lane_texts == old(self).lane_texts,
            final(self).current_lane == old(self).current_lane,
            final(self).board == old(self).board,
            final(self).game_over == old(self).game_over,
            final(self).word_list == old(self).word_list,
    {
        if self.game_loop_running {
            return false;
        }
        self.game_loop_running = true;
        true
    }

    /// Decision of the update timer before each tick: once the game is over
    /// the timer stops and the loop is marked as no longer running.
    pub fn update_timer_continues(&mut self) -> (go_on: bool)
        ensures
            go_on == !old(self).game_over,
            final(self).game_loop_running == if old(self).game_over {
                false
            } else {
                old(self).game_loop_running
            },
            final(self).lane_texts == old(self).lane_texts,
            final(self).current_lane == old(self).current_lane,
            final(self).board == old(self).board,
            final(self).game_over == old(self).game_over,
            final(self).word_list == old(self).word_list,
    {
        if self.game_over {
            self.game_loop_running = false;
            return false;
        }
        true
    }

    /// Decision of a spawn timer before each tick: it stops once the game is
    /// over. (A spawn timer that sees the game running again after a quick
    /// restart goes on beside the timers that the restart started.)
    pub fn spawn_timer_continues(&self) -> (go_on: bool)
        ensures
            go_on == !self.game_over,
    {
        !self.game_over
    }

    /// One tick of the game: lane by lane, every word moves left by the
    /// current speed; as soon as a lane has a word past the left limit the
    /// game is over and the remaining lanes are left as they were. Tells
    /// whether the game ended.
    pub fn update_game(&mut self) -> (ended: bool)
        ensures
            final(self).lanes() == lanes_after_tick(old(self).lanes(), old(self).board@.speed_halves),
            ended == (first_lost_lane(old(self).lanes(), old(self).board@.speed_halves, 0)
                < old(self).lanes().len()),
            ended == exists|i: int, j: int|
                0 <= i < old(self).lanes().len() && 0 <= j < old(self).lanes()[i].len()
                    && (#[trigger] old(self).lanes()[i][j]).1 - old(self).board@.speed_halves
                    < LEFT_LIMIT_HALVES,
            final(self).game_over == (old(self).game_over || ended),
            final(self).lane_texts@.len() == old(self).lane_texts@.len(),
            final(self).current_lane == old(self).current_lane,
            final(self).board == old(self).board,
            final(self).game_loop_running == old(self).game_loop_running,
            final(self).word_list == old(self).word_list,
    {
        let speed = self.board.speed_halves();
        let n = self.lane_texts.len();
        let ghost start = self.lanes();
        proof {
            law_tick_ends_game_when_a_word_is_lost(start, speed);
        }
        let mut i: usize = 0;
        while i < n
            invariant
                n == self.lane_texts@.len(),
                start.len() == n,
                i <= n,
                speed == old(self).board@.speed_halves,
                start == old(self).lanes(),
                first_lost_lane(start, speed, 0) == first_lost_lane(start, speed, i as int),
                forall|j: int| 0 <= j < i ==> #[trigger] self.lanes()[j] == shift_lane(start[j], speed),
                forall|j: int| i <= j < n ==> #[trigger] self.lanes()[j] == start[j],
                self.current_lane == old(self).current_lane,
                self.board == old(self).board,
                self.game_over == old(self).game_over,
                self.game_loop_running == old(self).game_loop_running,
                self.word_list == old(self).word_list,
            decreases n - i,
        {
            let ghost before = self.lane_texts@;
            assert(self.lanes()[i as int] == start[i as int]);
            assert(lane_view(before[i as int]) == start[i as int]);
            let lost = shift_words(&mut self.lane_texts[i], speed);
            proof {
                lemma_lanes_view_update(before, i as int, self.lane_texts@[i as int]);
                assert(self.lane_texts@ == before.update(i as int, self.lane_texts@[i as int]));
            }
            if lost {
                assert(first_lost_lane(start, speed, i as int) == i);
                assert(self.lanes() =~= lanes_after_tick(start, speed));
                self.game_over = true;
                return true;
            }
            i = i + 1;
        }
        assert(self.lanes() =~= lanes_after_tick(start, speed));
        false
    }

    /// Typing `c`: the first word of the current lane that starts with `c`
    /// loses that letter and scores a point (every tenth point raises the
    /// level and the speed); when no word there starts with `c`, a point is
    /// lost.
    pub fn handle_typing(&mut self, c: char) -> (result: TypingResult)
        requires
            (old(self).current_lane < old(self).lanes().len() && exists|j: int|
                0 <= j < old(self).lanes()[old(self).current_lane as int].len()
                && starts_with_char(old(self).lanes()[old(self).current_lane as int][j], c))
                ==> old(self).board@.can_hit(),
        ensures
            final(self).lane_texts@.len() == old(self).lane_texts@.len(),
            final(self).current_lane == old(self).current_lane,
            final(self).game_over == old(self).game_over,
            final(self).game_loop_running == old(self).game_loop_running,
            final(self).word_list == old(self).word_list,
            old(self).typing_outcome(c, result, *final(self)),
    {
        let lane = self.current_lane;
        if lane >= self.lane_texts.len() {
            return TypingResult::NoLane;
        }
        let ghost before = self.lane_texts@;
        assert(lane_view(before[lane as int]) == lanes_view(before)[lane as int]);
        let found = peel_first_starting(&mut self.lane_texts[lane], c);
        proof {
            lemma_lanes_view_update(before, lane as int, self.lane_texts@[lane as int]);
            assert(self.lane_texts@ == before.update(lane as int, self.lane_texts@[lane as int]));
        }
        if found {
            let ghost lane_before = lane_view(before[lane as int]);
            let ghost j = choose|j: int| is_first_starting(lane_before, c, j)
                && lane_view(self.lane_texts@[lane as int]) == peeled(lane_before, j);
            assert(lane_before == old(self).lanes()[lane as int]);
            assert(self.lanes() == old(self).lanes().update(lane as int, peeled(lane_before, j)));
            let level_up = self.board.hit();
            assert(is_first_starting(old(self).lanes()[lane as int], c, j));
            TypingResult::Hit { level_up }
        } else {
            assert(self.lane_texts@ =~= before);
            let score_changed = self.board.miss();
            TypingResult::Miss { score_changed }
        }
    }

    /// A key press: Up and Down move to the lane above or below (staying at
    /// the top and bottom lanes), a typed character is handled as typing,
    /// other keys do nothing.
    pub fn handle_key_press(&mut self, input: LaneInput) -> (result: LaneKeyResult)
        requires
            (input matches LaneInput::Typed(c) && old(self).current_lane < old(self).lanes().len()
                && exists|j: int|
                0 <= j < old(self).lanes()[old(self).current_lane as int].len()
                && starts_with_char(old(self).lanes()[old(self).current_lane as int][j], c))
                ==> old(self).board@.can_hit(),
        ensures
            old(self).lanes_in_place() ==> final(self).lanes_in_place(),
            old(self).current_lane < LANE_COUNT ==> final(self).current_lane < LANE_COUNT,
            final(self).lane_texts@.len() == old(self).lane_texts@.len(),
            final(self).game_over == old(self).game_over,
            final(self).game_loop_running == old(self).game_loop_running,
            final(self).word_list == old(self).word_list,
            match input {
                LaneInput::Up => {
                    &&& final(self).current_lane == if old(self).current_lane > 0 {
                        (old(self).current_lane - 1) as usize
                    } else {
                        0
                    }
                    &&& result == LaneKeyResult::Moved(final(self).current_lane)
                    &&& final(self).lane_texts == old(self).lane_texts
                    &&& final(self).board == old(self).board
                },
                LaneInput::Down => {
                    &&& final(self).current_lane == if old(self).current_lane < LANE_COUNT - 1 {
                        (old(self).current_lane + 1) as usize
                    } else {
                        old(self).current_lane
                    }
                    &&& result == LaneKeyResult::Moved(final(self).current_lane)
                    &&& final(self).lane_texts == old(self).lane_texts
                    &&& final(self).board == old(self).board
                },
                LaneInput::Typed(c) => {
                    &&& result matches LaneKeyResult::Typed(t)
                    &&& old(self).typing_outcome(c, t, *final(self))
                    &&& final(self).current_lane == old(self).current_lane
                    &&& old(self).lanes_in_place() ==> !(t is NoLane)
                },
                LaneInput::Other => {
                    &&& result == LaneKeyResult::Ignored
                    &&& final(self).lane_texts == old(self).lane_texts
                    &&& final(self).current_lane == old(self).current_lane
                    &&& final(self).board == old(self).board
                },
            },
    {
        match input {
            LaneInput::Up => {
                if self.current_lane > 0 {
                    self.current_lane = self.current_lane - 1;
                }
                LaneKeyResult::Moved(self.current_lane)
            },
            LaneInput::Down => {
                if self.current_lane < LANE_COUNT - 1 {
                    self.current_lane = self.current_lane + 1;
                }
                LaneKeyResult::Moved(self.current_lane)
            },
            LaneInput::Typed(c) => LaneKeyResult::Typed(self.handle_typing(c)),
            LaneInput::Other => LaneKeyResult::Ignored,
        }
    }

    /// Sends `word` down lane `lane_index`, starting at the right edge of that
    /// lane, whose width is the `lane_index`-th of `lane_widths`; nothing
    /// happens when there is no such width.
    pub fn place_text(&mut self, lane_index: usize, word: String, lane_widths: &Vec<i32>)
        requires
            lane_index < lane_widths@.len() ==> lane_index < old(self).lane_texts@.len(),
        ensures
            final(self).lane_texts@.len() == old(self).lane_texts@.len(),
            final(self).lanes() == old(self).after_placing(lane_index as int, word@, lane_widths@),
            lane_index >= lane_widths@.len() ==> final(self).lane_texts == old(self).lane_texts,
            final(self).current_lane == old(self).current_lane,
            final(self).board == old(self).board,
            final(self).game_over == old(self).game_over,
            final(self).game_loop_running == old(self).game_loop_running,
            final(self).word_list == old(self).word_list,
    {
        if lane_index < lane_widths.len() {
            let width = lane_widths[lane_index];
            let x_halves = 2 * (width as i64);
            let ghost before = self.lane_texts@;
            self.lane_texts[lane_index].push(ScrollingText { text: word, x_halves });
            proof {
                lemma_lanes_view_update(before, lane_index as int, self.lane_texts@[lane_index as int]);
                assert(self.lane_texts@ == before.update(lane_index as int, self.lane_texts@[lane_index as int]));
                assert(lane_view(self.lane_texts@[lane_index as int]) =~= lanes_view(before)[lane_index as int].push(
                    (word@, (2 * lane_widths@[lane_index as int]) as i64),
                ));
            }
        }
    }

    /// Sends a randomly chosen word down a randomly chosen lane, starting at
    /// the right edge of that lane (see [`Self::place_text`]).
    pub fn spawn_text(&mut self, lane_widths: &Vec<i32>)
        requires
            old(self).lane_texts@.len() >= LANE_COUNT || old(self).lane_texts@.len() >= lane_widths@.len(),
            old(self).word_list@.len() > 0,
        ensures
            final(self).lane_texts@.len() == old(self).lane_texts@.len(),
            exists|lane: int, w: int|
                0 <= lane < LANE_COUNT && 0 <= w < old(self).word_list@.len()
                && final(self).lanes() == #[trigger] old(self).after_placing(
                    lane,
                    old(self).word_list@[w]@,
                    lane_widths@,
                ),
            final(self).current_lane == old(self).current_lane,
            final(self).board == old(self).board,
            final(self).game_over == old(self).game_over,
            final(self).game_loop_running == old(self).game_loop_running,
            final(self).word_list == old(self).word_list,
    {
        let lane_index = random_below(LANE_COUNT);
        let word = choose_word(&self.word_list).unwrap();
        let ghost w = choose|w: int| 0 <= w < self.word_list@.len() && self.word_list@[w]@ == word@;
        self.place_text(lane_index, word, lane_widths);
        assert(0 <= lane_index < LANE_COUNT && 0 <= w < old(self).word_list@.len());
    }

    /// Whether a word at `x_halves` is drawn on a lane `width` pixels wide:
    /// it is left of the right edge and less than 200 pixels past the left one.
    pub fn is_text_visible(x_halves: i64, width: i32) -> (visible: bool)
        ensures
            visible == (x_halves < 2 * width && x_halves > LEFT_LIMIT_HALVES),
    {
        (x_halves as i128) < 2 * (width as i128) && x_halves > LEFT_LIMIT_HALVES
    }
}

} // verus!
