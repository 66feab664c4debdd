//! The falling keys game: letters fall from the top of the play area; typing a
//! letter catches the first falling key that shows it. The game ends when a key
//! falls past the bottom.
//!
//! Vertical positions are counted in half pixels, so that the speeds of the
//! game (two pixels per tick plus half a pixel per level) are exact. The
//! horizontal position of a key only matters for drawing: the game carries it
//! as an opaque value of type `X`.
use vstd::prelude::*;
use crate::chance::random_below;
use crate::game_loop::{next_generation, GameLoop};
use crate::scoring::{BoardView, Scoreboard};

verus! {

/// Number of letters that can fall.
pub const KEY_COUNT: usize = 15;

/// The letters that can fall, home row first.
pub open spec fn spawnable_keys() -> Seq<char> {
    seq!['a', 's', 'd', 'f', 'j', 'k', 'l', 'q', 'w', 'e', 'r', 'u', 'i', 'o', 'p']
}

/// The letter at position `i` of [`spawnable_keys`].
pub fn spawnable_key(i: usize) -> (c: char)
    requires
        i < KEY_COUNT,
    ensures
        c == spawnable_keys()[i as int],
{
    match i {
        0 => 'a',
        1 => 's',
        2 => 'd',
        3 => 'f',
        4 => 'j',
        5 => 'k',
        6 => 'l',
        7 => 'q',
        8 => 'w',
        9 => 'e',
        10 => 'r',
        11 => 'u',
        12 => 'i',
        13 => 'o',
        _ => 'p',
    }
}

/// The key a typed character stands for: the character, with ASCII capitals
/// turned into small letters.
pub open spec fn key_of(c: char) -> char {
    if 'A' <= c <= 'Z' {
        ((c as u32) + 32) as char
    } else {
        c
    }
}

/// A falling letter: which one, how far it has fallen (in half pixels) and
/// where it stands across the play area.
pub struct FallingKey<X> {
    pub key: char,
    pub y_halves: u64,
    pub x: X,
}

/// The key after falling `speed` half pixels; positions stop growing at the
/// largest `u64`, far below any play area's bottom.
pub open spec fn fallen<X>(k: FallingKey<X>, speed: u64) -> FallingKey<X> {
    FallingKey { key: k.key, y_halves: k.y_halves.saturating_add(speed), x: k.x }
}

/// The key has fallen past the bottom of a play area `height` pixels high.
pub open spec fn past_bottom<X>(k: FallingKey<X>, height: i32) -> bool {
    k.y_halves > 2 * height
}

/// `i` is the position of the first key in `keys` that shows `key`.
pub open spec fn is_first_match<X>(keys: Seq<FallingKey<X>>, key: char, i: int) -> bool {
    &&& 0 <= i < keys.len()
    &&& keys[i].key == key
    &&& forall|j: int| 0 <= j < i ==> keys[j].key != key
}

/// Falling only moves keys down: each key keeps its letter and horizontal
/// position, and never rises.
pub proof fn law_fall_only_moves_down<X>(keys: Seq<FallingKey<X>>, speed: u64, i: int)
    requires
        0 <= i < keys.len(),
    ensures
        keys.map_values(|k: FallingKey<X>| fallen(k, speed)).len() == keys.len(),
        keys.map_values(|k: FallingKey<X>| fallen(k, speed))[i].key == keys[i].key,
        keys.map_values(|k: FallingKey<X>| fallen(k, speed))[i].x == keys[i].x,
        keys.map_values(|k: FallingKey<X>| fallen(k, speed))[i].y_halves >= keys[i].y_halves,
        keys[i].y_halves + speed <= u64::MAX ==> keys.map_values(
            |k: FallingKey<X>| fallen(k, speed),
        )[i].y_halves == keys[i].y_halves + speed,
{
}

/// A key is past the bottom of a play area exactly when it has fallen more
/// than twice its height in half pixels, that is, more than its height in
/// pixels.
pub proof fn law_past_bottom_is_below_height<X>(k: FallingKey<X>, height: i32)
    ensures
        past_bottom(k, height) <==> k.y_halves > 2 * height,
{
}

/// Catching a key takes exactly that key away and keeps the others in order.
pub proof fn law_catch_takes_one_key<X>(keys: Seq<FallingKey<X>>, key: char, i: int)
    requires
        is_first_match(keys, key, i),
    ensures
        keys.remove(i).len() == keys.len() - 1,
        forall|j: int| 0 <= j < i ==> #[trigger] keys.remove(i)[j] == keys[j],
        forall|j: int| i <= j < keys.len() - 1 ==> #[trigger] keys.remove(i)[j] == keys[j + 1],
{
}

/// What a key press did.
#[derive(Clone, Copy, Debug, PartialEq, Eq, Structural)]
pub enum KeyPress {
    /// A falling key was caught; `level_up` tells whether the level rose.
    Hit { level_up: bool },
    /// No falling key matched; `score_changed` tells whether a point was lost.
    Miss { score_changed: bool },
}

/// State of the falling keys game.
pub struct FallingKeysGame<X> {
    pub falling_keys: Vec<FallingKey<X>>,
    pub board: Scoreboard,
    pub game_over: bool,
    pub game_loop: GameLoop,
}

impl<X> FallingKeysGame<X> {
    /// A game that was never shown: no keys, every counter at zero, the loop
    /// not started.
    pub fn new() -> (g: Self)
        ensures
            g.falling_keys@ == Seq::<FallingKey<X>>::empty(),
            g.board@ == BoardView::initial(),
            !g.game_over,
            !g.game_loop.running,
            g.game_loop.generation == 0,
    {
        FallingKeysGame {
            falling_keys: Vec::new(),
            board: Scoreboard::new(),
            game_over: false,
            game_loop: GameLoop::new(),
        }
    }

    /// Restarts the game: no keys, no points, level 1, two pixels per tick,
    /// and the game loop running. When the loop was not running, a new
    /// generation of timers is to be started, and its number is returned.
    pub fn reset(&mut self) -> (started: Option<u64>)
        ensures
            final(self).falling_keys@ == Seq::<FallingKey<X>>::empty(),
            final(self).board@ == BoardView::fresh(),
            !final(self).game_over,
            final(self).game_loop.running,
            old(self).game_loop.running ==> started is None
                && final(self).game_loop == old(self).game_loop,
            !old(self).game_loop.running ==> final(self).game_loop.generation == next_generation(
                old(self).game_loop.generation,
            ) && started == Some(final(self).game_loop.generation),
    {
        self.falling_keys.clear();
        self.board.reset();
        self.game_over = false;
        self.start_game_loop()
    }

    /// Marks the game loop as running. When it was not running, a new
    /// generation of timers is to be started, and its number is returned;
    /// otherwise the running timers go on and nothing is to be started.
    pub fn start_game_loop(&mut self) -> (started: Option<u64>)
        ensures
            final(self).game_loop.running,
            old(self).game_loop.running ==> started is None
                && final(self).game_loop == old(self).game_loop,
            !old(self).game_loop.running ==> final(self).game_loop.generation == next_generation(
                old(self).game_loop.generation,
            ) && started == Some(final(self).game_loop.generation),
            final(self).falling_keys == old(self).falling_keys,
            final(self).board == old(self).board,
            final(self).game_over == old(self).game_over,
    {
        self.game_loop.start()
    }

    /// Decision of the update timer of generation `generation` before each
    /// tick: a timer of an earlier start stops; the current one stops once
    /// the game is over (and the loop is then no longer running).
    pub fn update_timer_continues(&mut self, generation: u64) -> (go_on: bool)
        ensures
            go_on == old(self).game_loop.timer_goes_on(old(self).game_over, generation),
            final(self).game_loop.generation == old(self).game_loop.generation,
            final(self).game_loop.running == if generation == old(self).game_loop.generation
                && old(self).game_over {
                false
            } else {
                old(self).game_loop.running
            },
            final(self).falling_keys == old(self).falling_keys,
            final(self).board == old(self).board,
            final(self).game_over == old(self).game_over,
    {
        let over = self.game_over;
        self.game_loop.update_timer_continues(over, generation)
    }

    /// Decision of the spawn timer of generation `generation` before each
    /// tick: it goes on only while it is current and the game is not over.
    pub fn spawn_timer_continues(&self, generation: u64) -> (go_on: bool)
        ensures
            go_on == self.game_loop.timer_goes_on(self.game_over, generation),
    {
        self.game_loop.spawn_timer_continues(self.game_over, generation)
    }

    /// Keys are only spawned into a play area wider than 100 pixels.
    pub fn has_room_to_spawn(width: i32) -> (room: bool)
        ensures
            room == (width > 100),
    {
        width > 100
    }

    /// Adds the letter at position `key_index` of the spawnable letters at
    /// the top of the play area, at horizontal position `x`.
    pub fn place_key(&mut self, key_index: usize, x: X)
        requires
            key_index < KEY_COUNT,
        ensures
            final(self).falling_keys@ == old(self).falling_keys@.push(
                FallingKey { key: spawnable_keys()[key_index as int], y_halves: 0, x },
            ),
            final(self).board == old(self).board,
            final(self).game_over == old(self).game_over,
            final(self).game_loop == old(self).game_loop,
    {
        let key = spawnable_key(key_index);
        self.falling_keys.push(FallingKey { key, y_halves: 0, x });
    }

    /// Spawns a randomly chosen letter at the top of a play area `width`
    /// pixels wide, at horizontal position `x`, provided the area is wider
    /// than 100 pixels.
    pub fn spawn_key(&mut self, width: i32, x: X)
        ensures
            width > 100 ==> exists|i: int|
                0 <= i < KEY_COUNT && final(self).falling_keys@ == old(self).falling_keys@.push(
                    FallingKey { key: #[trigger] spawnable_keys()[i], y_halves: 0, x },
                ),
            width <= 100 ==> final(self).falling_keys == old(self).falling_keys,
            final(self).board == old(self).board,
            final(self).game_over == old(self).game_over,
            final(self).game_loop == old(self).game_loop,
    {
        if Self::has_room_to_spawn(width) {
            let key_index = random_below(KEY_COUNT);
            self.place_key(key_index, x);
        }
    }

    /// One tick of the game in a play area `height` pixels high: every key
    /// falls by the current speed; the game ends when a key is past the
    /// bottom. Tells whether that is so.
    pub fn update_game(&mut self, height: i32) -> (ended: bool)
        ensures
            final(self).falling_keys@ == old(self).falling_keys@.map_values(
                |k: FallingKey<X>| fallen(k, old(self).board@.speed_halves),
            ),
            ended == exists|i: int|
                0 <= i < final(self).falling_keys@.len() && past_bottom(
                    #[trigger] final(self).falling_keys@[i],
                    height,
                ),
            ended == exists|i: int|
                0 <= i < final(self).falling_keys@.len()
                    && (#[trigger] final(self).falling_keys@[i]).y_halves > 2 * height,
            final(self).game_over == (old(self).game_over || ended),
            final(self).board == old(self).board,
            final(self).game_loop == old(self).game_loop,
    {
        let speed = self.board.speed_halves();
        let n = self.falling_keys.len();
        let ghost start = self.falling_keys@;
        let mut i: usize = 0;
        while i < n
            invariant
                n == start.len(),
                self.falling_keys@.len() == n,
                i <= n,
                speed == self.board@.speed_halves,
                self.board == old(self).board,
                self.game_over == old(self).game_over,
                self.game_loop == old(self).game_loop,
                forall|j: int| 0 <= j < i ==> #[trigger] self.falling_keys@[j] == fallen(start[j], speed),
                forall|j: int| i <= j < n ==> #[trigger] self.falling_keys@[j] == start[j],
            decreases n - i,
        {
            let y = self.falling_keys[i].y_halves.saturating_add(speed);
            self.falling_keys[i].y_halves = y;
            i = i + 1;
        }
        assert(self.falling_keys@ =~= start.map_values(|k: FallingKey<X>| fallen(k, speed)));
        let mut ended = false;
        let mut j: usize = 0;
        while j < n
            invariant
                n == self.falling_keys@.len(),
                j <= n,
                self.board == old(self).board,
                self.game_over == old(self).game_over,
                ended == exists|m: int| 0 <= m < j && past_bottom(#[trigger] self.falling_keys@[m], height),
            decreases n - j,
        {
            let y = self.falling_keys[j].y_halves;
            if (y as i128) > 2 * (height as i128) {
                assert(past_bottom(self.falling_keys@[j as int], height));
                ended = true;
            }
            j = j + 1;
        }
        if ended {
            self.game_over = true;
        }
        assert(ended == exists|m: int| 0 <= m < self.falling_keys@.len() && past_bottom(#[trigger] self.falling_keys@[m], height));
        ended
    }

    /// The key a typed character stands for (ASCII capitals become small).
    pub fn key_for_typed_char(c: char) -> (key: char)
        ensures
            key == key_of(c),
    {
        if 'A' <= c && c <= 'Z' {
            ((c as u8) + 32) as char
        } else {
            c
        }
    }

    /// A key press: the first falling key showing `key` is caught and scores
    /// a point (every tenth point raises the level and the speed); when no
    /// falling key shows it, a point is lost.
    pub fn handle_key_press(&mut self, key: char) -> (press: KeyPress)
        requires
            (exists|i: int| 0 <= i < old(self).falling_keys@.len() && old(self).falling_keys@[i].key == key)
                ==> old(self).board@.can_hit(),
        ensures
            final(self).game_over == old(self).game_over,
            final(self).game_loop == old(self).game_loop,
            match press {
                KeyPress::Hit { level_up } => {
                    &&& exists|i: int| is_first_match(old(self).falling_keys@, key, i)
                        && final(self).falling_keys@ == old(self).falling_keys@.remove(i)
                    &&& final(self).board@ == old(self).board@.after_hit()
                    &&& level_up == old(self).board@.levels_up_on_hit()
                },
                KeyPress::Miss { score_changed } => {
                    &&& forall|i: int| 0 <= i < old(self).falling_keys@.len()
                        ==> #[trigger] old(self).falling_keys@[i].key != key
                    &&& final(self).falling_keys == old(self).falling_keys
                    &&& final(self).board@ == old(self).board@.after_miss()
                    &&& score_changed == (old(self).board@.score > 0)
                },
            },
    {
        let n = self.falling_keys.len();
        let mut i: usize = 0;
        while i < n && self.falling_keys[i].key != key
            invariant
                n == self.falling_keys@.len(),
                i <= n,
                forall|j: int| 0 <= j < i ==> #[trigger] self.falling_keys@[j].key != key,
            decreases n - i,
        {
            i = i + 1;
        }
        if i < n {
            assert(is_first_match(self.falling_keys@, key, i as int));
            self.falling_keys.remove(i);
            let level_up = self.board.hit();
            KeyPress::Hit { level_up }
        } else {
            let score_changed = self.board.miss();
            KeyPress::Miss { score_changed }
        }
    }
}

} // verus!
