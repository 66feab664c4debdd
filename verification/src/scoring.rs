//! Score, level and speed shared by the two practice games.
//!
//! A hit scores a point; every tenth point raises the level by one and the
//! speed by half a pixel per tick. A miss costs a point, never going below
//! zero. Speeds are counted in half pixels per tick.
use vstd::prelude::*;

verus! {

/// The counters of a board: score, difficulty level and speed (in half
/// pixels per tick).
#[derive(Clone, Copy, Debug, PartialEq, Eq, Structural)]
pub struct BoardView {
    pub score: u32,
    pub difficulty: u32,
    pub speed_halves: u64,
}

impl BoardView {
    /// The speed never runs ahead of the level by more than the fresh pace.
    pub open spec fn wf(self) -> bool {
        self.speed_halves <= self.difficulty + 3
    }

    /// How far the speed (in half pixels) is ahead of the level.
    pub open spec fn pace_offset(self) -> int {
        self.speed_halves - self.difficulty
    }

    /// Whether the next hit reaches a multiple of ten points.
    pub open spec fn levels_up_on_hit(self) -> bool {
        (self.score + 1) % 10 == 0
    }

    /// Whether a hit can be counted without leaving the counters' range.
    pub open spec fn can_hit(self) -> bool {
        &&& self.score < u32::MAX
        &&& self.levels_up_on_hit() ==> self.difficulty < u32::MAX
    }

    /// The board after a hit.
    pub open spec fn after_hit(self) -> BoardView {
        if self.levels_up_on_hit() {
            BoardView {
                score: (self.score + 1) as u32,
                difficulty: (self.difficulty + 1) as u32,
                speed_halves: (self.speed_halves + 1) as u64,
            }
        } else {
            BoardView { score: (self.score + 1) as u32, ..self }
        }
    }

    /// The board after a miss.
    pub open spec fn after_miss(self) -> BoardView {
        if self.score > 0 {
            BoardView { score: (self.score - 1) as u32, ..self }
        } else {
            self
        }
    }

    /// The board of a game that was never started: all counters at zero.
    pub open spec fn initial() -> BoardView {
        BoardView { score: 0, difficulty: 0, speed_halves: 0 }
    }

    /// The board of a game that was (re)started: no points, level 1, two
    /// pixels per tick.
    pub open spec fn fresh() -> BoardView {
        BoardView { score: 0, difficulty: 1, speed_halves: 4 }
    }
}

/// Score, difficulty level and speed (in half pixels per tick) of a game.
/// Every board is well formed ([`BoardView::wf`]): each function taking or
/// giving one says so. The speed never runs ahead of the level by more than the fresh pace.
#[derive(Clone, Copy, Debug, PartialEq, Eq, Structural)]
pub struct Scoreboard {
    score: u32,
    difficulty: u32,
    speed_halves: u64,
}

impl View for Scoreboard {
    type V = BoardView;

    closed spec fn view(&self) -> BoardView {
        BoardView { score: self.score, difficulty: self.difficulty, speed_halves: self.speed_halves }
    }
}

impl Scoreboard {
    #[verifier::type_invariant]
    spec fn speed_within_level(self) -> bool {
        self.speed_halves <= self.difficulty + 3
    }

    pub fn new() -> (b: Self)
        ensures
            b@ == BoardView::initial(),
            b@.wf(),
    {
        Scoreboard { score: 0, difficulty: 0, speed_halves: 0 }
    }

    pub fn reset(&mut self)
        ensures
            final(self)@ == BoardView::fresh(),
            final(self)@.wf(),
    {
        *self = Scoreboard { score: 0, difficulty: 1, speed_halves: 4 };
    }

    pub fn score(&self) -> (s: u32)
        ensures
            s == self@.score,
            self@.wf(),
    {
        proof {
            use_type_invariant(self);
        }
        self.score
    }

    pub fn difficulty(&self) -> (d: u32)
        ensures
            d == self@.difficulty,
            self@.wf(),
    {
        proof {
            use_type_invariant(self);
        }
        self.difficulty
    }

    /// The speed, in half pixels per tick.
    pub fn speed_halves(&self) -> (v: u64)
        ensures
            v == self@.speed_halves,
            self@.wf(),
    {
        proof {
            use_type_invariant(self);
        }
        self.speed_halves
    }

    /// Score, difficulty and speed, in that order.
    pub fn counters(&self) -> (c: (u32, u32, u64))
        ensures
            c == (self@.score, self@.difficulty, self@.speed_halves),
            self@.wf(),
    {
        proof {
            use_type_invariant(self);
        }
        (self.score, self.difficulty, self.speed_halves)
    }

    /// Counts a hit; tells whether it raised the level.
    pub fn hit(&mut self) -> (level_up: bool)
        requires
            old(self)@.can_hit(),
        ensures
            final(self)@ == old(self)@.after_hit(),
            level_up == old(self)@.levels_up_on_hit(),
            level_up == ((old(self)@.score + 1) % 10 == 0),
            final(self)@.score == old(self)@.score + 1,
            final(self)@.difficulty == old(self)@.difficulty + if level_up { 1int } else { 0int },
            final(self)@.speed_halves == old(self)@.speed_halves + if level_up { 1int } else { 0int },
            old(self)@.wf(),
            final(self)@.wf(),
    {
        proof {
            use_type_invariant(&*self);
        }
        self.score = self.score + 1;
        if self.score % 10 == 0 {
            self.difficulty = self.difficulty + 1;
            self.speed_halves = self.speed_halves + 1;
            true
        } else {
            false
        }
    }

    /// Counts a miss; tells whether the score changed (it stays at zero).
    pub fn miss(&mut self) -> (changed: bool)
        ensures
            final(self)@ == old(self)@.after_miss(),
            changed == (old(self)@.score > 0),
            final(self)@.score == if changed { old(self)@.score - 1 } else { 0 },
            final(self)@.difficulty == old(self)@.difficulty,
            final(self)@.speed_halves == old(self)@.speed_halves,
            old(self)@.wf(),
            final(self)@.wf(),
    {
        proof {
            use_type_invariant(&*self);
        }
        if self.score > 0 {
            self.score = self.score - 1;
            true
        } else {
            false
        }
    }
}

/// A hit scores one point; a hit that brings the score to a multiple of ten
/// raises the level by one and the speed by half a pixel per tick, any other
/// hit leaves them as they are.
pub proof fn law_hit_scores_and_levels_up_every_tenth_point(b: BoardView)
    requires
        b.wf(),
        b.can_hit(),
    ensures
        b.after_hit().score == b.score + 1,
        (b.score + 1) % 10 == 0 ==> b.after_hit().difficulty == b.difficulty + 1
            && b.after_hit().speed_halves == b.speed_halves + 1,
        (b.score + 1) % 10 != 0 ==> b.after_hit().difficulty == b.difficulty
            && b.after_hit().speed_halves == b.speed_halves,
        b.levels_up_on_hit() <==> (b.score + 1) % 10 == 0,
{
}

/// A miss takes one point off a positive score and leaves a zero score, the
/// level and the speed as they are.
pub proof fn law_miss_takes_a_point(b: BoardView)
    ensures
        b.after_miss().score == if b.score > 0 { b.score - 1 } else { 0 },
        b.after_miss().difficulty == b.difficulty,
        b.after_miss().speed_halves == b.speed_halves,
{
}

/// A miss right after a hit takes the point back; when the hit did not raise
/// the level, the board is exactly as before.
pub proof fn law_miss_undoes_hit(b: BoardView)
    requires
        b.can_hit(),
    ensures
        b.after_hit().after_miss().score == b.score,
        !b.levels_up_on_hit() ==> b.after_hit().after_miss() == b,
{
}

/// Hits and misses move the speed together with the level: each level adds
/// half a pixel per tick, so the distance between them never changes, and
/// well-formed boards stay well-formed.
pub proof fn law_speed_follows_level(b: BoardView)
    requires
        b.wf(),
        b.can_hit(),
    ensures
        b.after_hit().pace_offset() == b.pace_offset(),
        b.after_miss().pace_offset() == b.pace_offset(),
        b.after_hit().wf(),
        b.after_miss().wf(),
{
}

/// A restarted game runs at two pixels per tick on level 1, and from then on
/// at two pixels plus half a pixel per level above the first.
pub proof fn law_fresh_speed(b: BoardView)
    requires
        b.pace_offset() == BoardView::fresh().pace_offset(),
    ensures
        BoardView::fresh().wf(),
        BoardView::fresh().pace_offset() == 3,
        b.speed_halves == 4 + (b.difficulty - 1),
{
}

/// The score never drops below zero: a miss at zero leaves the board as it is.
pub proof fn law_miss_at_zero(b: BoardView)
    requires
        b.score == 0,
    ensures
        b.after_miss() == b,
{
}

} // verus!
