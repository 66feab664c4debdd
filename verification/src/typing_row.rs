//! The typing row: a target text, the learner's input checked against it, and
//! the cursor drawn under the next character to type.
use vstd::prelude::*;
use crate::text::{
    byte_len, byte_offset, is_prefix, lemma_byte_offset_full, lemma_byte_offset_step, lemma_byte_offset_zero, same_text, starts_with,
    utf8_width,
};

verus! {

/// What the row announces after the input changed.
pub enum TypingEvent {
    /// The input is no longer a prefix of the target. The input is reset to
    /// `corrected`: the input without its last character, cut back to just
    /// after its last space (or to nothing). `at_beginning` tells whether the
    /// input went back to the very start.
    Mistake { corrected: String, at_beginning: bool },
    /// The input equals the (non-empty) target.
    StepCompleted,
    /// The input is a prefix of the target; this is the next character to type.
    NextChar(char),
    /// The input is a prefix of the target and there is no character left to announce.
    NoNextChar,
}

/// State of the typing row: the target text and the cursor position, in characters.
pub struct TypingRow {
    pub target_text: String,
    pub cursor_position: i32,
}

/// Length of the longest prefix of `s` that is empty or ends with a space.
pub open spec fn space_cut(s: Seq<char>) -> int
    decreases s.len(),
{
    if s.len() == 0 {
        0
    } else if s.last() == ' ' {
        s.len() as int
    } else {
        space_cut(s.drop_last())
    }
}

/// Where a mistaken input is reset to: drop its last character, then go back
/// to just after the last remaining space.
pub open spec fn corrected_input(typed: Seq<char>) -> Seq<char> {
    typed.drop_last().take(space_cut(typed.drop_last()))
}

/// The event that the input `typed` raises against `target`, given as a
/// predicate on the event because a `String` is known by its view only.
pub open spec fn raises(typed: Seq<char>, target: Seq<char>, e: TypingEvent) -> bool {
    if !is_prefix(typed, target) && typed.len() > 0 {
        &&& e matches TypingEvent::Mistake { corrected, at_beginning }
        &&& corrected@ == corrected_input(typed)
        &&& at_beginning == (space_cut(typed.drop_last()) == 0)
    } else if typed == target && target.len() > 0 {
        e is StepCompleted
    } else {
        let idx = ((typed.len() as i32) as usize) as int;
        if idx < target.len() {
            e == TypingEvent::NextChar(target[idx])
        } else {
            e is NoNextChar
        }
    }
}

pub proof fn lemma_space_cut_bounds(s: Seq<char>)
    ensures
        0 <= space_cut(s) <= s.len(),
        space_cut(s) > 0 ==> s[space_cut(s) - 1] == ' ',
        forall|j: int| space_cut(s) <= j < s.len() ==> s[j] != ' ',
    decreases s.len(),
{
    if s.len() > 0 && s.last() != ' ' {
        lemma_space_cut_bounds(s.drop_last());
        assert forall|j: int| space_cut(s) <= j < s.len() implies s[j] != ' ' by {
            if j < s.len() - 1 {
                assert(s.drop_last()[j] == s[j]);
            }
        }
    }
}

/// An input that is a prefix of the target is never a mistake.
pub proof fn law_valid_input_is_accepted(typed: Seq<char>, target: Seq<char>, e: TypingEvent)
    requires
        is_prefix(typed, target),
        raises(typed, target, e),
    ensures
        !(e is Mistake),
{
}

/// Every non-empty input that is not a prefix of the target is a mistake:
/// it is longer than the target, or some character differs from the
/// target's character at the same position.
pub proof fn law_wrong_input_is_a_mistake(typed: Seq<char>, target: Seq<char>, e: TypingEvent)
    requires
        typed.len() > 0,
        typed.len() > target.len() || exists|k: int| 0 <= k < typed.len() && typed[k] != target[k],
        raises(typed, target, e),
    ensures
        e is Mistake,
{
    if is_prefix(typed, target) {
        let k = choose|k: int| 0 <= k < typed.len() && typed[k] != target[k];
        assert(target.take(typed.len() as int)[k] == target[k]);
    }
}

/// A mistake resets the input to a prefix of itself without its last
/// character, which is empty or ends with a space, and after which (up to
/// that last character) no space follows; `at_beginning` tells exactly
/// whether that prefix is empty.
pub proof fn law_mistake_resets_to_word_start(typed: Seq<char>, target: Seq<char>, e: TypingEvent)
    requires
        raises(typed, target, e),
        e is Mistake,
    ensures
        e matches TypingEvent::Mistake { corrected, at_beginning } && {
            &&& corrected@.len() < typed.len()
            &&& corrected@ =~= typed.take(corrected@.len() as int)
            &&& corrected@.len() == 0 || corrected@.last() == ' '
            &&& forall|j: int| corrected@.len() <= j < typed.len() - 1 ==> typed[j] != ' '
            &&& at_beginning == (corrected@.len() == 0)
        },
{
    let w = typed.drop_last();
    lemma_space_cut_bounds(w);
    let k = space_cut(w);
    assert(!is_prefix(typed, target) && typed.len() > 0);
    assert(w.take(k) =~= typed.take(k));
    if k > 0 {
        assert(w.take(k).last() == w[k - 1]);
    }
    assert forall|j: int| k <= j < typed.len() - 1 implies typed[j] != ' ' by {
        assert(w[j] == typed[j]);
    }
}

/// Typing the whole (non-empty) target completes the step.
pub proof fn law_whole_target_completes(target: Seq<char>, e: TypingEvent)
    requires
        target.len() > 0,
        raises(target, target, e),
    ensures
        e is StepCompleted,
{
    assert(target.take(target.len() as int) =~= target);
}

/// While the input is a proper prefix of the target, the row announces the
/// target character right after the input.
pub proof fn law_next_char_follows_input(typed: Seq<char>, target: Seq<char>, e: TypingEvent)
    requires
        is_prefix(typed, target),
        typed.len() < target.len(),
        typed.len() <= i32::MAX,
        raises(typed, target, e),
    ensures
        e == TypingEvent::NextChar(target[typed.len() as int]),
{
}

/// When a mistake follows a valid input (the input without its last
/// character was a prefix of the target), the input it is reset to is again
/// a prefix of the target, so checking it raises no mistake. It is shorter
/// than the mistaken input and ends at a word boundary: it is empty or ends
/// with a space.
pub proof fn law_correction_is_accepted(typed: Seq<char>, target: Seq<char>)
    requires
        typed.len() > 0,
        is_prefix(typed.drop_last(), target),
    ensures
        is_prefix(corrected_input(typed), target),
        corrected_input(typed).len() < typed.len(),
        corrected_input(typed).len() == 0 || corrected_input(typed).last() == ' ',
{
    let w = typed.drop_last();
    lemma_space_cut_bounds(w);
    let k = space_cut(w);
    assert(target.take(k) =~= w.take(k));
}

impl TypingRow {
    /// A row with an empty target and the cursor at the start.
    pub fn new() -> (row: Self)
        ensures
            row.target_text@ == Seq::<char>::empty(),
            row.cursor_position == 0,
    {
        TypingRow { target_text: String::new(), cursor_position: 0 }
    }

    /// Sets the text to type and puts the cursor back at its start.
    pub fn set_target_text(&mut self, text: &str)
        ensures
            final(self).target_text@ == text@,
            final(self).cursor_position == 0,
    {
        self.target_text = text.to_owned();
        self.cursor_position = 0;
    }

    /// Checks the learner's input `typed` against the target. A mistake leaves
    /// the cursor where it was; otherwise the cursor moves to the number of
    /// characters typed.
    pub fn validate_input(&mut self, typed: &str) -> (e: TypingEvent)
        ensures
            raises(typed@, old(self).target_text@, e),
            final(self).target_text == old(self).target_text,
            final(self).cursor_position == if e is Mistake {
                old(self).cursor_position
            } else {
                typed@.len() as i32
            },
    {
        if !starts_with(self.target_text.as_str(), typed) && !typed.is_empty() {
            let n = typed.unicode_len();
            let mut k: usize = n - 1;
            proof {
                assert(typed@.take(k as int) =~= typed@.drop_last());
            }
            while k > 0 && typed.get_char(k - 1) != ' '
                invariant
                    n == typed@.len(),
                    n > 0,
                    k <= n - 1,
                    space_cut(typed@.drop_last()) == space_cut(typed@.take(k as int)),
                decreases k,
            {
                proof {
                    assert(typed@.take(k as int).drop_last() =~= typed@.take(k - 1));
                }
                k = k - 1;
            }
            proof {
                if k > 0 {
                    assert(typed@.take(k as int).last() == typed@[k - 1]);
                }
                assert(typed@.subrange(0, k as int) =~= corrected_input(typed@));
            }
            let corrected = typed.substring_char(0, k).to_owned();
            return TypingEvent::Mistake { corrected, at_beginning: k == 0 };
        }
        let count = typed.unicode_len();
        let cursor = count as i32;
        self.cursor_position = cursor;
        let target = self.target_text.as_str();
        if same_text(typed, target) && !target.is_empty() {
            return TypingEvent::StepCompleted;
        }
        let idx = cursor as usize;
        if idx < target.unicode_len() {
            TypingEvent::NextChar(target.get_char(idx))
        } else {
            TypingEvent::NoNextChar
        }
    }

    /// Where the input's cursor is held: at the end of the input, counted in
    /// characters.
    pub fn locked_cursor_position(text: &str) -> (pos: i32)
        ensures
            pos == text@.len() as i32,
    {
        text.unicode_len() as i32
    }

    /// The position the input's cursor must be moved to, if it is not already
    /// at the end of the input.
    pub fn cursor_correction(text: &str, current: i32) -> (fix: Option<i32>)
        ensures
            fix == if current == text@.len() as i32 {
                None
            } else {
                Some(text@.len() as i32)
            },
    {
        let pos = Self::locked_cursor_position(text);
        if current != pos {
            Some(pos)
        } else {
            None
        }
    }

    /// Whether a composition (pre-edit) text marks the start of a dead key:
    /// it is a single character.
    pub fn starts_dead_key(preedit: &str) -> (b: bool)
        ensures
            b == (preedit@.len() == 1),
    {
        let composing = !preedit.is_empty();
        composing && preedit.unicode_len() == 1
    }

    /// Byte index in `text` of the character at position `char_pos`, or the
    /// byte length of `text` when `char_pos` is at or past its end.
    pub fn char_pos_to_byte_index(text: &str, char_pos: usize) -> (idx: usize)
        ensures
            idx == byte_offset(
                text@,
                if char_pos < text@.len() { char_pos as int } else { text@.len() as int },
            ),
            char_pos >= text@.len() ==> idx == byte_len(text@),
    {
        let total = text.as_bytes().len();
        proof {
            broadcast use vstd::slice::axiom_spec_len;

            assert(byte_len(text@) == total);
            lemma_byte_offset_full(text@);
        }
        let n = text.unicode_len();
        let mut i: usize = 0;
        let mut b: usize = 0;
        proof {
            lemma_byte_offset_zero(text@);
        }
        while i < n && i < char_pos
            invariant
                n == text@.len(),
                i <= n,
                i <= char_pos || i == 0,
                byte_len(text@) <= usize::MAX,
                b == byte_offset(text@, i as int),
            decreases n - i,
        {
            let c = text.get_char(i);
            proof {
                lemma_byte_offset_step(text@, i as int);
            }
            b = b + utf8_width(c);
            i = i + 1;
        }
        b
    }
}

} // verus!
