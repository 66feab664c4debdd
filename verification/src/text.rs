//! Character-level views of strings: UTF-8 widths and byte offsets, prefixes.
use vstd::prelude::*;
use vstd::utf8::*;

verus! {

/// Number of bytes the UTF-8 encoding of `c` takes.
pub open spec fn char_width(c: char) -> nat {
    if c as u32 <= 0x7F {
        1
    } else if c as u32 <= 0x7FF {
        2
    } else if c as u32 <= 0xFFFF {
        3
    } else {
        4
    }
}

/// Number of bytes of the UTF-8 encoding of `s`.
pub open spec fn byte_len(s: Seq<char>) -> nat {
    encode_utf8(s).len()
}

/// Byte offset at which the character at position `k` of `s` starts.
pub open spec fn byte_offset(s: Seq<char>, k: int) -> nat {
    byte_len(s.take(k))
}

/// `p` is a prefix of `s`.
pub open spec fn is_prefix(p: Seq<char>, s: Seq<char>) -> bool {
    p.len() <= s.len() && s.take(p.len() as int) =~= p
}

pub proof fn lemma_byte_len_single(c: char)
    ensures
        byte_len(seq![c]) == char_width(c),
{
    broadcast use char_is_scalar;

    assert(seq![c].drop_first() =~= Seq::<char>::empty());
    assert(encode_utf8(Seq::<char>::empty()) =~= Seq::<u8>::empty());
}

pub proof fn lemma_byte_len_concat(a: Seq<char>, b: Seq<char>)
    ensures
        byte_len(a + b) == byte_len(a) + byte_len(b),
    decreases a.len(),
{
    if a.len() == 0 {
        assert(a + b =~= b);
        assert(encode_utf8(a) =~= Seq::<u8>::empty());
    } else {
        assert((a + b).drop_first() =~= a.drop_first() + b);
        lemma_byte_len_concat(a.drop_first(), b);
    }
}

/// Advancing one character advances the byte offset by that character's width.
pub proof fn lemma_byte_offset_step(s: Seq<char>, k: int)
    requires
        0 <= k < s.len(),
    ensures
        byte_offset(s, k + 1) == byte_offset(s, k) + char_width(s[k]),
        byte_offset(s, k + 1) <= byte_len(s),
{
    assert(s.take(k + 1) =~= s.take(k) + seq![s[k]]);
    lemma_byte_len_concat(s.take(k), seq![s[k]]);
    lemma_byte_len_single(s[k]);
    assert(s =~= s.take(k + 1) + s.skip(k + 1));
    lemma_byte_len_concat(s.take(k + 1), s.skip(k + 1));
}

/// The first character starts at byte zero.
pub proof fn lemma_byte_offset_zero(s: Seq<char>)
    ensures
        byte_offset(s, 0) == 0,
{
    assert(s.take(0) =~= Seq::<char>::empty());
    assert(encode_utf8(s.take(0)) =~= Seq::<u8>::empty());
}

/// Later characters start at later bytes.
pub proof fn law_byte_offset_monotone(s: Seq<char>, j: int, k: int)
    requires
        0 <= j <= k <= s.len(),
    ensures
        byte_offset(s, j) <= byte_offset(s, k),
{
    assert(s.take(k) =~= s.take(j) + s.subrange(j, k));
    lemma_byte_len_concat(s.take(j), s.subrange(j, k));
}

/// The whole string ends at the byte offset of its length.
pub proof fn lemma_byte_offset_full(s: Seq<char>)
    ensures
        byte_offset(s, s.len() as int) == byte_len(s),
{
    assert(s.take(s.len() as int) =~= s);
}

/// UTF-8 width of a character.
pub fn utf8_width(c: char) -> (w: usize)
    ensures
        w == char_width(c),
{
    let v = c as u32;
    if v <= 0x7F {
        1
    } else if v <= 0x7FF {
        2
    } else if v <= 0xFFFF {
        3
    } else {
        4
    }
}

/// Whether `p` is a prefix of `s`, character by character.
pub fn starts_with(s: &str, p: &str) -> (b: bool)
    ensures
        b == is_prefix(p@, s@),
{
    let n = s.unicode_len();
    let m = p.unicode_len();
    if m > n {
        return false;
    }
    let mut i: usize = 0;
    while i < m
        invariant
            m <= n,
            n == s@.len(),
            m == p@.len(),
            0 <= i <= m,
            forall|j: int| 0 <= j < i ==> s@[j] == p@[j],
        decreases m - i,
    {
        if s.get_char(i) != p.get_char(i) {
            assert(s@.take(m as int)[i as int] != p@[i as int]);
            return false;
        }
        i = i + 1;
    }
    true
}

/// The characters with the Unicode `White_Space` property.
pub open spec fn is_white_space(c: char) -> bool {
    let v = c as u32;
    ||| 0x9 <= v <= 0xD
    ||| v == 0x20
    ||| v == 0x85
    ||| v == 0xA0
    ||| v == 0x1680
    ||| 0x2000 <= v <= 0x200A
    ||| v == 0x2028
    ||| v == 0x2029
    ||| v == 0x202F
    ||| v == 0x205F
    ||| v == 0x3000
}

/// The words of `s`: its maximal runs of characters that are not white
/// space, in order.
pub open spec fn words(s: Seq<char>) -> Seq<Seq<char>>
    decreases s.len(),
{
    if s.len() == 0 {
        Seq::empty()
    } else {
        let w = words(s.drop_last());
        let c = s.last();
        if is_white_space(c) {
            w
        } else if s.len() >= 2 && !is_white_space(s[s.len() - 2]) {
            w.update(w.len() - 1, w.last().push(c))
        } else {
            w.push(seq![c])
        }
    }
}

/// Every word has letters, and none of them is white space.
pub proof fn law_words_are_nonempty_without_white_space(s: Seq<char>)
    ensures
        forall|i: int| 0 <= i < words(s).len() ==> (#[trigger] words(s)[i]).len() > 0,
        forall|i: int, j: int|
            0 <= i < words(s).len() && 0 <= j < words(s)[i].len() ==> !is_white_space(
                #[trigger] words(s)[i][j],
            ),
    decreases s.len(),
{
    if s.len() > 0 {
        law_words_are_nonempty_without_white_space(s.drop_last());
        let w = words(s.drop_last());
        let c = s.last();
        if !is_white_space(c) {
            if s.len() >= 2 && !is_white_space(s[s.len() - 2]) {
                lemma_words_end_with_last(s.drop_last());
                assert forall|i: int, j: int|
                    0 <= i < words(s).len() && 0 <= j < words(s)[i].len() implies !is_white_space(
                        #[trigger] words(s)[i][j],
                    ) by {
                    if i == w.len() - 1 && j == w.last().len() {
                        assert(words(s)[i][j] == c);
                    } else if i == w.len() - 1 {
                        assert(words(s)[i][j] == w[i][j]);
                    } else {
                        assert(words(s)[i] == w[i]);
                    }
                }
            } else {
                assert forall|i: int, j: int|
                    0 <= i < words(s).len() && 0 <= j < words(s)[i].len() implies !is_white_space(
                        #[trigger] words(s)[i][j],
                    ) by {
                    if i < w.len() {
                        assert(words(s)[i] == w[i]);
                    }
                }
            }
        }
    }
}

/// A text ending in a letter has at least one word.
proof fn lemma_words_end_with_last(s: Seq<char>)
    requires
        s.len() > 0,
        !is_white_space(s.last()),
    ensures
        words(s).len() > 0,
    decreases s.len(),
{
    if s.len() >= 2 && !is_white_space(s[s.len() - 2]) {
        lemma_words_end_with_last(s.drop_last());
    }
}

/// Whether `c` is white space.
pub fn white_space(c: char) -> (b: bool)
    ensures
        b == is_white_space(c),
{
    let v = c as u32;
    (0x9 <= v && v <= 0xD) || v == 0x20 || v == 0x85 || v == 0xA0 || v == 0x1680 || (0x2000 <= v
        && v <= 0x200A) || v == 0x2028 || v == 0x2029 || v == 0x202F || v == 0x205F || v == 0x3000
}

/// The views of a list of strings.
pub open spec fn strings_view(v: Seq<String>) -> Seq<Seq<char>> {
    v.map_values(|s: String| s@)
}

/// Splits `text` into its words (see [`words`]).
pub fn split_words(text: &str) -> (ws: Vec<String>)
    ensures
        strings_view(ws@) == words(text@),
{
    let n = text.unicode_len();
    let ghost s = text@;
    let mut res: Vec<String> = Vec::new();
    let mut start: usize = 0;
    let mut in_word = false;
    let mut i: usize = 0;
    assert(s.take(0) =~= Seq::<char>::empty());
    assert(strings_view(res@) =~= Seq::<Seq<char>>::empty());
    while i < n
        invariant
            n == s.len(),
            s == text@,
            i <= n,
            in_word ==> start < i && !is_white_space(s[i - 1]),
            in_word ==> words(s.take(i as int)) == strings_view(res@).push(s.subrange(start as int, i as int)),
            !in_word ==> (i == 0 || is_white_space(s[i - 1])),
            !in_word ==> words(s.take(i as int)) == strings_view(res@),
        decreases n - i,
    {
        let c = text.get_char(i);
        let ghost before = strings_view(res@);
        assert(s.take(i + 1).drop_last() =~= s.take(i as int));
        assert(s.take(i + 1).last() == c);
        if white_space(c) {
            if in_word {
                let w = text.substring_char(start, i).to_owned();
                res.push(w);
                assert(strings_view(res@) =~= before.push(s.subrange(start as int, i as int)));
                in_word = false;
            }
        } else {
            if in_word {
                assert(s.take(i + 1)[i - 1] == s[i - 1]);
                assert(s.subrange(start as int, i as int).push(c) =~= s.subrange(start as int, i + 1));
                assert(before.push(s.subrange(start as int, i as int)).update(
                    before.len() as int,
                    s.subrange(start as int, i + 1),
                ) =~= before.push(s.subrange(start as int, i + 1)));
            } else {
                if i > 0 {
                    assert(s.take(i + 1)[i - 1] == s[i - 1]);
                }
                assert(seq![c] =~= s.subrange(i as int, i + 1));
                start = i;
                in_word = true;
            }
        }
        i = i + 1;
    }
    assert(s.take(n as int) =~= s);
    if in_word {
        let ghost before = strings_view(res@);
        let w = text.substring_char(start, n).to_owned();
        res.push(w);
        assert(strings_view(res@) =~= before.push(s.subrange(start as int, n as int)));
    }
    res
}

/// Whether `s` and `t` hold the same characters.
pub fn same_text(s: &str, t: &str) -> (b: bool)
    ensures
        b == (s@ == t@),
{
    let r = s.unicode_len() == t.unicode_len() && starts_with(s, t);
    proof {
        if r {
            assert(s@.take(t@.len() as int) =~= s@);
        }
    }
    r
}

} // verus!
