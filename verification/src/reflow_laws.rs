//! Laws of the reflow algorithm.
//!
//! Two families of facts are proved here.  First, the wrapped text is the
//! original text with some inter-word spaces widened: no word character is
//! dropped, added or reordered, and spaces are only inserted where a space
//! already stood.  Second, every line boundary of the wrapped text is clean
//! (holds a space or lies past the end), so chunking the wrapped text into
//! fixed-width lines never cuts a word — and a second run of the algorithm
//! on its own output changes nothing.

use vstd::prelude::*;
use vstd::arithmetic::mul::lemma_mul_inequality;
use crate::reflow::spec_boundary_clean;
use crate::reflow::spec_lines_needed;
use crate::reflow::spec_rfind_space;
use crate::reflow::spec_spaces;
use crate::reflow::spec_word_wrap;
use crate::reflow::spec_wrap_line;
use crate::reflow::spec_wrap_upto;
use crate::reflow::lemma_lines_needed_bound;
use crate::reflow::lemma_rfind_space_props;
use crate::reflow::lemma_wrap_upto_props;

verus! {

/// `t` is `s` with each space character expanded to a run of one or more
/// spaces: word characters appear unchanged and in order, and extra spaces
/// stand only where `s` already had a space.
pub open spec fn spec_is_space_expansion(s: Seq<char>, t: Seq<char>) -> bool
    decreases t.len(),
{
    if s.len() == 0 {
        t.len() == 0
    } else if t.len() == 0 {
        false
    } else if s[0] != ' ' {
        t[0] == s[0] && spec_is_space_expansion(s.skip(1), t.skip(1))
    } else {
        t[0] == ' ' && (spec_is_space_expansion(s.skip(1), t.skip(1)) || spec_is_space_expansion(
            s,
            t.skip(1),
        ))
    }
}

/// Every sequence is a space expansion of itself.
pub proof fn lemma_expansion_refl(s: Seq<char>)
    ensures
        spec_is_space_expansion(s, s),
    decreases s.len(),
{
    if s.len() == 0 {
    } else {
        lemma_expansion_refl(s.skip(1));
    }
}

/// Space expansion is transitive: widening spaces twice is still a widening
/// of the original spaces.
pub proof fn lemma_expansion_trans(s: Seq<char>, t: Seq<char>, u: Seq<char>)
    requires
        spec_is_space_expansion(s, t),
        spec_is_space_expansion(t, u),
    ensures
        spec_is_space_expansion(s, u),
    decreases u.len(),
{
    if s.len() == 0 {
    } else if s[0] != ' ' {
        lemma_expansion_trans(s.skip(1), t.skip(1), u.skip(1));
    } else {
        if spec_is_space_expansion(t, u.skip(1)) {
            lemma_expansion_trans(s, t, u.skip(1));
        } else {
            if spec_is_space_expansion(s.skip(1), t.skip(1)) {
                lemma_expansion_trans(s.skip(1), t.skip(1), u.skip(1));
            } else {
                lemma_expansion_trans(s, t.skip(1), u.skip(1));
            }
        }
    }
}

/// Widening the space at the front of a sequence is a space expansion.
proof fn lemma_expansion_pad_front(s: Seq<char>, g: int)
    requires
        s.len() > 0,
        s[0] == ' ',
        g >= 1,
    ensures
        spec_is_space_expansion(s, spec_spaces(g as nat) + s.skip(1)),
    decreases g,
{
    let t = spec_spaces(g as nat) + s.skip(1);
    if g == 1 {
        assert(t =~= s);
        lemma_expansion_refl(s);
    } else {
        lemma_expansion_pad_front(s, g - 1);
        assert(t.skip(1) =~= spec_spaces((g - 1) as nat) + s.skip(1));
    }
}

/// Replacing the space at position `j` by a run of `g` spaces is a space
/// expansion.
proof fn lemma_expansion_insert(s: Seq<char>, j: int, g: int)
    requires
        0 <= j < s.len(),
        s[j] == ' ',
        g >= 1,
    ensures
        spec_is_space_expansion(s, s.take(j) + spec_spaces(g as nat) + s.skip(j + 1)),
    decreases j,
{
    let t = s.take(j) + spec_spaces(g as nat) + s.skip(j + 1);
    if j == 0 {
        assert(t =~= spec_spaces(g as nat) + s.skip(1));
        lemma_expansion_pad_front(s, g);
    } else {
        assert(s.skip(1)[j - 1] == s[j]);
        lemma_expansion_insert(s.skip(1), j - 1, g);
        let t1 = s.skip(1).take(j - 1) + spec_spaces(g as nat) + s.skip(1).skip(j);
        assert(t.skip(1) =~= t1);
        assert(t[0] == s[0]);
    }
}

/// One step of the reflow algorithm only widens an existing space.
proof fn lemma_wrap_line_expansion(t0: Seq<char>, k: int, width: int)
    requires
        width >= 1,
        k >= 1,
    ensures
        spec_wrap_line(t0, k, width) matches Ok(t1) ==> spec_is_space_expansion(t0, t1),
{
    lemma_mul_inequality(1, k, width);
    assert(k * width >= width >= 1);
    if k * width >= t0.len() {
        lemma_expansion_refl(t0);
    } else if t0[k * width - 1] == ' ' {
        lemma_expansion_refl(t0);
    } else {
        let j = spec_rfind_space(t0, k * width - 1);
        lemma_rfind_space_props(t0, k * width - 1);
        if j >= 0 {
            lemma_expansion_insert(t0, j, k * width - j);
        }
    }
}

/// Processing any number of lines only widens existing spaces.
pub proof fn lemma_wrap_upto_expansion(s: Seq<char>, k: int, width: int)
    requires
        width >= 1,
        k >= 0,
    ensures
        spec_wrap_upto(s, k, width) matches Ok(t) ==> spec_is_space_expansion(s, t),
    decreases k,
{
    if k <= 0 {
        lemma_expansion_refl(s);
    } else {
        lemma_wrap_upto_expansion(s, k - 1, width);
        match spec_wrap_upto(s, k - 1, width) {
            Ok(t0) => {
                lemma_wrap_line_expansion(t0, k, width);
                match spec_wrap_line(t0, k, width) {
                    Ok(t1) => {
                        lemma_expansion_trans(s, t0, t1);
                    },
                    Err(_) => {},
                }
            },
            Err(_) => {},
        }
    }
}

/// The reflow only widens existing inter-word spaces: the wrapped text is
/// the original with each space expanded to one or more spaces, so word
/// characters are never reordered or dropped, and spaces are inserted only
/// at existing inter-word boundaries.
pub proof fn lemma_word_wrap_preserves_words(s: Seq<char>, width: int)
    requires
        width >= 1,
    ensures
        spec_word_wrap(s, width) matches Ok(t) ==> spec_is_space_expansion(s, t),
{
    lemma_lines_needed_bound(s.len() as int, width);
    lemma_wrap_upto_expansion(s, spec_lines_needed(s.len() as int, width) + 1, width);
}

/// Splitting the wrapped text into chunks of `width` characters never cuts
/// a word across two chunks: every chunk boundary of the wrapped text holds
/// a space in its last cell or lies past the end of the text.  This holds
/// whenever the wrapped text fits within the lines the algorithm visits,
/// which is one more line than the original text needs.
pub proof fn lemma_word_wrap_chunks_clean(s: Seq<char>, width: int, t: Seq<char>)
    requires
        width >= 1,
        spec_word_wrap(s, width) == Ok::<Seq<char>, int>(t),
        t.len() <= (spec_lines_needed(s.len() as int, width) + 1) * width,
    ensures
        forall|m: int| m >= 1 ==> spec_boundary_clean(t, m, width),
{
    let lines = spec_lines_needed(s.len() as int, width);
    lemma_lines_needed_bound(s.len() as int, width);
    lemma_wrap_upto_props(s, lines + 1, width);
    assert forall|m: int| m >= 1 implies spec_boundary_clean(t, m, width) by {
        if m > lines + 1 {
            lemma_mul_inequality(lines + 1, m, width);
            assert(m * width >= (lines + 1) * width >= t.len());
        }
    }
}

/// A text whose line boundaries are all clean passes through the algorithm
/// unchanged.
proof fn lemma_wrap_upto_all_clean(t: Seq<char>, k: int, width: int)
    requires
        width >= 1,
        k >= 0,
        forall|m: int| 1 <= m <= k ==> spec_boundary_clean(t, m, width),
    ensures
        spec_wrap_upto(t, k, width) == Ok::<Seq<char>, int>(t),
    decreases k,
{
    if k <= 0 {
    } else {
        lemma_wrap_upto_all_clean(t, k - 1, width);
        assert(spec_boundary_clean(t, k, width));
        assert(spec_wrap_line(t, k, width) == Ok::<Seq<char>, int>(t));
    }
}

/// Some window of `width` consecutive characters of `s`, starting at `i`,
/// holds a space.
pub open spec fn spec_window_has_space(s: Seq<char>, i: int, width: int) -> bool {
    exists|p: int| i <= p < i + width && s[p] == ' '
}

/// Every window of `width` consecutive characters of `s` holds a space;
/// equivalently, no word of `s` is `width` characters long or longer.
pub open spec fn spec_every_window_has_space(s: Seq<char>, width: int) -> bool {
    forall|i: int| 0 <= i && i + width <= s.len() ==> spec_window_has_space(s, i, width)
}

/// A reflow step cannot fail on a text whose words all fit the window, and
/// its output again has a space in every window: the step only widens a
/// space, which cannot create a word of `width` characters.
proof fn lemma_wrap_line_preserves_windows(t: Seq<char>, k: int, width: int)
    requires
        width >= 1,
        k >= 1,
        spec_every_window_has_space(t, width),
    ensures
        spec_wrap_line(t, k, width) is Ok,
        spec_wrap_line(t, k, width) matches Ok(t1) ==> spec_every_window_has_space(t1, width),
{
    lemma_mul_inequality(1, k, width);
    assert(k * width >= width >= 1);
    if k * width >= t.len() {
    } else if t[k * width - 1] == ' ' {
    } else {
        let bd = k * width - 1;
        let j = spec_rfind_space(t, bd);
        lemma_rfind_space_props(t, bd);
        // The first window of the text holds a space at or before the
        // boundary, so the backward scan finds one.
        assert(spec_window_has_space(t, 0, width));
        let p0 = choose|p: int| 0 <= p < width && t[p] == ' ';
        assert(p0 < bd);
        assert(j >= 0) by {
            if j < p0 {
                assert(t[p0] != ' ');
            }
        }
        let g = k * width - j;
        let t1 = t.take(j) + spec_spaces(g as nat) + t.skip(j + 1);
        assert(spec_wrap_line(t, k, width) == Ok::<Seq<char>, int>(t1));
        assert(t1.len() == t.len() + g - 1);
        assert forall|i: int| 0 <= i && i + width <= t1.len() implies spec_window_has_space(
            t1,
            i,
            width,
        ) by {
            if i + width <= j {
                // The window lies before the insertion and is unchanged.
                assert(spec_window_has_space(t, i, width));
                let p = choose|p: int| i <= p < i + width && t[p] == ' ';
                assert(t1[p] == ' ');
            } else if i >= j + g {
                // The window lies after the insertion, shifted by the net
                // growth of the text.
                assert(spec_window_has_space(t, i - g + 1, width));
                let p = choose|p: int| i - g + 1 <= p < i - g + 1 + width && t[p] == ' ';
                assert(t1[p + g - 1] == t.skip(j + 1)[p + g - 1 - j - g]);
                assert(t1[p + g - 1] == ' ');
            } else {
                // The window overlaps the inserted run of spaces.
                let q = if i >= j {
                    i
                } else {
                    j
                };
                assert(j <= q < j + g);
                assert(t1[q] == spec_spaces(g as nat)[q - j]);
                assert(i <= q < i + width && t1[q] == ' ');
            }
        }
    }
}

/// Processing any number of lines of a text whose words all fit the window
/// succeeds, and its output again has a space in every window.
proof fn lemma_wrap_upto_ok_when_words_fit(s: Seq<char>, k: int, width: int)
    requires
        width >= 1,
        k >= 0,
        spec_every_window_has_space(s, width),
    ensures
        spec_wrap_upto(s, k, width) is Ok,
        spec_wrap_upto(s, k, width) matches Ok(t) ==> spec_every_window_has_space(t, width),
    decreases k,
{
    if k <= 0 {
    } else {
        lemma_wrap_upto_ok_when_words_fit(s, k - 1, width);
        match spec_wrap_upto(s, k - 1, width) {
            Ok(t0) => {
                lemma_wrap_line_preserves_windows(t0, k, width);
            },
            Err(_) => {},
        }
    }
}

/// When every word of the text is shorter than the window (every window of
/// `width` consecutive characters holds a space), the reflow cannot fail.
pub proof fn lemma_word_wrap_ok_when_words_fit(s: Seq<char>, width: int)
    requires
        width >= 1,
        spec_every_window_has_space(s, width),
    ensures
        spec_word_wrap(s, width) is Ok,
{
    lemma_lines_needed_bound(s.len() as int, width);
    lemma_wrap_upto_ok_when_words_fit(s, spec_lines_needed(s.len() as int, width) + 1, width);
}

/// Re-running the reflow on its own output with the same width yields the
/// same output: every boundary is already clean, so no further spaces are
/// inserted.  This holds whenever the first run's output fits within the
/// lines that run visited.
pub proof fn lemma_word_wrap_idempotent(s: Seq<char>, width: int, t: Seq<char>)
    requires
        width >= 1,
        spec_word_wrap(s, width) == Ok::<Seq<char>, int>(t),
        t.len() <= (spec_lines_needed(s.len() as int, width) + 1) * width,
    ensures
        spec_word_wrap(t, width) == Ok::<Seq<char>, int>(t),
{
    lemma_word_wrap_chunks_clean(s, width, t);
    lemma_lines_needed_bound(t.len() as int, width);
    lemma_wrap_upto_all_clean(t, spec_lines_needed(t.len() as int, width) + 1, width);
}

} // verus!
