//! Re-wrapping text to a fixed display width.
//!
//! The sample text is shown in fixed-width lines, so a word that would
//! straddle a line boundary must be pushed to the next line by padding the
//! preceding inter-word space with extra spaces.  The algorithm walks the
//! candidate line boundaries in order; for each boundary whose last cell
//! holds a non-space character it scans backward to the nearest space and
//! widens that space until the interrupted word starts on the next line.
//! Later boundaries are examined against the already-padded text, since
//! earlier insertions shift everything after them.

use vstd::prelude::*;
use vstd::arithmetic::div_mod::lemma_fundamental_div_mod;
use vstd::arithmetic::mul::lemma_mul_inequality;
use vstd::arithmetic::mul::lemma_mul_is_distributive_sub;
use crate::AppError;
use crate::chars::chars_vec;
use crate::chars::vec_to_string;

verus! {

/// Number of display lines needed for a text of `len` characters at `width`
/// characters per line: the ceiling of `len / width`.
pub open spec fn spec_lines_needed(len: int, width: int) -> int {
    (len + width - 1) / width
}

/// A run of `n` space characters.
pub open spec fn spec_spaces(n: nat) -> Seq<char> {
    Seq::new(n, |i: int| ' ')
}

/// Index of the last space character of `s` strictly before index `end`,
/// or `-1` when no space precedes `end`.
pub open spec fn spec_rfind_space(s: Seq<char>, end: int) -> int
    decreases end,
{
    if end <= 0 {
        -1
    } else if s[end - 1] == ' ' {
        end - 1
    } else {
        spec_rfind_space(s, end - 1)
    }
}

/// `spec_rfind_space` returns either `-1` or the position of a space, and no
/// space lies between its result and `end`.
pub proof fn lemma_rfind_space_props(s: Seq<char>, end: int)
    requires
        0 <= end,
    ensures
        -1 <= spec_rfind_space(s, end) < end,
        spec_rfind_space(s, end) >= 0 ==> s[spec_rfind_space(s, end)] == ' ',
        forall|p: int| spec_rfind_space(s, end) < p < end ==> s[p] != ' ',
    decreases end,
{
    if end <= 0 {
    } else if s[end - 1] == ' ' {
    } else {
        lemma_rfind_space_props(s, end - 1);
    }
}

/// The boundary of line `m` (its last character cell, at index
/// `m * width - 1`) is clean: the text either ends within line `m` or holds
/// a space in that cell, so chunking at the boundary cannot split a word.
pub open spec fn spec_boundary_clean(t: Seq<char>, m: int, width: int) -> bool {
    m * width >= t.len() || t[m * width - 1] == ' '
}

/// One step of the reflow algorithm, for line `k` of the current text `s`:
/// when the text ends within line `k`, or the last cell of line `k` already
/// holds a space, nothing changes; otherwise the nearest space before the
/// boundary is widened until the interrupted word starts at the beginning of
/// line `k + 1`.  When no space precedes the boundary, the line holds a
/// single token wider than the window, and the boundary index is reported.
pub open spec fn spec_wrap_line(s: Seq<char>, k: int, width: int) -> Result<Seq<char>, int> {
    if k * width >= s.len() {
        Ok(s)
    } else if s[k * width - 1] == ' ' {
        Ok(s)
    } else {
        let j = spec_rfind_space(s, k * width - 1);
        if j < 0 {
            Err(k * width - 1)
        } else {
            Ok(s.take(j) + spec_spaces((k * width - j) as nat) + s.skip(j + 1))
        }
    }
}

/// The reflow algorithm applied to lines `1..=k`, each against the text as
/// padded by the earlier lines.
pub open spec fn spec_wrap_upto(s: Seq<char>, k: int, width: int) -> Result<Seq<char>, int>
    decreases k,
{
    if k <= 0 {
        Ok(s)
    } else {
        match spec_wrap_upto(s, k - 1, width) {
            Ok(t) => spec_wrap_line(t, k, width),
            Err(e) => Err(e),
        }
    }
}

/// The complete reflow of `s` at width `width`: all candidate lines are
/// processed, with one extra line beyond the count the original text needs,
/// guarding against boundary growth caused by insertions on earlier lines.
pub open spec fn spec_word_wrap(s: Seq<char>, width: int) -> Result<Seq<char>, int> {
    spec_wrap_upto(s, spec_lines_needed(s.len() as int, width) + 1, width)
}

/// After processing lines `1..=k`, every one of those lines has a clean
/// boundary, and the text has grown by at most `width` characters per line.
pub proof fn lemma_wrap_upto_props(s: Seq<char>, k: int, width: int)
    requires
        width >= 1,
        k >= 0,
    ensures
        spec_wrap_upto(s, k, width) matches Ok(t) ==> t.len() <= s.len() + k * width && (forall|
            m: int,
        | 1 <= m <= k ==> spec_boundary_clean(t, m, width)),
    decreases k,
{
    if k <= 0 {
        assert(k * width == 0) by (nonlinear_arith)
            requires k == 0,
        ;
    } else {
        lemma_wrap_upto_props(s, k - 1, width);
        lemma_mul_is_distributive_sub(width, k, 1);
        assert((k - 1) * width == width * (k - 1)) by (nonlinear_arith);
        assert(k * width == width * k) by (nonlinear_arith);
        assert((k - 1) * width == k * width - width);
        lemma_mul_inequality(1, k, width);
        assert(k * width >= width);
        match spec_wrap_upto(s, k - 1, width) {
            Ok(t0) => {
                if k * width >= t0.len() {
                    let t = t0;
                    assert(spec_wrap_upto(s, k, width) == Ok::<Seq<char>, int>(t));
                    assert forall|m: int| 1 <= m <= k implies spec_boundary_clean(t, m, width) by {
                        if m == k {
                            assert(m * width >= t.len());
                        }
                    }
                } else if t0[k * width - 1] == ' ' {
                    let t = t0;
                    assert(spec_wrap_upto(s, k, width) == Ok::<Seq<char>, int>(t));
                    assert forall|m: int| 1 <= m <= k implies spec_boundary_clean(t, m, width) by {
                        if m == k {
                            assert(t[m * width - 1] == ' ');
                        }
                    }
                } else {
                    let bd = k * width - 1;
                    let j = spec_rfind_space(t0, bd);
                    lemma_rfind_space_props(t0, bd);
                    if j >= 0 {
                        let t = t0.take(j) + spec_spaces((k * width - j) as nat) + t0.skip(j + 1);
                        assert(spec_wrap_upto(s, k, width) == Ok::<Seq<char>, int>(t));
                        assert(t.len() == k * width + t0.len() - j - 1);
                        // The found space is at or after the clean boundary
                        // of the previous line, so the line grows by at most
                        // one window of padding.
                        if k >= 2 {
                            assert(spec_boundary_clean(t0, k - 1, width));
                            lemma_mul_inequality(1, k - 1, width);
                            assert((k - 1) * width >= width >= 1);
                            assert((k - 1) * width < k * width);
                            assert(t0[(k - 1) * width - 1] == ' ');
                            assert(j >= (k - 1) * width - 1) by {
                                if j < (k - 1) * width - 1 {
                                    assert(t0[(k - 1) * width - 1] != ' ');
                                }
                            }
                            assert(t.len() <= t0.len() + width);
                        } else {
                            assert(k == 1);
                            assert(t.len() <= t0.len() + width);
                        }
                        assert(t.len() <= s.len() + k * width);
                        assert forall|m: int| 1 <= m <= k implies spec_boundary_clean(
                            t,
                            m,
                            width,
                        ) by {
                            if m == k {
                                assert(t[k * width - 1] == spec_spaces((k * width - j) as nat)[k
                                    * width - 1 - j]);
                                assert(t[k * width - 1] == ' ');
                            } else {
                                lemma_mul_inequality(m, k - 1, width);
                                assert(m * width <= (k - 1) * width);
                                lemma_mul_inequality(1, m, width);
                                assert(m * width >= width >= 1);
                                assert(spec_boundary_clean(t0, m, width));
                                assert(m * width < t0.len());
                                assert(t0[m * width - 1] == ' ');
                                if m * width - 1 < j {
                                    assert(t[m * width - 1] == t0.take(j)[m * width - 1]);
                                    assert(t[m * width - 1] == ' ');
                                } else {
                                    assert(j <= m * width - 1 < k * width);
                                    assert(t[m * width - 1] == spec_spaces((k * width - j) as nat)[m
                                        * width - 1 - j]);
                                    assert(t[m * width - 1] == ' ');
                                }
                            }
                        }
                    }
                }
            },
            Err(_) => {},
        }
    }
}

/// Once a line fails to wrap, processing further lines reports the same
/// failure.
pub proof fn lemma_wrap_upto_err_stable(s: Seq<char>, k1: int, k2: int, width: int)
    requires
        0 <= k1 <= k2,
        spec_wrap_upto(s, k1, width) is Err,
    ensures
        spec_wrap_upto(s, k2, width) == spec_wrap_upto(s, k1, width),
    decreases k2 - k1,
{
    if k2 > k1 {
        lemma_wrap_upto_err_stable(s, k1, k2 - 1, width);
    }
}

/// Count the number of lines required for displaying text.
pub fn number_of_lines_to_fit_text_in_window(string: &str, window_width: i32) -> (n: i32)
    requires
        window_width >= 1,
        string@.len() + window_width <= i32::MAX,
    ensures
        n == spec_lines_needed(string@.len() as int, window_width as int),
{
    let len = string.unicode_len();
    let w = window_width as usize;
    let num = (len + w - 1) / w;
    proof {
        lemma_fundamental_div_mod((len + w - 1) as int, w as int);
        assert(num <= len + w - 1) by (nonlinear_arith)
            requires
                w >= 1,
                num == ((len + w - 1) as int) / (w as int),
                (len + w - 1) as int == (w as int) * (((len + w - 1) as int) / (w as int)) + (((len
                    + w - 1) as int) % (w as int)),
                0 <= ((len + w - 1) as int) % (w as int),
        ;
    }
    num as i32
}

/// The number of lines the original text needs, times the width, does not
/// exceed the original length plus one window.
pub proof fn lemma_lines_needed_bound(len: int, width: int)
    requires
        width >= 1,
        len >= 0,
    ensures
        spec_lines_needed(len, width) * width <= len + width - 1,
        spec_lines_needed(len, width) >= 0,
{
    lemma_fundamental_div_mod(len + width - 1, width);
    let q = (len + width - 1) / width;
    assert(q * width <= len + width - 1 && q >= 0) by (nonlinear_arith)
        requires
            width >= 1,
            len >= 0,
            len + width - 1 == width * q + ((len + width - 1) % width),
            0 <= (len + width - 1) % width < width,
    ;
}

/// Wrap text on the screen according to the window width.
///
/// Returns the text with extra spaces inserted at inter-word boundaries so
/// that displaying it in fixed-width chunks does not break a word across the
/// boundaries the algorithm visits.  When some line holds a single token
/// wider than the window, no break position exists and the boundary index is
/// reported as unwrappable.
pub fn word_wrap(text: &str, width: i32) -> (r: Result<String, AppError>)
    requires
        width >= 1,
        2 * text@.len() + 2 * width <= usize::MAX,
    ensures
        ({
            let m = spec_word_wrap(text@, width as int);
            match r {
                Ok(out) => m == Ok::<Seq<char>, int>(out@),
                Err(e) => m matches Err(idx) && e == AppError::UnwrappableToken(idx as usize),
            }
        }),
{
    let w = width as usize;
    let ghost s0 = text@;
    let mut buf = chars_vec(text);
    let total_lines = (buf.len() + w - 1) / w;
    proof {
        lemma_lines_needed_bound(s0.len() as int, w as int);
        assert(total_lines == spec_lines_needed(s0.len() as int, w as int));
    }
    let mut k: usize = 1;
    while k <= total_lines + 1
        invariant
            w as int == width as int,
            w >= 1,
            s0 == text@,
            2 * s0.len() + 2 * w <= usize::MAX,
            total_lines == spec_lines_needed(s0.len() as int, w as int),
            total_lines * w <= s0.len() + w - 1,
            1 <= k <= total_lines + 2,
            spec_wrap_upto(s0, k - 1, w as int) == Ok::<Seq<char>, int>(buf@),
        decreases total_lines + 2 - k,
    {
        proof {
            lemma_mul_inequality(k as int, total_lines + 1, w as int);
            assert(k * w <= (total_lines + 1) * w);
            lemma_mul_is_distributive_sub(w as int, total_lines + 1, 1);
            assert((total_lines + 1) * w == w * (total_lines + 1)) by (nonlinear_arith);
            assert(total_lines * w == w * total_lines) by (nonlinear_arith);
            assert((total_lines + 1) * w == total_lines * w + w);
            assert(k * w <= s0.len() + 2 * w - 1);
            lemma_mul_inequality(1, k as int, w as int);
            assert(k * w >= w >= 1);
        }
        let bound = k * w;
        if bound >= buf.len() {
            proof {
                assert(spec_wrap_line(buf@, k as int, w as int) == Ok::<Seq<char>, int>(buf@));
                assert(spec_wrap_upto(s0, k as int, w as int) == Ok::<Seq<char>, int>(buf@));
            }
            k += 1;
            continue ;
        }
        let bd = bound - 1;
        if buf[bd] == ' ' {
            proof {
                assert(spec_wrap_line(buf@, k as int, w as int) == Ok::<Seq<char>, int>(buf@));
                assert(spec_wrap_upto(s0, k as int, w as int) == Ok::<Seq<char>, int>(buf@));
            }
            k += 1;
            continue ;
        }
        // Scan backward from the boundary for the nearest space.
        let mut p: usize = bd;
        while p > 0 && buf[p - 1] != ' '
            invariant
                p <= bd,
                bd < buf@.len(),
                spec_rfind_space(buf@, bd as int) == spec_rfind_space(buf@, p as int),
            decreases p,
        {
            proof {
                assert(spec_rfind_space(buf@, p as int) == spec_rfind_space(buf@, p - 1));
            }
            p -= 1;
        }
        if p == 0 {
            proof {
                assert(spec_rfind_space(buf@, bd as int) == -1);
                assert(spec_wrap_line(buf@, k as int, w as int) == Err::<Seq<char>, int>(bd as int));
                assert(spec_wrap_upto(s0, k as int, w as int) == Err::<Seq<char>, int>(bd as int));
                lemma_wrap_upto_err_stable(s0, k as int, total_lines + 1, w as int);
            }
            return Err(AppError::UnwrappableToken(bd));
        }
        let j = p - 1;
        proof {
            assert(spec_rfind_space(buf@, p as int) == j);
            assert(spec_rfind_space(buf@, bd as int) == j);
        }
        let gap = bound - j;
        // Rebuild the text: everything before the found space, then the
        // widened space run, then everything after the found space.
        let ghost old_buf = buf@;
        let mut out: Vec<char> = Vec::new();
        let mut q: usize = 0;
        while q < j
            invariant
                q <= j,
                j < buf@.len(),
                out@ == buf@.take(q as int),
            decreases j - q,
        {
            let c = buf[q];
            out.push(c);
            proof {
                assert(buf@.take(q + 1) =~= buf@.take(q as int).push(buf@[q as int]));
            }
            q += 1;
        }
        let mut filled: usize = 0;
        while filled < gap
            invariant
                filled <= gap,
                j < buf@.len(),
                out@ == buf@.take(j as int) + spec_spaces(filled as nat),
            decreases gap - filled,
        {
            out.push(' ');
            proof {
                assert(buf@.take(j as int) + spec_spaces((filled + 1) as nat) =~= (buf@.take(
                    j as int,
                ) + spec_spaces(filled as nat)).push(' '));
            }
            filled += 1;
        }
        let mut q2: usize = j + 1;
        while q2 < buf.len()
            invariant
                j + 1 <= q2 <= buf@.len(),
                out@ == buf@.take(j as int) + spec_spaces(gap as nat) + buf@.subrange(
                    j + 1,
                    q2 as int,
                ),
            decreases buf@.len() - q2,
        {
            let c = buf[q2];
            out.push(c);
            proof {
                assert(buf@.take(j as int) + spec_spaces(gap as nat) + buf@.subrange(j + 1, q2 + 1)
                    =~= (buf@.take(j as int) + spec_spaces(gap as nat) + buf@.subrange(
                    j + 1,
                    q2 as int,
                )).push(buf@[q2 as int]));
            }
            q2 += 1;
        }
        proof {
            assert(buf@.skip(j + 1) == buf@.subrange(j + 1, buf@.len() as int));
            assert(out@ == buf@.take(j as int) + spec_spaces(gap as nat) + buf@.skip(j + 1));
            assert(spec_wrap_line(old_buf, k as int, w as int) == Ok::<Seq<char>, int>(out@));
        }
        buf = out;
        proof {
            assert(spec_wrap_upto(s0, k as int, w as int) == Ok::<Seq<char>, int>(buf@));
        }
        k += 1;
    }
    proof {
        assert(k == total_lines + 2);
        assert(spec_word_wrap(s0, w as int) == Ok::<Seq<char>, int>(buf@));
    }
    Ok(vec_to_string(&buf))
}

} // verus!
