//! Session accuracy, computed as an exact fraction of integers.
//!
//! The accuracy percentage of a typing session is
//! `(total - wrong) / total * 100`.  This module computes the value as an
//! exact numerator/denominator pair, so that the arithmetic can be verified;
//! the surrounding application performs the final floating-point division for
//! display.

use vstd::prelude::*;

verus! {

/// Numerator of the accuracy percentage for a session in which
/// `total` characters were typed and `wrong` of them were wrong.
/// The percentage itself is this value divided by `total`.
pub open spec fn spec_accuracy_numer(total: int, wrong: int) -> int {
    (total - wrong) * 100
}

/// Accuracy of a session as an exact fraction: returns `(numer, denom)` with
/// `numer / denom == (total - wrong) / total * 100`.
///
/// A session with no typed characters has no accuracy; callers must guard
/// against `total_chars_typed == 0` (see `checked_accuracy_fraction`).
pub fn accuracy_fraction(total_chars_typed: usize, wrongly_typed: usize) -> (r: (usize, usize))
    requires
        0 < total_chars_typed,
        wrongly_typed <= total_chars_typed,
        total_chars_typed <= usize::MAX / 100,
    ensures
        r.0 == spec_accuracy_numer(total_chars_typed as int, wrongly_typed as int),
        r.1 == total_chars_typed,
{
    proof {
        assert((total_chars_typed - wrongly_typed) * 100 <= (usize::MAX / 100) * 100)
            by (nonlinear_arith)
            requires
                wrongly_typed <= total_chars_typed,
                total_chars_typed <= usize::MAX / 100,
        ;
    }
    ((total_chars_typed - wrongly_typed) * 100, total_chars_typed)
}

/// Guarded entry point for `accuracy_fraction`: a session with no typed
/// characters (or with more wrong characters than typed ones, or with a
/// total too large for the percentage numerator to fit) is rejected with
/// `None` instead of yielding an undefined value.
pub fn checked_accuracy_fraction(total_chars_typed: usize, wrongly_typed: usize) -> (r: Option<
    (usize, usize),
>)
    ensures
        r is Some <==> (0 < total_chars_typed && wrongly_typed <= total_chars_typed
            && total_chars_typed <= usize::MAX / 100),
        r matches Some(f) ==> f.0 == spec_accuracy_numer(
            total_chars_typed as int,
            wrongly_typed as int,
        ) && f.1 == total_chars_typed,
{
    if 0 < total_chars_typed && wrongly_typed <= total_chars_typed && total_chars_typed
        <= usize::MAX / 100 {
        Some(accuracy_fraction(total_chars_typed, wrongly_typed))
    } else {
        None
    }
}

/// For a fixed total, accuracy is monotonically non-increasing in the number
/// of wrongly typed characters: more mistakes never raise the percentage.
/// The percentage is the numerator divided by the (fixed) total.
pub proof fn lemma_accuracy_monotone(total: int, wrong1: int, wrong2: int)
    requires
        0 < total,
        0 <= wrong1 <= wrong2 <= total,
    ensures
        spec_accuracy_numer(total, wrong2) <= spec_accuracy_numer(total, wrong1),
{
}

/// With no mistakes the accuracy is exactly 100 percent (the numerator is
/// `100 * total`); with every character wrong it is exactly 0 percent.
pub proof fn lemma_accuracy_extremes(total: int)
    requires
        0 < total,
    ensures
        spec_accuracy_numer(total, 0) == 100 * total,
        spec_accuracy_numer(total, total) == 0,
{
}

} // verus!
