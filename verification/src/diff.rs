//! First index at which two character sequences differ.
//!
//! On every keystroke the application compares the typed buffer with the
//! sample text; the index of the first mismatch decides which characters are
//! rendered as correct and which as wrong.

use vstd::prelude::*;
use vstd::string::StrSliceExecFns;

verus! {

/// The zero-based index of the first position at which `a` and `b` hold
/// different characters; the length of the shorter sequence when one is a
/// prefix of the other.
pub open spec fn spec_diff_index(a: Seq<char>, b: Seq<char>) -> int
    decreases a.len(),
{
    if a.len() == 0 || b.len() == 0 {
        0
    } else if a[0] != b[0] {
        0
    } else {
        1 + spec_diff_index(a.skip(1), b.skip(1))
    }
}

/// `spec_diff_index` is within both lengths, all characters before it match,
/// and the characters at it differ whenever both sequences reach it.
pub proof fn lemma_diff_index_spec(a: Seq<char>, b: Seq<char>)
    ensures
        0 <= spec_diff_index(a, b),
        spec_diff_index(a, b) <= a.len(),
        spec_diff_index(a, b) <= b.len(),
        forall|i: int| 0 <= i < spec_diff_index(a, b) ==> a[i] == b[i],
        spec_diff_index(a, b) < a.len() && spec_diff_index(a, b) < b.len() ==> a[spec_diff_index(
            a,
            b,
        )] != b[spec_diff_index(a, b)],
    decreases a.len(),
{
    if a.len() == 0 || b.len() == 0 {
    } else if a[0] != b[0] {
    } else {
        lemma_diff_index_spec(a.skip(1), b.skip(1));
        let d = spec_diff_index(a, b);
        assert forall|i: int| 0 <= i < d implies a[i] == b[i] by {
            if i > 0 {
                assert(a.skip(1)[i - 1] == a[i]);
                assert(b.skip(1)[i - 1] == b[i]);
            }
        }
        if d < a.len() && d < b.len() {
            assert(a.skip(1)[d - 1] == a[d]);
            assert(b.skip(1)[d - 1] == b[d]);
        }
    }
}

/// Any index that matches everywhere before it and mismatches at it (or
/// reaches the end of one sequence) is `spec_diff_index`.
pub proof fn lemma_diff_index_unique(a: Seq<char>, b: Seq<char>, r: int)
    requires
        0 <= r <= a.len(),
        r <= b.len(),
        forall|i: int| 0 <= i < r ==> a[i] == b[i],
        r < a.len() && r < b.len() ==> a[r] != b[r],
    ensures
        r == spec_diff_index(a, b),
    decreases a.len(),
{
    if a.len() == 0 || b.len() == 0 {
    } else if a[0] != b[0] {
        assert(r == 0);
    } else {
        assert(r >= 1) by {
            if r == 0 {
                assert(a[0] != b[0]);
            }
        }
        assert forall|i: int| 0 <= i < r - 1 implies a.skip(1)[i] == b.skip(1)[i] by {
            assert(a.skip(1)[i] == a[i + 1]);
            assert(b.skip(1)[i] == b[i + 1]);
        }
        if r - 1 < a.skip(1).len() && r - 1 < b.skip(1).len() {
            assert(a.skip(1)[r - 1] == a[r]);
            assert(b.skip(1)[r - 1] == b[r]);
        }
        lemma_diff_index_unique(a.skip(1), b.skip(1), r - 1);
    }
}

/// Index at which there is a change in strings.
///
/// This is used to determine the index up to which typed text matches the
/// sample text: everything before the returned index is typed correctly,
/// and whenever both strings extend past the index they disagree there.
pub fn first_index_at_which_strings_differ(string1: &str, string2: &str) -> (r: usize)
    ensures
        r == spec_diff_index(string1@, string2@),
        r <= string1@.len(),
        r <= string2@.len(),
        forall|i: int| 0 <= i < r ==> string1@[i] == string2@[i],
        r < string1@.len() && r < string2@.len() ==> string1@[r as int] != string2@[r as int],
{
    let len1 = string1.unicode_len();
    let len2 = string2.unicode_len();
    let length: usize = if len1 < len2 {
        len1
    } else {
        len2
    };
    let mut index: usize = 0;
    while index < length
        invariant
            len1 == string1@.len(),
            len2 == string2@.len(),
            length <= len1,
            length <= len2,
            length == len1 || length == len2,
            index <= length,
            forall|i: int| 0 <= i < index ==> string1@[i] == string2@[i],
        decreases length - index,
    {
        if string1.get_char(index) != string2.get_char(index) {
            proof {
                lemma_diff_index_unique(string1@, string2@, index as int);
            }
            return index;
        }
        index += 1;
    }
    proof {
        lemma_diff_index_unique(string1@, string2@, length as int);
    }
    length
}

/// The first index at which two sequences differ never exceeds the length of
/// either of them.
pub proof fn lemma_diff_index_le_lengths(a: Seq<char>, b: Seq<char>)
    ensures
        spec_diff_index(a, b) <= a.len(),
        spec_diff_index(a, b) <= b.len(),
{
    lemma_diff_index_spec(a, b);
}

/// Comparing a sequence with itself finds no difference: the index is the
/// full length.
pub proof fn lemma_diff_index_self(a: Seq<char>)
    ensures
        spec_diff_index(a, a) == a.len(),
{
    lemma_diff_index_spec(a, a);
}

/// When `a` is a prefix of `b`, everything typed so far matches: the index is
/// the length of `a`.
pub proof fn lemma_diff_index_prefix(a: Seq<char>, b: Seq<char>)
    requires
        a.is_prefix_of(b),
    ensures
        spec_diff_index(a, b) == a.len(),
{
    lemma_diff_index_spec(a, b);
    let d = spec_diff_index(a, b);
    if d < a.len() {
        assert(a[d] == b.subrange(0, a.len() as int)[d]);
    }
}

} // verus!
