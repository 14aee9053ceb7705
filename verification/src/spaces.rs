//! Counting runs of consecutive space characters.

use vstd::prelude::*;
use vstd::string::StrSliceExecFns;
use crate::AppError;

verus! {

/// Number of consecutive space characters of `s` starting at index `i`
/// (inclusive), stopping at the end of `s` or at the first non-space.
pub open spec fn spec_space_run(s: Seq<char>, i: int) -> int
    decreases s.len() - i,
{
    if i < 0 || i >= s.len() || s[i] != ' ' {
        0
    } else {
        1 + spec_space_run(s, i + 1)
    }
}

/// Count the number of consecutive space characters starting at character
/// `index` of `text` (inclusive).  An `index` beyond the character count of
/// `text` cannot be probed and is rejected; an `index` at the very end sees
/// an empty remainder and yields zero.
pub fn get_space_count_after_ith_word(index: usize, text: &str) -> (r: Result<usize, AppError>)
    ensures
        match r {
            Ok(count) => index <= text@.len() && count == spec_space_run(text@, index as int),
            Err(e) => index > text@.len() && e == AppError::IndexNotFound(index),
        },
{
    let len = text.unicode_len();
    if index > len {
        return Err(AppError::IndexNotFound(index));
    }
    let mut i: usize = index;
    let mut count: usize = 0;
    while i < len
        invariant
            len == text@.len(),
            index <= i <= len,
            count == i - index,
            spec_space_run(text@, index as int) == count + spec_space_run(text@, i as int),
        decreases len - i,
    {
        if text.get_char(i) != ' ' {
            return Ok(count);
        }
        i += 1;
        count += 1;
    }
    Ok(count)
}

} // verus!
