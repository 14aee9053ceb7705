use rstype::AppError;
use rstype::diff::first_index_at_which_strings_differ;
use rstype::metrics::accuracy_fraction;
use rstype::metrics::checked_accuracy_fraction;
use rstype::reflow::number_of_lines_to_fit_text_in_window;
use rstype::reflow::word_wrap;
use rstype::spaces::get_space_count_after_ith_word;

#[test]
fn diff_index_of_hello_and_hullo_is_one() {
    assert_eq!(first_index_at_which_strings_differ("hello", "hullo"), 1);
}

#[test]
fn diff_index_of_equal_strings_is_their_length() {
    assert_eq!(first_index_at_which_strings_differ("hello", "hello"), 5);
    assert_eq!(first_index_at_which_strings_differ("", ""), 0);
}

#[test]
fn diff_index_of_a_prefix_is_the_prefix_length() {
    assert_eq!(first_index_at_which_strings_differ("he", "hello"), 2);
    assert_eq!(first_index_at_which_strings_differ("hello", "he"), 2);
    assert_eq!(first_index_at_which_strings_differ("", "hello"), 0);
}

#[test]
fn diff_index_counts_characters_not_bytes() {
    // Both strings hold two-byte characters before the mismatch.
    assert_eq!(first_index_at_which_strings_differ("aé!", "aè!"), 1);
    assert_eq!(first_index_at_which_strings_differ("ééx", "ééy"), 2);
}

#[test]
fn space_run_of_three_spaces_is_three() {
    assert_eq!(get_space_count_after_ith_word(0, "   x"), Ok(3));
}

#[test]
fn space_run_stops_at_end_of_string() {
    assert_eq!(get_space_count_after_ith_word(1, "a   "), Ok(3));
    assert_eq!(get_space_count_after_ith_word(0, ""), Ok(0));
}

#[test]
fn space_run_at_a_word_character_is_zero() {
    assert_eq!(get_space_count_after_ith_word(0, "word"), Ok(0));
    assert_eq!(get_space_count_after_ith_word(4, "word"), Ok(0));
}

#[test]
fn space_run_beyond_the_text_is_rejected() {
    assert_eq!(
        get_space_count_after_ith_word(10, "abc"),
        Err(AppError::IndexNotFound(10))
    );
}

#[test]
fn line_count_is_the_ceiling_of_length_over_width() {
    assert_eq!(number_of_lines_to_fit_text_in_window("", 10), 0);
    assert_eq!(number_of_lines_to_fit_text_in_window("abc", 2), 2);
    assert_eq!(number_of_lines_to_fit_text_in_window("abcd", 2), 2);
    assert_eq!(number_of_lines_to_fit_text_in_window("abcde", 2), 3);
}

#[test]
fn word_wrap_keeps_a_text_whose_boundaries_are_clean() {
    let wrapped = word_wrap("the quick brown fox", 10).unwrap();
    assert_eq!(wrapped, "the quick brown fox");
    let first_chunk: String = wrapped.chars().take(10).collect();
    assert_eq!(first_chunk, "the quick ");
}

#[test]
fn word_wrap_pads_spaces_to_push_words_to_the_next_line() {
    assert_eq!(word_wrap("aa bb cc dd ee", 4).unwrap(), "aa  bb  cc  dd  ee");
}

#[test]
fn word_wrap_chunks_never_split_a_word() {
    let width: usize = 4;
    let wrapped = word_wrap("aa bb cc dd ee", width as i32).unwrap();
    let chars: Vec<char> = wrapped.chars().collect();
    // At every chunk boundary, the character on at least one side is a
    // space, so no word straddles the boundary.
    let mut boundary = width;
    while boundary < chars.len() {
        assert!(chars[boundary - 1] == ' ' || chars[boundary] == ' ');
        boundary += width;
    }
}

#[test]
fn word_wrap_is_idempotent_on_its_own_output() {
    let once = word_wrap("aa bb cc dd ee", 4).unwrap();
    let twice = word_wrap(&once, 4).unwrap();
    assert_eq!(twice, once);
    let once = word_wrap("the quick brown fox", 10).unwrap();
    let twice = word_wrap(&once, 10).unwrap();
    assert_eq!(twice, once);
}

#[test]
fn word_wrap_pushes_a_window_wide_word_line_by_line() {
    // Words exactly as wide as the window are pushed onto the next line
    // each time a boundary is examined, so the text outgrows the lines the
    // algorithm visits and the trailing words keep their original layout.
    let wrapped = word_wrap(" abcd  efgh  ijkl  mnop  qrst  uvwx", 5).unwrap();
    assert_eq!(
        wrapped,
        "     abcd      efgh      ijkl      mnop  qrst  uvwx"
    );
}

#[test]
fn word_wrap_of_the_empty_string_is_empty() {
    assert_eq!(word_wrap("", 5).unwrap(), "");
}

#[test]
fn word_wrap_reports_a_token_wider_than_the_window() {
    assert_eq!(word_wrap("hello world", 4), Err(AppError::UnwrappableToken(3)));
    assert_eq!(word_wrap("a b", 1), Err(AppError::UnwrappableToken(0)));
}

#[test]
fn word_wrap_leaves_multibyte_words_whole() {
    // Five characters, ten bytes: boundaries are counted in characters.
    assert_eq!(word_wrap("ää öö", 3).unwrap(), "ää öö");
}

#[test]
fn accuracy_of_five_wrong_out_of_a_hundred_is_ninety_five_percent() {
    let (numer, denom) = accuracy_fraction(100, 5);
    assert_eq!((numer, denom), (9500, 100));
    assert_eq!(numer as f64 / denom as f64, 95.0);
}

#[test]
fn accuracy_extremes_are_one_hundred_and_zero_percent() {
    let (numer, denom) = accuracy_fraction(100, 0);
    assert_eq!(numer as f64 / denom as f64, 100.0);
    let (numer, denom) = accuracy_fraction(100, 100);
    assert_eq!(numer as f64 / denom as f64, 0.0);
}

#[test]
fn accuracy_never_rises_with_more_mistakes() {
    let mut previous = f64::INFINITY;
    for wrong in 0..=20 {
        let (numer, denom) = accuracy_fraction(20, wrong);
        let percentage = numer as f64 / denom as f64;
        assert!(percentage <= previous);
        previous = percentage;
    }
}

#[test]
fn a_session_with_no_typed_characters_is_rejected() {
    assert_eq!(checked_accuracy_fraction(0, 0), None);
}

#[test]
fn a_session_with_more_wrong_than_typed_characters_is_rejected() {
    assert_eq!(checked_accuracy_fraction(5, 6), None);
}

#[test]
fn a_valid_session_passes_the_accuracy_guard() {
    assert_eq!(checked_accuracy_fraction(100, 5), Some((9500, 100)));
}
