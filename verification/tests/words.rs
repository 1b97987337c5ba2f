use number_to_words::group_number_to_words;
use number_to_words::multiple_of_ten_number_to_words;
use number_to_words::number_to_words;
use number_to_words::signed_number_to_words;
use number_to_words::unsigned_number_to_words;

#[test]
fn lib_test_positive() {
    assert_eq!(number_to_words("1234567890", None), Some("one billion two hundred thirty-four million five hundred sixty-seven thousand eight hundred ninety".to_string()));
}

#[test]
fn lib_test_negative() {
    assert_eq!(number_to_words("-1234567890", None), Some("negative one billion two hundred thirty-four million five hundred sixty-seven thousand eight hundred ninety".to_string()));
}

#[test]
fn number_to_words_test_positive() {
    assert_eq!(unsigned_number_to_words(1234567890, None), "one billion two hundred thirty-four million five hundred sixty-seven thousand eight hundred ninety");
}

#[test]
fn number_to_words_test_negative() {
    assert_eq!(signed_number_to_words(-1234567890, None), "negative one billion two hundred thirty-four million five hundred sixty-seven thousand eight hundred ninety");
}

#[test]
fn text_zero() {
    assert_eq!(number_to_words("0", None), Some("zero".to_string()));
}

#[test]
fn text_negative_zero() {
    assert_eq!(number_to_words("-0", None), Some("negative zero".to_string()));
}

#[test]
fn group_renderer_reference_values() {
    assert_eq!(group_number_to_words(0), "");
    assert_eq!(group_number_to_words(1), "one");
    assert_eq!(group_number_to_words(13), "thirteen");
    assert_eq!(group_number_to_words(19), "nineteen");
    assert_eq!(group_number_to_words(20), "twenty");
    assert_eq!(group_number_to_words(21), "twenty-one");
    assert_eq!(group_number_to_words(40), "forty");
    assert_eq!(group_number_to_words(100), "one hundred");
    assert_eq!(group_number_to_words(105), "one hundred five");
    assert_eq!(group_number_to_words(342), "three hundred forty-two");
    assert_eq!(group_number_to_words(999), "nine hundred ninety-nine");
}

#[test]
fn tens_words() {
    assert_eq!(multiple_of_ten_number_to_words(20), "twenty");
    assert_eq!(multiple_of_ten_number_to_words(50), "fifty");
    assert_eq!(multiple_of_ten_number_to_words(90), "ninety");
}

#[test]
fn unsigned_one_thousand() {
    assert_eq!(unsigned_number_to_words(1000, None), "one thousand");
}

#[test]
fn signed_small_negative() {
    assert_eq!(signed_number_to_words(-5, None), "negative five");
}

#[test]
fn text_letters_fail() {
    assert_eq!(number_to_words("abc", None), None);
}

#[test]
fn text_empty_fails() {
    assert_eq!(number_to_words("", None), None);
}

#[test]
fn malformed_inputs_fail() {
    assert_eq!(number_to_words("--5", None), None);
    assert_eq!(number_to_words("12a3", None), None);
    assert_eq!(number_to_words("1 2", None), None);
    assert_eq!(number_to_words("+5", None), None);
    assert_eq!(number_to_words("-", None), None);
    assert_eq!(number_to_words("   ", None), None);
    assert_eq!(number_to_words("12.5", None), None);
}

#[test]
fn surrounding_whitespace_is_trimmed() {
    assert_eq!(number_to_words("  42  ", None), Some("forty-two".to_string()));
    assert_eq!(number_to_words("\t-7\n", None), Some("negative seven".to_string()));
}

#[test]
fn surrounding_unicode_whitespace_is_trimmed() {
    assert_eq!(number_to_words("\u{a0}5", None), Some("five".to_string()));
    assert_eq!(number_to_words("\u{2009}7\u{3000}", None), Some("seven".to_string()));
    assert_eq!(
        number_to_words("\u{85}\u{1680}-12\u{2028}\u{205f}", None),
        Some("negative twelve".to_string())
    );
    // Embedded whitespace is still malformed, whatever its kind.
    assert_eq!(number_to_words("1\u{a0}2", None), None);
}

#[test]
fn leading_zeros_are_grouped_away() {
    assert_eq!(number_to_words("007", None), Some("seven".to_string()));
    assert_eq!(number_to_words("000", None), Some("".to_string()));
}

#[test]
fn unsigned_max_value() {
    assert_eq!(unsigned_number_to_words(u64::MAX, None), "eighteen quintillion four hundred forty-six quadrillion seven hundred forty-four trillion seventy-three billion seven hundred nine million five hundred fifty-one thousand six hundred fifteen");
}

#[test]
fn signed_min_value() {
    assert_eq!(signed_number_to_words(i64::MIN, None), "negative nine quintillion two hundred twenty-three quadrillion three hundred seventy-two trillion thirty-six billion eight hundred fifty-four million seven hundred seventy-five thousand eight hundred eight");
}

#[test]
fn signed_max_value() {
    assert_eq!(signed_number_to_words(i64::MAX, None), "nine quintillion two hundred twenty-three quadrillion three hundred seventy-two trillion thirty-six billion eight hundred fifty-four million seven hundred seventy-five thousand eight hundred seven");
}

#[test]
fn custom_scale_words() {
    let table: Vec<&str> = vec!["k", "m"];
    assert_eq!(
        number_to_words("1234567", Some(table.as_slice())),
        Some("one m two hundred thirty-four k five hundred sixty-seven".to_string())
    );
    assert_eq!(unsigned_number_to_words(1500, Some(vec!["grand"])), "one grand five hundred");
}

#[test]
fn custom_table_too_small_fails() {
    let table: Vec<&str> = vec!["k"];
    assert_eq!(number_to_words("1234567", Some(table.as_slice())), None);
}

#[test]
fn empty_scale_word_is_skipped() {
    let table: Vec<&str> = vec![""];
    assert_eq!(number_to_words("1000", Some(table.as_slice())), Some("one".to_string()));
}

#[test]
fn default_table_boundary() {
    let thirty_four_digits = format!("1{}", "0".repeat(33));
    assert_eq!(
        number_to_words(&thirty_four_digits, None),
        Some("one decillion".to_string())
    );
    let thirty_seven_digits = format!("1{}", "0".repeat(36));
    assert_eq!(number_to_words(&thirty_seven_digits, None), None);
}

#[test]
fn zero_values_from_integers() {
    assert_eq!(unsigned_number_to_words(0, None), "zero");
    assert_eq!(signed_number_to_words(0, None), "zero");
}
