//! The mathematical model: what word form a numeral has.
//!
//! Everything here is specification. The value of a digit sequence, its split
//! into base-1000 groups, the word form of a single group, and the assembly of
//! group words with scale words are all given as spec functions; the executable
//! functions in the rest of the crate are proved against them.

use vstd::prelude::*;

verus! {

/// An ASCII decimal digit.
pub open spec fn is_digit_char(c: char) -> bool {
    '0' as int <= c as int && c as int <= '9' as int
}

/// The numeric value of an ASCII decimal digit.
pub open spec fn digit_val(c: char) -> int {
    c as int - '0' as int
}

/// Every character of `s` is an ASCII decimal digit.
pub open spec fn all_digit_chars(s: Seq<char>) -> bool {
    forall|i: int| 0 <= i < s.len() ==> is_digit_char(s[i])
}

/// The numeric value of a digit sequence read in base 10.
pub open spec fn num_val(s: Seq<char>) -> int
    recommends
        all_digit_chars(s),
    decreases s.len(),
{
    if s.len() == 0 {
        0
    } else {
        num_val(s.drop_last()) * 10 + digit_val(s.last())
    }
}

/// The word for a value below twenty; zero maps to the empty sequence, which
/// group assembly reads as "skip this group".
pub open spec fn small_word(n: int) -> Seq<char>
    recommends
        0 <= n < 20,
{
    if n == 1 { "one"@ }
    else if n == 2 { "two"@ }
    else if n == 3 { "three"@ }
    else if n == 4 { "four"@ }
    else if n == 5 { "five"@ }
    else if n == 6 { "six"@ }
    else if n == 7 { "seven"@ }
    else if n == 8 { "eight"@ }
    else if n == 9 { "nine"@ }
    else if n == 10 { "ten"@ }
    else if n == 11 { "eleven"@ }
    else if n == 12 { "twelve"@ }
    else if n == 13 { "thirteen"@ }
    else if n == 14 { "fourteen"@ }
    else if n == 15 { "fifteen"@ }
    else if n == 16 { "sixteen"@ }
    else if n == 17 { "seventeen"@ }
    else if n == 18 { "eighteen"@ }
    else if n == 19 { "nineteen"@ }
    else { Seq::<char>::empty() }
}

/// The word for a tens digit `t` in 2..=9 ("twenty" for 2, ... "ninety" for 9).
pub open spec fn tens_word(t: int) -> Seq<char>
    recommends
        2 <= t <= 9,
{
    if t == 2 { "twenty"@ }
    else if t == 3 { "thirty"@ }
    else if t == 4 { "forty"@ }
    else if t == 5 { "fifty"@ }
    else if t == 6 { "sixty"@ }
    else if t == 7 { "seventy"@ }
    else if t == 8 { "eighty"@ }
    else if t == 9 { "ninety"@ }
    else { Seq::<char>::empty() }
}

/// The word form of one digit group in 0..=999. Zero gives the empty sequence.
/// Three bands: below twenty a direct word; below one hundred the tens word,
/// hyphenated with the ones word when the ones digit is not zero; otherwise
/// the hundreds word followed by the rest.
pub open spec fn group_words(n: int) -> Seq<char>
    recommends
        0 <= n < 1000,
    decreases n,
{
    if n < 20 {
        small_word(n)
    } else if n < 100 {
        if n % 10 == 0 {
            tens_word(n / 10)
        } else {
            tens_word(n / 10) + "-"@ + small_word(n % 10)
        }
    } else {
        small_word(n / 100) + " hundred"@ + (if n % 100 == 0 {
            Seq::<char>::empty()
        } else {
            " "@ + group_words(n % 100)
        })
    }
}

/// The base-1000 groups of a digit sequence, least significant first:
/// element 0 is the value of the last (up to) three digits, element 1 the
/// value of the three digits before those, and so on.
pub open spec fn groups_of(s: Seq<char>) -> Seq<int>
    recommends
        all_digit_chars(s),
    decreases s.len(),
{
    if s.len() == 0 {
        Seq::<int>::empty()
    } else if s.len() <= 3 {
        seq![num_val(s)]
    } else {
        seq![num_val(s.skip(s.len() - 3))] + groups_of(s.take(s.len() - 3))
    }
}

/// Joins two word sequences with a single space, dropping an empty side.
pub open spec fn space_join(a: Seq<char>, b: Seq<char>) -> Seq<char> {
    if a.len() == 0 {
        b
    } else if b.len() == 0 {
        a
    } else {
        a + " "@ + b
    }
}

/// The word form of the groups `groups.take(upto)` (least significant first)
/// under the scale table `table`: group index `i >= 1`, when its value is not
/// zero, takes the scale word `table[i - 1]`; a missing table entry fails the
/// whole conversion. Zero groups are skipped. The result lists the non-zero
/// groups most significant first, joined by single spaces.
pub open spec fn words_for_groups(groups: Seq<int>, upto: int, table: Seq<Seq<char>>) -> Option<
    Seq<char>,
>
    recommends
        0 <= upto <= groups.len(),
    decreases upto,
{
    if upto <= 0 {
        Some(Seq::<char>::empty())
    } else {
        let i = upto - 1;
        let g = groups[i];
        let rest = words_for_groups(groups, i, table);
        if g == 0 {
            rest
        } else if i >= 1 && i - 1 >= table.len() {
            None
        } else {
            let piece = if i >= 1 {
                space_join(group_words(g), table[i - 1])
            } else {
                group_words(g)
            };
            match rest {
                Option::None => Option::None,
                Option::Some(low) => Some(space_join(piece, low)),
            }
        }
    }
}

/// The word form of an unsigned numeral given as text. Fails on an empty
/// sequence or any non-digit character. The single digit "0" is "zero";
/// otherwise the groups are rendered and joined under `table`.
pub open spec fn unsigned_text_words(s: Seq<char>, table: Seq<Seq<char>>) -> Option<Seq<char>> {
    if s.len() == 0 || !all_digit_chars(s) {
        Option::None
    } else if s.len() == 1 && s[0] == '0' {
        Some("zero"@)
    } else {
        words_for_groups(groups_of(s), groups_of(s).len() as int, table)
    }
}

/// Whitespace as `str::trim` sees it: the characters with the Unicode
/// White_Space property, which the driver trims from either end.
pub open spec fn is_space_char(c: char) -> bool {
    ||| c == ' '
    ||| c == '\t'
    ||| c == '\n'
    ||| c == '\u{b}'
    ||| c == '\u{c}'
    ||| c == '\r'
    ||| c == '\u{85}'
    ||| c == '\u{a0}'
    ||| c == '\u{1680}'
    ||| ('\u{2000}' as int <= c as int && c as int <= '\u{200a}' as int)
    ||| c == '\u{2028}'
    ||| c == '\u{2029}'
    ||| c == '\u{202f}'
    ||| c == '\u{205f}'
    ||| c == '\u{3000}'
}

/// `s` without its leading whitespace.
pub open spec fn trim_start(s: Seq<char>) -> Seq<char>
    decreases s.len(),
{
    if s.len() > 0 && is_space_char(s[0]) {
        trim_start(s.drop_first())
    } else {
        s
    }
}

/// `s` without its trailing whitespace.
pub open spec fn trim_end(s: Seq<char>) -> Seq<char>
    decreases s.len(),
{
    if s.len() > 0 && is_space_char(s.last()) {
        trim_end(s.drop_last())
    } else {
        s
    }
}

/// `s` without leading and trailing whitespace.
pub open spec fn trimmed(s: Seq<char>) -> Seq<char> {
    trim_end(trim_start(s))
}

/// The word form of a signed numeral given as text: after trimming, an empty
/// numeral fails; a leading '-' strips the sign, converts the rest as
/// unsigned, and prefixes "negative " on success; anything else converts as
/// unsigned directly.
pub open spec fn text_words(s: Seq<char>, table: Seq<Seq<char>>) -> Option<Seq<char>> {
    let t = trimmed(s);
    if t.len() == 0 {
        Option::None
    } else if t[0] == '-' {
        match unsigned_text_words(t.drop_first(), table) {
            Option::None => Option::None,
            Option::Some(w) => Some("negative "@ + w),
        }
    } else {
        unsigned_text_words(t, table)
    }
}

/// The ASCII digit for a value in 0..=9.
pub open spec fn digit_char_of(d: int) -> char
    recommends
        0 <= d <= 9,
{
    if d == 0 { '0' }
    else if d == 1 { '1' }
    else if d == 2 { '2' }
    else if d == 3 { '3' }
    else if d == 4 { '4' }
    else if d == 5 { '5' }
    else if d == 6 { '6' }
    else if d == 7 { '7' }
    else if d == 8 { '8' }
    else { '9' }
}

/// The decimal digit sequence of a non-negative integer, without leading
/// zeros (zero itself is the single digit '0').
pub open spec fn dec_digits(n: nat) -> Seq<char>
    decreases n,
{
    if n < 10 {
        seq![digit_char_of(n as int)]
    } else {
        dec_digits(n / 10).push(digit_char_of((n % 10) as int))
    }
}

/// The default scale table: entry `i` is the scale word for digit group
/// `i + 1`, so it starts at the thousands position. It covers eleven scale
/// levels, enough for any 36-digit numeral and so for any `u64` or `i64`.
pub open spec fn default_table() -> Seq<Seq<char>> {
    seq![
        "thousand"@,
        "million"@,
        "billion"@,
        "trillion"@,
        "quadrillion"@,
        "quintillion"@,
        "sextillion"@,
        "septillion"@,
        "octillion"@,
        "nonillion"@,
        "decillion"@,
    ]
}

/// The scale table a slice-or-default argument denotes: the caller's words,
/// or the default table when none were supplied.
pub open spec fn table_view(level_words: Option<&[&str]>) -> Seq<Seq<char>> {
    match level_words {
        Option::Some(t) => t.deep_view(),
        Option::None => default_table(),
    }
}

/// The scale table a vector-or-default argument denotes.
pub open spec fn vec_table_view(level_words: Option<Vec<&str>>) -> Seq<Seq<char>> {
    match level_words {
        Option::Some(t) => t.deep_view(),
        Option::None => default_table(),
    }
}

/// The word form of a signed integer: the magnitude's digits rendered as an
/// unsigned numeral, with "negative " prefixed for negative values.
pub open spec fn signed_words(n: int, table: Seq<Seq<char>>) -> Option<Seq<char>> {
    if n >= 0 {
        unsigned_text_words(dec_digits(n as nat), table)
    } else {
        match unsigned_text_words(dec_digits((-n) as nat), table) {
            Option::None => Option::None,
            Option::Some(w) => Some("negative "@ + w),
        }
    }
}

/// The view of an optional word: the character sequence it holds, if any.
pub open spec fn word_view(r: Option<String>) -> Option<Seq<char>> {
    match r {
        Option::Some(s) => Some(s@),
        Option::None => Option::None,
    }
}

/// The k-th power of ten.
pub open spec fn pow10(k: nat) -> int
    decreases k,
{
    if k == 0 {
        1
    } else {
        10 * pow10((k - 1) as nat)
    }
}

/// A digit sequence of length k has a value below the k-th power of ten.
pub proof fn lemma_num_val_bound(s: Seq<char>)
    requires
        all_digit_chars(s),
    ensures
        0 <= num_val(s) < pow10(s.len()),
    decreases s.len(),
{
    if s.len() == 0 {
    } else {
        assert(all_digit_chars(s.drop_last())) by {
            assert(forall|i: int|
                0 <= i < s.len() - 1 ==> s.drop_last()[i] == s[i] && is_digit_char(s[i]));
        }
        lemma_num_val_bound(s.drop_last());
        assert(is_digit_char(s.last()));
    }
}

/// A non-zero group value has a non-empty word form.
pub proof fn lemma_group_words_nonempty(n: int)
    requires
        1 <= n < 1000,
    ensures
        group_words(n).len() > 0,
{
    reveal_strlit("one");
    reveal_strlit("two");
    reveal_strlit("three");
    reveal_strlit("four");
    reveal_strlit("five");
    reveal_strlit("six");
    reveal_strlit("seven");
    reveal_strlit("eight");
    reveal_strlit("nine");
    reveal_strlit("ten");
    reveal_strlit("eleven");
    reveal_strlit("twelve");
    reveal_strlit("thirteen");
    reveal_strlit("fourteen");
    reveal_strlit("fifteen");
    reveal_strlit("sixteen");
    reveal_strlit("seventeen");
    reveal_strlit("eighteen");
    reveal_strlit("nineteen");
    reveal_strlit("twenty");
    reveal_strlit("thirty");
    reveal_strlit("forty");
    reveal_strlit("fifty");
    reveal_strlit("sixty");
    reveal_strlit("seventy");
    reveal_strlit("eighty");
    reveal_strlit("ninety");
    reveal_strlit(" hundred");
}

/// Joining with a single space is associative when the middle part is
/// non-empty.
pub proof fn lemma_space_join_assoc(a: Seq<char>, b: Seq<char>, c: Seq<char>)
    requires
        b.len() > 0,
    ensures
        space_join(a, space_join(b, c)) == space_join(space_join(a, b), c),
{
    if a.len() == 0 {
    } else if c.len() == 0 {
    } else {
        assert(a + " "@ + (b + " "@ + c) =~= (a + " "@ + b) + " "@ + c);
    }
}

/// Group assembly succeeds whenever the table reaches every group position.
pub proof fn lemma_words_for_groups_some(groups: Seq<int>, upto: int, table: Seq<Seq<char>>)
    requires
        0 <= upto <= groups.len(),
        upto <= table.len() + 1,
    ensures
        words_for_groups(groups, upto, table) is Some,
    decreases upto,
{
    if upto > 0 {
        lemma_words_for_groups_some(groups, upto - 1, table);
    }
}

/// A digit sequence splits into one group per three digits, rounded up.
pub proof fn lemma_groups_of_len(s: Seq<char>)
    ensures
        groups_of(s).len() == (s.len() + 2) / 3,
    decreases s.len(),
{
    if s.len() > 3 {
        lemma_groups_of_len(s.take(s.len() - 3));
    }
}

/// The decimal digits of a number are digits, and there is at least one.
pub proof fn lemma_dec_digits_wf(n: nat)
    ensures
        all_digit_chars(dec_digits(n)),
        dec_digits(n).len() >= 1,
    decreases n,
{
    if n < 10 {
        assert(is_digit_char(digit_char_of(n as int)));
    } else {
        lemma_dec_digits_wf(n / 10);
        assert(is_digit_char(digit_char_of((n % 10) as int)));
        assert(all_digit_chars(dec_digits(n))) by {
            let d = dec_digits(n / 10);
            let w = d.push(digit_char_of((n % 10) as int));
            assert(forall|i: int| 0 <= i < d.len() ==> w[i] == d[i]);
        }
    }
}

/// A number below the k-th power of ten has at most k decimal digits.
pub proof fn lemma_dec_digits_len(n: nat, k: nat)
    requires
        k >= 1,
        n < pow10(k),
    ensures
        dec_digits(n).len() <= k,
    decreases n,
{
    if n < 10 {
    } else {
        assert(pow10(k) == 10 * pow10((k - 1) as nat));
        assert(pow10((k - 1) as nat) >= 1) by {
            lemma_pow10_positive((k - 1) as nat);
        }
        assert(k >= 2) by {
            if k == 1 {
                assert(pow10(1nat) == 10 * pow10(0nat));
            }
        }
        assert(n / 10 < pow10((k - 1) as nat)) by (nonlinear_arith)
            requires
                n < 10 * pow10((k - 1) as nat),
                pow10((k - 1) as nat) >= 1,
        ;
        lemma_dec_digits_len(n / 10, (k - 1) as nat);
    }
}

/// Powers of ten are positive.
pub proof fn lemma_pow10_positive(k: nat)
    ensures
        pow10(k) >= 1,
    decreases k,
{
    if k > 0 {
        lemma_pow10_positive((k - 1) as nat);
    }
}

/// Dropping exactly the leading whitespace is what `trim_start` does.
pub proof fn lemma_trim_start_at(s: Seq<char>, k: int)
    requires
        0 <= k <= s.len(),
        forall|i: int| 0 <= i < k ==> is_space_char(s[i]),
        k == s.len() || !is_space_char(s[k]),
    ensures
        trim_start(s) == s.skip(k),
    decreases k,
{
    if k == 0 {
        assert(trim_start(s) =~= s.skip(0));
    } else {
        let rest = s.drop_first();
        assert(forall|i: int| 0 <= i < k - 1 ==> rest[i] == s[i + 1] && is_space_char(s[i + 1]));
        lemma_trim_start_at(rest, k - 1);
        assert(rest.skip(k - 1) =~= s.skip(k));
    }
}

/// Dropping exactly the trailing whitespace is what `trim_end` does.
pub proof fn lemma_trim_end_at(s: Seq<char>, k: int)
    requires
        0 <= k <= s.len(),
        forall|i: int| k <= i < s.len() ==> is_space_char(s[i]),
        k == 0 || !is_space_char(s[k - 1]),
    ensures
        trim_end(s) == s.take(k),
    decreases s.len(),
{
    if k == s.len() {
        assert(trim_end(s) =~= s.take(k));
    } else {
        let rest = s.drop_last();
        assert(is_space_char(s.last()));
        assert(forall|i: int| k <= i < rest.len() ==> rest[i] == s[i] && is_space_char(s[i]));
        lemma_trim_end_at(rest, k);
        assert(rest.take(k) =~= s.take(k));
    }
}

/// Trimming both ends takes exactly the span between the first and last
/// non-whitespace characters.
pub proof fn lemma_trim_both(s: Seq<char>, start: int, end: int)
    requires
        0 <= start <= end <= s.len(),
        forall|i: int| 0 <= i < start ==> is_space_char(s[i]),
        forall|i: int| end <= i < s.len() ==> is_space_char(s[i]),
        start == s.len() || !is_space_char(s[start]),
        end == start || !is_space_char(s[end - 1]),
    ensures
        trimmed(s) == s.subrange(start, end),
{
    if start == s.len() {
        assert(start == end);
    }
    lemma_trim_start_at(s, start);
    let mid = s.skip(start);
    assert(forall|i: int|
        end - start <= i < mid.len() ==> mid[i] == s[i + start] && is_space_char(s[i + start]));
    lemma_trim_end_at(mid, end - start);
    assert(mid.take(end - start) =~= s.subrange(start, end));
}

/// Converting the digits of any non-negative number succeeds whenever the
/// table reaches every group the digits produce.
pub proof fn lemma_unsigned_text_total(s: Seq<char>, table: Seq<Seq<char>>)
    requires
        s.len() > 0,
        all_digit_chars(s),
        (s.len() + 2) / 3 <= table.len() + 1,
    ensures
        unsigned_text_words(s, table) is Some,
{
    if s.len() == 1 && s[0] == '0' {
    } else {
        lemma_groups_of_len(s);
        lemma_words_for_groups_some(groups_of(s), groups_of(s).len() as int, table);
    }
}

/// The default table suffices for the digits of any value a `u64` can hold.
pub proof fn lemma_default_covers_u64(n: nat)
    requires
        n <= u64::MAX,
    ensures
        unsigned_text_words(dec_digits(n), default_table()) is Some,
{
    lemma_dec_digits_wf(n);
    assert(pow10(20) == 100000000000000000000) by {
        assert(pow10(0nat) == 1);
        assert(pow10(1nat) == 10);
        assert(pow10(2nat) == 100);
        assert(pow10(3nat) == 1000);
        assert(pow10(4nat) == 10000);
        assert(pow10(5nat) == 100000);
        assert(pow10(6nat) == 1000000);
        assert(pow10(7nat) == 10000000);
        assert(pow10(8nat) == 100000000);
        assert(pow10(9nat) == 1000000000);
        assert(pow10(10nat) == 10000000000);
        assert(pow10(11nat) == 100000000000);
        assert(pow10(12nat) == 1000000000000);
        assert(pow10(13nat) == 10000000000000);
        assert(pow10(14nat) == 100000000000000);
        assert(pow10(15nat) == 1000000000000000);
        assert(pow10(16nat) == 10000000000000000);
        assert(pow10(17nat) == 100000000000000000);
        assert(pow10(18nat) == 1000000000000000000);
        assert(pow10(19nat) == 10000000000000000000);
        assert(pow10(20nat) == 100000000000000000000);
    }
    lemma_dec_digits_len(n, 20);
    lemma_unsigned_text_total(dec_digits(n), default_table());
}

} // verus!
