//! General properties of the conversion, stated over the model and proved
//! once for all inputs.

use vstd::prelude::*;

use crate::model::all_digit_chars;
use crate::model::dec_digits;
use crate::model::default_table;
use crate::model::group_words;
use crate::model::groups_of;
use crate::model::is_digit_char;
use crate::model::is_space_char;
use crate::model::lemma_dec_digits_wf;
use crate::model::lemma_group_words_nonempty;
use crate::model::lemma_groups_of_len;
use crate::model::lemma_num_val_bound;
use crate::model::lemma_trim_both;
use crate::model::lemma_words_for_groups_some;
use crate::model::num_val;
use crate::model::pow10;
use crate::model::small_word;
use crate::model::space_join;
use crate::model::tens_word;
use crate::model::text_words;
use crate::model::trimmed;
use crate::model::unsigned_text_words;
use crate::model::words_for_groups;

verus! {

/// No character of `w` is a space.
pub open spec fn spaceless(w: Seq<char>) -> bool {
    forall|i: int| 0 <= i < w.len() ==> w[i] != ' '
}

/// `w` splits on spaces into non-empty tokens: it neither starts nor ends
/// with a space, and no two spaces are adjacent.
pub open spec fn tidy_words(w: Seq<char>) -> bool {
    &&& (w.len() > 0 ==> w[0] != ' ' && w[w.len() - 1] != ' ')
    &&& forall|i: int| 0 <= i < w.len() - 1 ==> !(#[trigger] w[i] == ' ' && w[i + 1] == ' ')
}

/// A word without spaces is tidy.
proof fn lemma_spaceless_tidy(w: Seq<char>)
    requires
        spaceless(w),
    ensures
        tidy_words(w),
{
}

/// Joining two tidy words with a single space gives a tidy word.
proof fn lemma_space_join_tidy(a: Seq<char>, b: Seq<char>)
    requires
        tidy_words(a),
        tidy_words(b),
    ensures
        tidy_words(space_join(a, b)),
{
    reveal_strlit(" ");
    if a.len() == 0 {
    } else if b.len() == 0 {
    } else {
        let c = a + " "@ + b;
        assert(c[0] == a[0]);
        assert(c[c.len() - 1] == b[b.len() - 1]);
        assert forall|i: int| 0 <= i < c.len() - 1 implies !(#[trigger] c[i] == ' ' && c[i + 1]
            == ' ') by {
            if i < a.len() - 1 {
                assert(c[i] == a[i]);
                assert(c[i + 1] == a[i + 1]);
            } else if i == a.len() - 1 {
                assert(c[i] == a[a.len() - 1]);
            } else if i == a.len() {
                assert(c[i + 1] == b[0]);
            } else {
                assert(c[i] == b[i - a.len() - 1]);
                assert(c[i + 1] == b[i - a.len()]);
            }
        }
    }
}

/// The words below twenty hold no space.
proof fn lemma_small_word_spaceless(n: int)
    requires
        0 <= n < 20,
    ensures
        spaceless(small_word(n)),
{
    reveal_strlit("one");
    reveal_strlit("two");
    reveal_strlit("three");
    reveal_strlit("four");
    reveal_strlit("five");
    reveal_strlit("six");
    reveal_strlit("seven");
    reveal_strlit("eight");
    reveal_strlit("nine");
    reveal_strlit("ten");
    reveal_strlit("eleven");
    reveal_strlit("twelve");
    reveal_strlit("thirteen");
    reveal_strlit("fourteen");
    reveal_strlit("fifteen");
    reveal_strlit("sixteen");
    reveal_strlit("seventeen");
    reveal_strlit("eighteen");
    reveal_strlit("nineteen");
}

/// The tens words hold no space.
proof fn lemma_tens_word_spaceless(t: int)
    requires
        2 <= t <= 9,
    ensures
        spaceless(tens_word(t)),
{
    reveal_strlit("twenty");
    reveal_strlit("thirty");
    reveal_strlit("forty");
    reveal_strlit("fifty");
    reveal_strlit("sixty");
    reveal_strlit("seventy");
    reveal_strlit("eighty");
    reveal_strlit("ninety");
}

/// The word form of any single group is tidy.
proof fn lemma_group_words_tidy(n: int)
    requires
        0 <= n < 1000,
    ensures
        tidy_words(group_words(n)),
    decreases n,
{
    if n < 20 {
        lemma_small_word_spaceless(n);
        lemma_spaceless_tidy(small_word(n));
    } else if n < 100 {
        lemma_tens_word_spaceless(n / 10);
        if n % 10 == 0 {
            lemma_spaceless_tidy(tens_word(n / 10));
        } else {
            reveal_strlit("-");
            lemma_small_word_spaceless(n % 10);
            let c = tens_word(n / 10) + "-"@ + small_word(n % 10);
            assert forall|i: int| 0 <= i < c.len() implies c[i] != ' ' by {
                let a = tens_word(n / 10);
                let b = small_word(n % 10);
                if i < a.len() {
                    assert(c[i] == a[i]);
                } else if i == a.len() {
                    assert(c[i] == '-');
                } else {
                    assert(c[i] == b[i - a.len() - 1]);
                }
            }
            lemma_spaceless_tidy(c);
        }
    } else {
        reveal_strlit(" hundred");
        reveal_strlit("hundred");
        lemma_small_word_spaceless(n / 100);
        lemma_group_words_nonempty(n / 100);
        lemma_spaceless_tidy(small_word(n / 100));
        assert(spaceless("hundred"@));
        lemma_spaceless_tidy("hundred"@);
        assert(" hundred"@ =~= " "@ + "hundred"@) by {
            reveal_strlit(" ");
        }
        let head = small_word(n / 100) + " hundred"@;
        assert(head =~= space_join(small_word(n / 100), "hundred"@)) by {
            reveal_strlit(" ");
        }
        lemma_space_join_tidy(small_word(n / 100), "hundred"@);
        if n % 100 == 0 {
            assert(group_words(n) =~= head);
        } else {
            lemma_group_words_tidy(n % 100);
            lemma_group_words_nonempty(n % 100);
            assert(group_words(n) =~= space_join(head, group_words(n % 100))) by {
                reveal_strlit(" ");
                assert(head.len() > 0);
                assert(group_words(n) =~= head + " "@ + group_words(n % 100));
            }
            lemma_space_join_tidy(head, group_words(n % 100));
        }
    }
}

/// Every group a digit sequence yields lies in 0..=999.
proof fn lemma_groups_of_range(s: Seq<char>)
    requires
        all_digit_chars(s),
    ensures
        forall|k: int| 0 <= k < groups_of(s).len() ==> 0 <= #[trigger] groups_of(s)[k] < 1000,
    decreases s.len(),
{
    assert(pow10(0nat) == 1);
    assert(pow10(1nat) == 10);
    assert(pow10(2nat) == 100);
    assert(pow10(3nat) == 1000);
    if s.len() == 0 {
    } else if s.len() <= 3 {
        lemma_num_val_bound(s);
    } else {
        let chunk = s.skip(s.len() - 3);
        assert(all_digit_chars(chunk)) by {
            assert(forall|i: int|
                0 <= i < chunk.len() ==> chunk[i] == s[i + s.len() - 3] && is_digit_char(
                    s[i + s.len() - 3],
                ));
        }
        lemma_num_val_bound(chunk);
        let rest = s.take(s.len() - 3);
        assert(all_digit_chars(rest)) by {
            assert(forall|i: int|
                0 <= i < rest.len() ==> rest[i] == s[i] && is_digit_char(s[i]));
        }
        lemma_groups_of_range(rest);
        assert(forall|k: int|
            1 <= k < groups_of(s).len() ==> groups_of(s)[k] == #[trigger] groups_of(rest)[k - 1]);
    }
}

/// When group assembly succeeds over tidy scale words, the result is tidy.
proof fn lemma_words_for_groups_tidy(groups: Seq<int>, upto: int, table: Seq<Seq<char>>)
    requires
        0 <= upto <= groups.len(),
        forall|k: int| 0 <= k < groups.len() ==> 0 <= #[trigger] groups[k] < 1000,
        forall|k: int| 0 <= k < table.len() ==> tidy_words(#[trigger] table[k]),
        words_for_groups(groups, upto, table) is Some,
    ensures
        tidy_words(words_for_groups(groups, upto, table)->0),
    decreases upto,
{
    if upto <= 0 {
    } else {
        let i = upto - 1;
        let g = groups[i];
        if g == 0 {
            lemma_words_for_groups_tidy(groups, i, table);
        } else {
            lemma_words_for_groups_tidy(groups, i, table);
            lemma_group_words_tidy(g);
            let piece = if i >= 1 {
                space_join(group_words(g), table[i - 1])
            } else {
                group_words(g)
            };
            if i >= 1 {
                lemma_space_join_tidy(group_words(g), table[i - 1]);
            }
            let low = words_for_groups(groups, i, table)->0;
            lemma_space_join_tidy(piece, low);
        }
    }
}

/// Converting the decimal text of any non-negative integer succeeds whenever
/// the scale table reaches every digit group, and the words come out cleanly
/// spaced: splitting the result on spaces gives no empty token, and it
/// neither starts nor ends with a space.
pub proof fn lemma_convert_text_total_and_clean(n: nat, table: Seq<Seq<char>>)
    requires
        (dec_digits(n).len() + 2) / 3 <= table.len() + 1,
        forall|k: int| 0 <= k < table.len() ==> tidy_words(#[trigger] table[k]),
    ensures
        text_words(dec_digits(n), table) is Some,
        tidy_words(text_words(dec_digits(n), table)->0),
{
    let s = dec_digits(n);
    lemma_dec_digits_wf(n);
    assert(forall|i: int| 0 <= i < s.len() ==> !is_space_char(#[trigger] s[i]));
    lemma_trim_both(s, 0, s.len() as int);
    assert(trimmed(s) =~= s);
    assert(s[0] != '-');
    if s.len() == 1 && s[0] == '0' {
        reveal_strlit("zero");
        assert(spaceless("zero"@));
        lemma_spaceless_tidy("zero"@);
    } else {
        lemma_groups_of_len(s);
        lemma_words_for_groups_some(groups_of(s), groups_of(s).len() as int, table);
        lemma_groups_of_range(s);
        lemma_words_for_groups_tidy(groups_of(s), groups_of(s).len() as int, table);
    }
}

/// The default scale words are tidy, so the cleanliness above applies to the
/// default table; it reaches every numeral of up to 36 digits.
pub proof fn lemma_default_table_tidy()
    ensures
        default_table().len() == 11,
        forall|k: int| 0 <= k < default_table().len() ==> tidy_words(#[trigger] default_table()[k]),
{
    reveal_strlit("thousand");
    reveal_strlit("million");
    reveal_strlit("billion");
    reveal_strlit("trillion");
    reveal_strlit("quadrillion");
    reveal_strlit("quintillion");
    reveal_strlit("sextillion");
    reveal_strlit("septillion");
    reveal_strlit("octillion");
    reveal_strlit("nonillion");
    reveal_strlit("decillion");
    assert forall|k: int| 0 <= k < default_table().len() implies tidy_words(
        #[trigger] default_table()[k],
    ) by {
        let w = default_table()[k];
        assert(spaceless(w));
        lemma_spaceless_tidy(w);
    }
}

/// The single digit zero converts to "zero" under every scale table.
pub proof fn lemma_zero_is_zero(table: Seq<Seq<char>>)
    ensures
        text_words(seq!['0'], table) == Some("zero"@),
{
    let s = seq!['0'];
    assert(!is_space_char(s[0]));
    lemma_trim_both(s, 0, 1);
    assert(trimmed(s) =~= s);
    assert(is_digit_char(s[0]));
}

/// A lone minus sign before the digit zero keeps the sign rule: the digits
/// convert to "zero" and the driver prefixes "negative ", giving
/// "negative zero" under every scale table.
pub proof fn lemma_negative_zero(table: Seq<Seq<char>>)
    ensures
        text_words(seq!['-', '0'], table) == Some("negative zero"@),
{
    let s = seq!['-', '0'];
    assert(!is_space_char(s[0]) && !is_space_char(s[1]));
    lemma_trim_both(s, 0, 2);
    assert(trimmed(s) =~= s);
    let u = s.drop_first();
    assert(u =~= seq!['0']);
    assert(is_digit_char(u[0]));
    assert(unsigned_text_words(u, table) == Some("zero"@));
    assert("negative zero"@ =~= "negative "@ + "zero"@) by {
        reveal_strlit("negative zero");
        reveal_strlit("negative ");
        reveal_strlit("zero");
    }
}

/// Malformed text never converts: when, after trimming and stripping one
/// optional leading minus sign, the numeral is empty or holds any character
/// that is not an ASCII decimal digit, the conversion reports failure (and,
/// being verified, it cannot panic on any input).
pub proof fn lemma_malformed_fails(s: Seq<char>, table: Seq<Seq<char>>)
    requires
        ({
            let t = trimmed(s);
            let u = if t.len() > 0 && t[0] == '-' {
                t.drop_first()
            } else {
                t
            };
            u.len() == 0 || !all_digit_chars(u)
        }),
    ensures
        text_words(s, table) is None,
{
    let t = trimmed(s);
    if t.len() > 0 && t[0] != '-' {
        assert(!(t.len() == 1 && t[0] == '0')) by {
            if t.len() == 1 && t[0] == '0' {
                assert(is_digit_char(t[0]));
            }
        }
    }
}

} // verus!
