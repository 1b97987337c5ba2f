//! The magnitude converter and the three entry points: text, signed and
//! unsigned integers.

use vstd::prelude::*;
use vstd::string::StrSliceExecFns;
use vstd::string::StringExecFns;

use crate::group::group_number_to_words;
use crate::model::all_digit_chars;
use crate::model::dec_digits;
use crate::model::default_table;
use crate::model::digit_char_of;
use crate::model::group_words;
use crate::model::groups_of;
use crate::model::is_digit_char;
use crate::model::is_space_char;
use crate::model::lemma_default_covers_u64;
use crate::model::lemma_group_words_nonempty;
use crate::model::lemma_num_val_bound;
use crate::model::lemma_space_join_assoc;
use crate::model::lemma_trim_both;
use crate::model::num_val;
use crate::model::pow10;
use crate::model::signed_words;
use crate::model::space_join;
use crate::model::table_view;
use crate::model::text_words;
use crate::model::trimmed;
use crate::model::unsigned_text_words;
use crate::model::vec_table_view;
use crate::model::word_view;
use crate::model::words_for_groups;

verus! {

/// The default scale words, one per group position starting at the thousands.
fn default_level_words() -> (r: Vec<&'static str>)
    ensures
        r.deep_view() == default_table(),
{
    let mut v: Vec<&str> = Vec::new();
    v.push("thousand");
    v.push("million");
    v.push("billion");
    v.push("trillion");
    v.push("quadrillion");
    v.push("quintillion");
    v.push("sextillion");
    v.push("septillion");
    v.push("octillion");
    v.push("nonillion");
    v.push("decillion");
    proof {
        assert(v.deep_view() =~= default_table());
    }
    v
}

/// Whether a character has the Unicode White_Space property.
fn is_white_space(c: char) -> (r: bool)
    ensures
        r == is_space_char(c),
{
    let cv = c as u32;
    cv == 0x20 || (0x9 <= cv && cv <= 0xd) || cv == 0x85 || cv == 0xa0 || cv == 0x1680 || (0x2000
        <= cv && cv <= 0x200a) || cv == 0x2028 || cv == 0x2029 || cv == 0x202f || cv == 0x205f
        || cv == 0x3000
}

/// The word form of an unsigned numeral given as a digit string, under the
/// given scale table. Fails on an empty string, on any non-digit character,
/// and when the table has no word for some non-zero group.
#[verifier::loop_isolation(false)]
fn magnitude_to_words(digits: &str, table: &[&str]) -> (r: Option<String>)
    ensures
        word_view(r) == unsigned_text_words(digits@, table.deep_view()),
{
    let ghost s = digits@;
    let ghost tv = table.deep_view();
    let n = digits.unicode_len();
    if n == 0 {
        return None;
    }
    // Every character must be an ASCII decimal digit.
    let mut i: usize = 0;
    while i < n
        invariant
            i <= n,
            n == s.len(),
            s == digits@,
            forall|k: int| 0 <= k < i ==> is_digit_char(s[k]),
        decreases n - i,
    {
        let c = digits.get_char(i);
        let cv = c as u32;
        if cv < 48 || cv > 57 {
            proof {
                assert(!is_digit_char(s[i as int]));
            }
            return None;
        }
        i += 1;
    }
    assert(all_digit_chars(s));
    // The single digit zero is its own word.
    if n == 1 && digits.get_char(0) == '0' {
        return Some("zero".to_owned());
    }
    // Split the digits into base-1000 groups, least significant first.
    let mut groups: Vec<u64> = Vec::new();
    let mut end: usize = n;
    proof {
        assert(s.take(n as int) =~= s);
        assert(groups@.map_values(|g: u64| g as int) =~= Seq::<int>::empty());
        assert(Seq::<int>::empty() + groups_of(s) =~= groups_of(s));
    }
    while end > 0
        invariant
            end <= n,
            n == s.len(),
            s == digits@,
            all_digit_chars(s),
            groups@.map_values(|g: u64| g as int) + groups_of(s.take(end as int)) == groups_of(s),
            forall|k: int| 0 <= k < groups@.len() ==> groups@[k] < 1000,
        decreases end,
    {
        let start: usize = if end >= 3 {
            end - 3
        } else {
            0
        };
        let ghost prev_end = end as int;
        let ghost prev_groups = groups@;
        let mut v: u64 = 0;
        let mut j: usize = start;
        while j < end
            invariant
                start <= j <= end <= n,
                end - start <= 3,
                n == s.len(),
                s == digits@,
                all_digit_chars(s),
                v == num_val(s.subrange(start as int, j as int)),
            decreases end - j,
        {
            proof {
                lemma_num_val_bound(s.subrange(start as int, j as int));
                assert(pow10(0nat) == 1);
                assert(pow10(1nat) == 10);
                assert(pow10(2nat) == 100);
            }
            let c = digits.get_char(j);
            let d: u64 = (c as u32 - 48) as u64;
            v = v * 10 + d;
            proof {
                assert(s.subrange(start as int, j + 1).drop_last() =~= s.subrange(
                    start as int,
                    j as int,
                ));
                assert(s.subrange(start as int, j + 1).last() == s[j as int]);
            }
            j += 1;
        }
        proof {
            lemma_num_val_bound(s.subrange(start as int, end as int));
            assert(pow10(0nat) == 1);
            assert(pow10(1nat) == 10);
            assert(pow10(2nat) == 100);
            assert(pow10(3nat) == 1000);
            assert(v < 1000);
        }
        groups.push(v);
        end = start;
        proof {
            let taken = s.take(prev_end);
            if prev_end > 3 {
                assert(taken.skip(prev_end - 3) =~= s.subrange(start as int, prev_end));
                assert(taken.take(prev_end - 3) =~= s.take(start as int));
                assert(groups_of(taken) == seq![v as int] + groups_of(s.take(start as int)));
            } else {
                assert(taken =~= s.subrange(start as int, prev_end));
                assert(groups_of(taken) == seq![v as int]);
                assert(s.take(start as int) =~= Seq::<char>::empty());
            }
            assert(groups@ =~= prev_groups.push(v));
            assert(groups@.map_values(|g: u64| g as int) =~= prev_groups.map_values(
                |g: u64| g as int,
            ).push(v as int));
            assert(groups@.map_values(|g: u64| g as int) + groups_of(s.take(start as int))
                =~= prev_groups.map_values(|g: u64| g as int) + groups_of(taken));
        }
    }
    proof {
        assert(s.take(0) =~= Seq::<char>::empty());
        assert(groups@.map_values(|g: u64| g as int) =~= groups_of(s));
    }
    // Assemble the group words most significant first, attaching each group's
    // scale word.
    let ghost gvals = groups@.map_values(|g: u64| g as int);
    let gn = groups.len();
    let mut acc = String::new();
    let mut idx = gn;
    while idx > 0
        invariant
            idx <= gn,
            gn == groups@.len(),
            gvals == groups@.map_values(|g: u64| g as int),
            gvals == groups_of(s),
            tv == table.deep_view(),
            forall|k: int| 0 <= k < groups@.len() ==> groups@[k] < 1000,
            words_for_groups(gvals, gn as int, tv) == (match words_for_groups(
                gvals,
                idx as int,
                tv,
            ) {
                Option::None => Option::None::<Seq<char>>,
                Option::Some(low) => Option::Some(space_join(acc@, low)),
            }),
        decreases idx,
    {
        let i = idx - 1;
        let g = groups[i];
        proof {
            assert(gvals[i as int] == g as int);
        }
        if g != 0 {
            proof {
                lemma_group_words_nonempty(g as int);
            }
            let mut piece = group_number_to_words(g);
            if i >= 1 {
                if i - 1 >= table.len() {
                    proof {
                        assert(words_for_groups(gvals, idx as int, tv) is None);
                        assert(words_for_groups(gvals, gn as int, tv) is None);
                    }
                    return None;
                }
                let sw: &str = table[i - 1];
                proof {
                    assert(sw@ == tv[i - 1]);
                }
                if !sw.is_empty() {
                    piece.append(" ");
                    piece.append(sw);
                }
                proof {
                    assert(piece@ == space_join(group_words(g as int), tv[i - 1]));
                }
            }
            let ghost prev_acc = acc@;
            let ghost piece_view = piece@;
            if acc.as_str().is_empty() {
                acc = piece;
            } else {
                acc.append(" ");
                acc.append(piece.as_str());
            }
            proof {
                assert(acc@ == space_join(prev_acc, piece_view));
                if words_for_groups(gvals, i as int, tv) is Some {
                    let low = words_for_groups(gvals, i as int, tv)->0;
                    lemma_space_join_assoc(prev_acc, piece_view, low);
                }
            }
        }
        idx = i;
    }
    proof {
        assert(words_for_groups(gvals, 0, tv) == Some(Seq::<char>::empty()));
        assert(space_join(acc@, Seq::<char>::empty()) =~= acc@);
    }
    Some(acc)
}

/// The word form of an unsigned digit string under the caller's scale table,
/// or under the default table when none was supplied.
fn words_with_table(digits: &str, level_words: Option<&[&str]>) -> (r: Option<String>)
    ensures
        word_view(r) == unsigned_text_words(digits@, table_view(level_words)),
{
    match level_words {
        Option::Some(t) => magnitude_to_words(digits, t),
        Option::None => {
            let defaults = default_level_words();
            let sl = defaults.as_slice();
            proof {
                assert(sl.deep_view() =~= defaults.deep_view());
            }
            magnitude_to_words(digits, sl)
        },
    }
}

/// Converts an integer given as text of arbitrary length into its word form.
///
/// Surrounding Unicode whitespace is trimmed and a single leading '-' marks a
/// negative value, rendered with the prefix "negative ". Returns `None` when
/// the numeral is empty, holds any character other than an ASCII decimal
/// digit after the optional sign, or needs a scale word beyond the table
/// (`level_words`, or the default table when `None`).
pub fn number_to_words(number: &str, level_words: Option<&[&str]>) -> (r: Option<String>)
    ensures
        word_view(r) == text_words(number@, table_view(level_words)),
{
    let ghost s = number@;
    let n = number.unicode_len();
    let mut start: usize = 0;
    while start < n && is_white_space(number.get_char(start))
        invariant
            start <= n,
            n == s.len(),
            s == number@,
            forall|k: int| 0 <= k < start ==> is_space_char(s[k]),
        decreases n - start,
    {
        start += 1;
    }
    let mut end: usize = n;
    while end > start && is_white_space(number.get_char(end - 1))
        invariant
            start <= end <= n,
            n == s.len(),
            s == number@,
            forall|k: int| end <= k < n ==> is_space_char(s[k]),
        decreases end,
    {
        end -= 1;
    }
    proof {
        lemma_trim_both(s, start as int, end as int);
    }
    let t = number.substring_char(start, end);
    if end == start {
        return None;
    }
    if t.get_char(0) == '-' {
        let rest = t.substring_char(1, end - start);
        proof {
            assert(rest@ =~= trimmed(s).drop_first());
        }
        match words_with_table(rest, level_words) {
            Option::Some(w) => {
                let mut out = "negative ".to_owned();
                out.append(w.as_str());
                Some(out)
            },
            Option::None => None,
        }
    } else {
        words_with_table(t, level_words)
    }
}

/// One decimal digit as text.
fn digit_str(d: u64) -> (r: &'static str)
    requires
        d <= 9,
    ensures
        r@ == seq![digit_char_of(d as int)],
{
    proof {
        reveal_strlit("0");
        reveal_strlit("1");
        reveal_strlit("2");
        reveal_strlit("3");
        reveal_strlit("4");
        reveal_strlit("5");
        reveal_strlit("6");
        reveal_strlit("7");
        reveal_strlit("8");
        reveal_strlit("9");
    }
    if d == 0 {
        proof {
            assert("0"@ =~= seq![digit_char_of(0)]);
        }
        "0"
    } else if d == 1 {
        proof {
            assert("1"@ =~= seq![digit_char_of(1)]);
        }
        "1"
    } else if d == 2 {
        proof {
            assert("2"@ =~= seq![digit_char_of(2)]);
        }
        "2"
    } else if d == 3 {
        proof {
            assert("3"@ =~= seq![digit_char_of(3)]);
        }
        "3"
    } else if d == 4 {
        proof {
            assert("4"@ =~= seq![digit_char_of(4)]);
        }
        "4"
    } else if d == 5 {
        proof {
            assert("5"@ =~= seq![digit_char_of(5)]);
        }
        "5"
    } else if d == 6 {
        proof {
            assert("6"@ =~= seq![digit_char_of(6)]);
        }
        "6"
    } else if d == 7 {
        proof {
            assert("7"@ =~= seq![digit_char_of(7)]);
        }
        "7"
    } else if d == 8 {
        proof {
            assert("8"@ =~= seq![digit_char_of(8)]);
        }
        "8"
    } else {
        proof {
            assert("9"@ =~= seq![digit_char_of(9)]);
        }
        "9"
    }
}

/// The decimal digit string of a `u64`.
fn u64_to_dec(n: u64) -> (r: String)
    ensures
        r@ == dec_digits(n as nat),
    decreases n,
{
    if n < 10 {
        digit_str(n).to_owned()
    } else {
        let mut r = u64_to_dec(n / 10);
        r.append(digit_str(n % 10));
        proof {
            assert(r@ =~= dec_digits((n / 10) as nat).push(digit_char_of((n % 10) as int)));
        }
        r
    }
}

/// Converts a `u64` into its word form.
///
/// Total over all values with the default table. A caller-supplied table must
/// hold a scale word for every group position the value's digits reach.
pub fn unsigned_number_to_words(number: u64, level_words: Option<Vec<&str>>) -> (r: String)
    requires
        (level_words matches Some(t) ==> unsigned_text_words(
            dec_digits(number as nat),
            t.deep_view(),
        ) is Some),
    ensures
        Some(r@) == unsigned_text_words(dec_digits(number as nat), vec_table_view(level_words)),
{
    let digits = u64_to_dec(number);
    let r = match &level_words {
        Option::Some(t) => {
            let sl = t.as_slice();
            proof {
                assert(sl.deep_view() =~= level_words->0.deep_view());
            }
            words_with_table(digits.as_str(), Some(sl))
        },
        Option::None => {
            proof {
                lemma_default_covers_u64(number as nat);
            }
            words_with_table(digits.as_str(), None)
        },
    };
    r.unwrap()
}

/// Converts an `i64` into its word form, prefixing "negative " for negative
/// values.
///
/// Total over all values with the default table; the magnitude is taken in a
/// wider domain, so the smallest `i64` is handled. A caller-supplied table
/// must hold a scale word for every group position the magnitude's digits
/// reach.
pub fn signed_number_to_words(number: i64, level_words: Option<Vec<&str>>) -> (r: String)
    requires
        (level_words matches Some(t) ==> signed_words(number as int, t.deep_view()) is Some),
    ensures
        Some(r@) == signed_words(number as int, vec_table_view(level_words)),
{
    let mag: u64 = if number >= 0 {
        number as u64
    } else {
        (-(number as i128)) as u64
    };
    proof {
        assert(mag as int == if number as int >= 0 {
            number as int
        } else {
            -(number as int)
        });
    }
    let digits = u64_to_dec(mag);
    let base = match &level_words {
        Option::Some(t) => {
            let sl = t.as_slice();
            proof {
                assert(sl.deep_view() =~= level_words->0.deep_view());
            }
            words_with_table(digits.as_str(), Some(sl))
        },
        Option::None => {
            proof {
                lemma_default_covers_u64(mag as nat);
            }
            words_with_table(digits.as_str(), None)
        },
    };
    let base = base.unwrap();
    if number < 0 {
        let mut out = "negative ".to_owned();
        out.append(base.as_str());
        out
    } else {
        base
    }
}

} // verus!
