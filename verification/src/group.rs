//! The group renderer: the word form of a single base-1000 digit group.

use vstd::prelude::*;
use vstd::string::StrSliceExecFns;
use vstd::string::StringExecFns;

use crate::model::group_words;
use crate::model::small_word;
use crate::model::tens_word;

verus! {

/// The word for a multiple of ten between twenty and ninety.
pub fn multiple_of_ten_number_to_words(number: u64) -> (r: String)
    requires
        20 <= number <= 90,
        number % 10 == 0,
    ensures
        r@ == tens_word(number as int / 10),
{
    let w: &str = if number == 20 {
        "twenty"
    } else if number == 30 {
        "thirty"
    } else if number == 40 {
        "forty"
    } else if number == 50 {
        "fifty"
    } else if number == 60 {
        "sixty"
    } else if number == 70 {
        "seventy"
    } else if number == 80 {
        "eighty"
    } else {
        "ninety"
    };
    w.to_owned()
}

/// The word for a value below twenty; zero gives the empty string, the
/// "skip this group" signal used by the magnitude converter.
fn small_number_to_words(number: u64) -> (r: String)
    requires
        number < 20,
    ensures
        r@ == small_word(number as int),
{
    let w: &str = if number == 0 {
        ""
    } else if number == 1 {
        "one"
    } else if number == 2 {
        "two"
    } else if number == 3 {
        "three"
    } else if number == 4 {
        "four"
    } else if number == 5 {
        "five"
    } else if number == 6 {
        "six"
    } else if number == 7 {
        "seven"
    } else if number == 8 {
        "eight"
    } else if number == 9 {
        "nine"
    } else if number == 10 {
        "ten"
    } else if number == 11 {
        "eleven"
    } else if number == 12 {
        "twelve"
    } else if number == 13 {
        "thirteen"
    } else if number == 14 {
        "fourteen"
    } else if number == 15 {
        "fifteen"
    } else if number == 16 {
        "sixteen"
    } else if number == 17 {
        "seventeen"
    } else if number == 18 {
        "eighteen"
    } else {
        "nineteen"
    };
    if number == 0 {
        proof {
            reveal_strlit("");
            assert(w@ =~= Seq::<char>::empty());
        }
    }
    w.to_owned()
}

/// The word form of a digit group in 0..=999. Zero gives the empty string.
pub fn group_number_to_words(number: u64) -> (r: String)
    requires
        number < 1000,
    ensures
        r@ == group_words(number as int),
    decreases number,
{
    if number < 20 {
        small_number_to_words(number)
    } else if number < 100 {
        let tens: u64 = number / 10;
        let ones: u64 = number % 10;
        let mut s = multiple_of_ten_number_to_words(tens * 10);
        if ones != 0 {
            let ones_part = small_number_to_words(ones);
            s.append("-");
            s.append(ones_part.as_str());
        }
        proof {
            assert(s@ =~= group_words(number as int));
        }
        s
    } else {
        let hundreds: u64 = number / 100;
        let rem: u64 = number % 100;
        let mut s = small_number_to_words(hundreds);
        s.append(" hundred");
        if rem != 0 {
            let rem_part = group_number_to_words(rem);
            s.append(" ");
            s.append(rem_part.as_str());
        }
        proof {
            assert(s@ =~= group_words(number as int));
        }
        s
    }
}

} // verus!
