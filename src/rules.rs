//! Rule tables: which live-neighbour counts make a cell alive.

use vstd::prelude::*;

verus! {

/// Why a rule string was refused.
#[derive(Debug, Clone, Copy, PartialEq, Eq, Structural)]
pub enum RuleError {
    /// A character that is not a decimal digit.
    NotADigit,
    /// The digit nine: no cell has more than eight neighbours.
    DigitOutOfRange,
    /// A digit that was already given earlier in the string.
    DuplicateDigit,
}

/// The value of a decimal digit character.
pub open spec fn digit_value(c: char) -> int {
    c as int - '0' as int
}

pub open spec fn is_decimal_digit(c: char) -> bool {
    0 <= digit_value(c) <= 9
}

/// A digit that names a possible neighbour count, `0` to `8`.
pub open spec fn is_count_digit(c: char) -> bool {
    0 <= digit_value(c) <= 8
}

/// The character at `k` appears somewhere before it.
pub open spec fn repeats_earlier(s: Seq<char>, k: int) -> bool {
    exists|j: int| 0 <= j < k && s[j] == s[k]
}

/// The character at `k` makes the rule string malformed.
pub open spec fn malformed_at(s: Seq<char>, k: int) -> bool {
    !is_count_digit(s[k]) || repeats_earlier(s, k)
}

/// A well-formed rule string: count digits only, none of them twice.
pub open spec fn is_valid_rule(s: Seq<char>) -> bool {
    &&& forall|k: int| 0 <= k < s.len() ==> is_count_digit(#[trigger] s[k])
    &&& forall|j: int, k: int| 0 <= j < k < s.len() ==> s[j] != s[k]
}

/// The error reported for the malformed character at `k`.
pub open spec fn error_at(s: Seq<char>, k: int) -> RuleError {
    if !is_decimal_digit(s[k]) {
        RuleError::NotADigit
    } else if !is_count_digit(s[k]) {
        RuleError::DigitOutOfRange
    } else {
        RuleError::DuplicateDigit
    }
}

/// The digit `d` occurs in `s`.
pub open spec fn mentions(s: Seq<char>, d: int) -> bool {
    exists|i: int| 0 <= i < s.len() && digit_value(s[i]) == d
}

/// The table a rule string stands for: slot `d` is 1 exactly when `d` occurs.
pub open spec fn rule_table(s: Seq<char>) -> Seq<u8> {
    Seq::new(9, |d: int| if mentions(s, d) { 1u8 } else { 0u8 })
}

/// A rule table: nine slots, each 0 or 1.
pub open spec fn is_rule_table(t: Seq<u8>) -> bool {
    t.len() == 9 && forall|d: int| 0 <= d < 9 ==> #[trigger] t[d] <= 1
}

/// Parses a string of neighbour-count digits into a rule table.
///
/// Each digit `d` sets slot `d` to 1. The first character that is not a
/// digit, is `9`, or repeats an earlier digit makes the whole parse fail.
pub fn rule_from_string(s: &String) -> (r: Result<[u8; 9], RuleError>)
    ensures
        r is Ok <==> is_valid_rule(s@),
        r matches Ok(t) ==> t@ == rule_table(s@) && is_rule_table(t@),
        r matches Err(e) ==> exists|k: int|
            0 <= k < s@.len() && malformed_at(s@, k) && e == error_at(s@, k) && (forall|j: int|
                0 <= j < k ==> !malformed_at(s@, j)),
        (exists|j: int, k: int| 0 <= j < k < s@.len() && s@[j] == s@[k]) ==> r is Err,
{
    let mut rule: [u8; 9] = [0u8; 9];
    let n = s.as_str().unicode_len();
    let mut i: usize = 0;
    while i < n
        invariant
            n == s@.len(),
            i <= n,
            forall|k: int| 0 <= k < i ==> !malformed_at(s@, k),
            forall|d: int| 0 <= d < 9 ==> #[trigger] rule@[d] <= 1,
            forall|d: int| 0 <= d < 9 ==> (#[trigger] rule@[d] == 1 <==> exists|k: int|
                0 <= k < i && digit_value(s@[k]) == d),
        decreases n - i,
    {
        let c = s.as_str().get_char(i);
        let code = c as u32;
        if code < 48 || code > 57 {
            assert(malformed_at(s@, i as int));
            return Err(RuleError::NotADigit);
        }
        let d = (code - 48) as usize;
        if d > 8 {
            assert(malformed_at(s@, i as int));
            return Err(RuleError::DigitOutOfRange);
        }
        if rule[d] != 0 {
            proof {
                let k = choose|k: int| 0 <= k < i && digit_value(s@[k]) == d;
                assert(!malformed_at(s@, k));
                assert(s@[k] == s@[i as int]);
                assert(malformed_at(s@, i as int));
            }
            return Err(RuleError::DuplicateDigit);
        }
        rule[d] = 1;
        proof {
            assert forall|j: int| 0 <= j < i implies s@[j] != s@[i as int] by {
                if s@[j] == s@[i as int] {
                    assert(rule@[d as int] == 0);
                }
            }
        }
        i += 1;
    }
    proof {
        assert(rule@ =~= rule_table(s@));
        assert forall|j: int, k: int| 0 <= j < k < s@.len() implies s@[j] != s@[k] by {
            assert(!malformed_at(s@, k));
        }
        assert forall|k: int| 0 <= k < s@.len() implies is_count_digit(#[trigger] s@[k]) by {
            assert(!malformed_at(s@, k));
        }
    }
    Ok(rule)
}

} // verus!
