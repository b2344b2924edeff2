//! Interpretation of configuration settings handed in as plain strings: the
//! truthy test for the readable-names switch and the chunk-size setting.

use vstd::prelude::*;
use crate::strutil::str_eq;

verus! {

/// Chunk budget used when the setting is absent: 100 MiB.
pub const DEFAULT_CHUNK_BUDGET: u64 = 104857600;

pub open spec fn is_dec_digit(c: char) -> bool {
    '0' <= c <= '9'
}

pub open spec fn all_dec_digits(s: Seq<char>) -> bool {
    forall|i: int| 0 <= i < s.len() ==> is_dec_digit(s[i])
}

/// The number a string of decimal digits denotes.
pub open spec fn dec_value(s: Seq<char>) -> int
    decreases s.len(),
{
    if s.len() == 0 {
        0
    } else {
        dec_value(s.drop_last()) * 10 + (s.last() as int - '0' as int)
    }
}

proof fn lemma_dec_value_nonneg(s: Seq<char>)
    requires
        all_dec_digits(s),
    ensures
        dec_value(s) >= 0,
    decreases s.len(),
{
    if s.len() > 0 {
        assert(all_dec_digits(s.drop_last())) by {
            assert(forall|i: int| 0 <= i < s.len() - 1 ==> s.drop_last()[i] == s[i]);
        }
        lemma_dec_value_nonneg(s.drop_last());
    }
}

/// A digit string's value only grows as digits are appended.
proof fn lemma_dec_value_prefix_le(s: Seq<char>, i: int)
    requires
        all_dec_digits(s),
        0 <= i <= s.len(),
    ensures
        dec_value(s.take(i)) <= dec_value(s),
    decreases s.len() - i,
{
    if i < s.len() {
        let sub = s.drop_last();
        assert forall|k: int| 0 <= k < sub.len() implies is_dec_digit(sub[k]) by {
            assert(sub[k] == s[k]);
        }
        lemma_dec_value_nonneg(sub);
        lemma_dec_value_prefix_le(sub, i);
        assert(sub.take(i) =~= s.take(i));
        assert(is_dec_digit(s[s.len() - 1]));
        assert(s.last() as int - '0' as int >= 0);
        assert(dec_value(s) == dec_value(sub) * 10 + (s.last() as int - '0' as int));
        assert(dec_value(sub) * 10 >= dec_value(sub));
    } else {
        assert(s.take(i) =~= s);
    }
}

/// Is `v` one of the two accepted truthy spellings?
pub fn is_truthy_value(v: &str) -> (r: bool)
    ensures
        r == (v@ == "True"@ || v@ == "true"@),
{
    str_eq(v, "True") || str_eq(v, "true")
}

/// Parses a nonempty all-decimal string as a `u64`; `None` when the string
/// is empty, holds a non-digit, or denotes a value past `u64::MAX`.
pub fn parse_u64(s: &str) -> (r: Option<u64>)
    ensures
        match r {
            Some(v) => s@.len() > 0 && all_dec_digits(s@) && v as int == dec_value(s@),
            None => s@.len() == 0 || !all_dec_digits(s@) || dec_value(s@) > u64::MAX,
        },
{
    let n = s.unicode_len();
    if n == 0 {
        return None;
    }
    let mut acc: u64 = 0;
    let mut i: usize = 0;
    while i < n
        invariant
            n == s@.len(),
            i <= n,
            all_dec_digits(s@.take(i as int)),
            acc as int == dec_value(s@.take(i as int)),
        decreases n - i,
    {
        let c = s.get_char(i);
        if !('0' <= c && c <= '9') {
            proof {
                assert(!is_dec_digit(s@[i as int]));
            }
            return None;
        }
        let d: u32 = c as u32 - 48;
        let wide: u128 = (acc as u128) * 10 + (d as u128);
        proof {
            assert(s@.take(i + 1).drop_last() =~= s@.take(i as int));
            assert(s@.take(i + 1).last() == s@[i as int]);
            assert(d as int == s@[i as int] as int - '0' as int);
            assert(dec_value(s@.take(i + 1)) == wide as int);
        }
        if wide > u64::MAX as u128 {
            proof {
                if all_dec_digits(s@) {
                    lemma_dec_value_prefix_le(s@, i + 1);
                }
            }
            return None;
        }
        acc = wide as u64;
        i += 1;
    }
    proof {
        assert(s@.take(n as int) =~= s@);
    }
    Some(acc)
}

/// The chunk budget a configuration setting calls for: the default when the
/// setting is absent (empty), else the setting read as a byte count.
pub fn chunk_budget_from_setting(s: &str) -> (r: Option<u64>)
    ensures
        match r {
            Some(v) => (s@.len() == 0 && v == DEFAULT_CHUNK_BUDGET) || (s@.len() > 0
                && all_dec_digits(s@) && v as int == dec_value(s@)),
            None => s@.len() > 0 && (!all_dec_digits(s@) || dec_value(s@) > u64::MAX),
        },
{
    let n = s.unicode_len();
    if n == 0 {
        Some(DEFAULT_CHUNK_BUDGET)
    } else {
        parse_u64(s)
    }
}

} // verus!
