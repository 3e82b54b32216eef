//! The shape of revision identifiers.
//!
//! The engine renders every revision as `<index>-<digest>` or
//! `<index>-<digest>_<tail>`: a decimal numeral that fits a 32-bit unsigned
//! integer, one dash, then word characters. Feeding it a string outside this
//! shape aborts the process inside the engine's parser, so the tool checks the
//! shape up front and reports a classified error instead.

use vstd::prelude::*;

verus! {

/// An ASCII decimal digit.
pub open spec fn is_digit_char(c: char) -> bool {
    '0' as u32 <= c as u32 && c as u32 <= '9' as u32
}

/// A word character: digit, ASCII letter, or underscore.
pub open spec fn is_word_char(c: char) -> bool {
    ||| is_digit_char(c)
    ||| 'a' as u32 <= c as u32 && c as u32 <= 'z' as u32
    ||| 'A' as u32 <= c as u32 && c as u32 <= 'Z' as u32
    ||| c == '_'
}

/// Numeric value of a sequence of decimal digit characters.
pub open spec fn digits_value(s: Seq<char>) -> int
    decreases s.len(),
{
    if s.len() == 0 {
        0
    } else {
        digits_value(s.drop_last()) * 10 + (s.last() as u32 - '0' as u32)
    }
}

proof fn lemma_digits_value_nonneg(s: Seq<char>)
    requires
        forall|i: int| 0 <= i < s.len() ==> is_digit_char(#[trigger] s[i]),
    ensures
        digits_value(s) >= 0,
    decreases s.len(),
{
    if s.len() > 0 {
        lemma_digits_value_nonneg(s.drop_last());
    }
}

/// The split of a revision identifier at the position of its dash.
pub open spec fn rev_split_at(s: Seq<char>, k: int) -> bool {
    &&& 1 <= k
    &&& k + 1 < s.len()
    &&& s[k] == '-'
    &&& forall|i: int| 0 <= i < k ==> is_digit_char(#[trigger] s[i])
    &&& forall|i: int| k < i < s.len() ==> is_word_char(#[trigger] s[i])
    &&& digits_value(s.subrange(0, k)) <= u32::MAX as int
}

/// A well-formed revision identifier.
pub open spec fn is_revision_id(s: Seq<char>) -> bool {
    exists|k: int| rev_split_at(s, k)
}

fn is_digit(c: char) -> (b: bool)
    ensures
        b == is_digit_char(c),
{
    c as u32 >= '0' as u32 && c as u32 <= '9' as u32
}

fn is_word(c: char) -> (b: bool)
    ensures
        b == is_word_char(c),
{
    is_digit(c) || (c as u32 >= 'a' as u32 && c as u32 <= 'z' as u32)
        || (c as u32 >= 'A' as u32 && c as u32 <= 'Z' as u32) || c == '_'
}

/// Decides whether `s` is a well-formed revision identifier.
pub fn check_revision_id(s: &String) -> (b: bool)
    ensures
        b == is_revision_id(s@),
{
    let st = s.as_str();
    let n = st.unicode_len();
    // Scan the leading digit run, tracking its numeric value with a saturation
    // flag so oversized indexes are still classified exactly.
    let mut k: usize = 0;
    let mut val: u64 = 0;
    let mut over: bool = false;
    while k < n && is_digit(st.get_char(k))
        invariant
            0 <= k <= n,
            n == s@.len(),
            st@ == s@,
            forall|i: int| 0 <= i < k ==> is_digit_char(#[trigger] s@[i]),
            !over ==> val as int == digits_value(s@.subrange(0, k as int)) && val <= u32::MAX
                as u64,
            over ==> digits_value(s@.subrange(0, k as int)) > u32::MAX as int,
        decreases n - k,
    {
        let c = st.get_char(k);
        let d = (c as u32 - '0' as u32) as u64;
        proof {
            assert(s@.subrange(0, k + 1).drop_last() =~= s@.subrange(0, k as int));
            assert(s@.subrange(0, k + 1).last() == s@[k as int]);
            if over {
                lemma_digits_value_nonneg(s@.subrange(0, k as int));
            }
        }
        if !over {
            let nv = val * 10 + d;
            if nv > u32::MAX as u64 {
                over = true;
            } else {
                val = nv;
            }
        }
        k = k + 1;
    }
    if k < 1 || k >= n || over {
        proof {
            if k < n {
                assert(!is_digit_char(s@[k as int]));
            }
            assert forall|j: int| rev_split_at(s@, j) implies false by {
                if k < n && !is_digit_char(s@[k as int]) {
                    // The dash of any split must sit exactly at the scan's stop.
                    if j < k {
                        assert(is_digit_char(s@[j]));
                    } else if j > k {
                        assert(is_digit_char(s@[k as int]));
                    }
                    assert(j == k);
                } else {
                    // The whole string is digits: no dash position exists.
                    assert(is_digit_char(s@[j]));
                }
            }
        }
        return false;
    }
    let dash = st.get_char(k);
    if !(dash as u32 == '-' as u32) {
        proof {
            assert(s@[k as int] != '-');
            assert forall|j: int| rev_split_at(s@, j) implies false by {
                if j < k {
                    assert(is_digit_char(s@[j]));
                } else if j > k {
                    assert(is_digit_char(s@[k as int]));
                }
            }
        }
        return false;
    }
    if k + 1 >= n {
        proof {
            assert forall|j: int| rev_split_at(s@, j) implies false by {
                if j < k {
                    assert(is_digit_char(s@[j]));
                } else if j > k {
                    assert(is_digit_char(s@[k as int]));
                }
            }
        }
        return false;
    }
    // Scan the digest and tail region.
    let mut j: usize = k + 1;
    while j < n
        invariant
            k + 1 <= j <= n,
            n == s@.len(),
            st@ == s@,
            k + 1 < n,
            s@[k as int] == '-',
            forall|i: int| 0 <= i < k ==> is_digit_char(#[trigger] s@[i]),
            forall|i: int| k < i < j ==> is_word_char(#[trigger] s@[i]),
            val as int == digits_value(s@.subrange(0, k as int)),
            val <= u32::MAX as u64,
        decreases n - j,
    {
        if !is_word(st.get_char(j)) {
            proof {
                assert(!is_word_char(s@[j as int]));
                assert forall|m: int| rev_split_at(s@, m) implies false by {
                    if m < k {
                        assert(is_digit_char(s@[m]));
                    } else if m > k {
                        assert(is_digit_char(s@[k as int]));
                    }
                    // m == k, so position j lies in the word region of the split.
                    assert(is_word_char(s@[j as int]));
                }
            }
            return false;
        }
        j = j + 1;
    }
    proof {
        assert(rev_split_at(s@, k as int));
    }
    true
}

} // verus!
