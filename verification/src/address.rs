//! Address matching.
//!
//! A control address is a hierarchical string. A leaf address is matched by
//! exact equality. An array address is a registered base address followed by
//! `/` and a positive 1-based index written in canonical decimal (digits
//! only, no leading zero); it routes a message to one sub-store of a grid.

use vstd::prelude::*;

verus! {

/// Whether `c` is a decimal digit.
pub open spec fn is_dec_digit(c: char) -> bool {
    48 <= c as u32 && c as u32 <= 57
}

/// The value of the decimal digit `c`.
pub open spec fn digit_val(c: char) -> int {
    c as u32 - 48
}

/// Whether every character of `s` is a decimal digit.
pub open spec fn all_dec_digits(s: Seq<char>) -> bool {
    forall|i: int| 0 <= i < s.len() ==> is_dec_digit(s[i])
}

/// The number written in decimal as `s`, most significant digit first.
pub open spec fn dec_value(s: Seq<char>) -> int
    decreases s.len(),
{
    if s.len() == 0 {
        0
    } else {
        dec_value(s.drop_last()) * 10 + digit_val(s.last())
    }
}

/// Whether `s` is a canonical positive decimal numeral: nonempty, digits
/// only, and no leading zero.
pub open spec fn is_canonical_index(s: Seq<char>) -> bool {
    s.len() >= 1 && all_dec_digits(s) && digit_val(s[0]) >= 1
}

/// The array-address grammar: if `addr` is exactly `base` followed by `/` and
/// a canonical positive decimal numeral, the value of that numeral; `None`
/// otherwise.
pub open spec fn array_suffix(base: Seq<char>, addr: Seq<char>) -> Option<int> {
    if addr.len() >= base.len() + 2 && addr.subrange(0, base.len() as int) == base && addr[base.len() as int]
        == '/' && is_canonical_index(addr.subrange(base.len() as int + 1, addr.len() as int)) {
        Some(dec_value(addr.subrange(base.len() as int + 1, addr.len() as int)))
    } else {
        None
    }
}

/// The value of a digit sequence is nonnegative.
proof fn lemma_dec_value_nonneg(s: Seq<char>)
    requires
        all_dec_digits(s),
    ensures
        dec_value(s) >= 0,
    decreases s.len(),
{
    if s.len() > 0 {
        assert(all_dec_digits(s.drop_last()));
        lemma_dec_value_nonneg(s.drop_last());
    }
}

/// Reading further digits never decreases the value of a numeral.
proof fn lemma_dec_value_prefix_le(s: Seq<char>, k: int)
    requires
        all_dec_digits(s),
        0 <= k <= s.len(),
    ensures
        dec_value(s.subrange(0, k)) <= dec_value(s),
    decreases s.len() - k,
{
    if k == s.len() {
        assert(s.subrange(0, k) =~= s);
    } else {
        lemma_dec_value_prefix_le(s, k + 1);
        let p = s.subrange(0, k + 1);
        assert(all_dec_digits(p));
        assert(p.drop_last() =~= s.subrange(0, k));
        lemma_dec_value_nonneg(p.drop_last());
        assert(dec_value(s.subrange(0, k)) <= dec_value(p));
    }
}

/// An address resolves to at most one base: two bases that both match it
/// under the array-address grammar are the same string, because the grammar
/// pins the separator position and a separator is never a digit.
pub proof fn lemma_array_base_unique(b1: Seq<char>, b2: Seq<char>, a: Seq<char>)
    requires
        array_suffix(b1, a) is Some,
        array_suffix(b2, a) is Some,
    ensures
        b1 == b2,
{
    lemma_array_base_not_shorter(b1, b2, a);
    lemma_array_base_not_shorter(b2, b1, a);
    assert(b1.len() == b2.len());
    assert(b1 == a.subrange(0, b1.len() as int));
    assert(b2 == a.subrange(0, b2.len() as int));
}

/// A matching base is never shorter than another matching base: the longer
/// base's separator would have to stand among the shorter base's digits.
proof fn lemma_array_base_not_shorter(lo: Seq<char>, hi: Seq<char>, a: Seq<char>)
    requires
        array_suffix(lo, a) is Some,
        array_suffix(hi, a) is Some,
    ensures
        lo.len() >= hi.len(),
{
    if lo.len() < hi.len() {
        let numeral = a.subrange(lo.len() as int + 1, a.len() as int);
        assert(is_canonical_index(numeral));
        assert(numeral[hi.len() as int - lo.len() as int - 1] == a[hi.len() as int]);
        assert(is_dec_digit(a[hi.len() as int]));
        assert(a[hi.len() as int] == '/');
        assert(('/' as u32) == 47);
        assert(false);
    }
}

/// Exact string equality, the leaf-address match.
pub fn str_eq(a: &str, b: &str) -> (r: bool)
    ensures
        r == (a@ == b@),
{
    let a_len = a.unicode_len();
    let b_len = b.unicode_len();
    if a_len != b_len {
        return false;
    }
    let mut i: usize = 0;
    while i < a_len
        invariant
            i <= a_len,
            a_len == a@.len(),
            a_len == b@.len(),
            forall|j: int| 0 <= j < i ==> a@[j] == b@[j],
        decreases a_len - i,
    {
        if a.get_char(i) != b.get_char(i) {
            return false;
        }
        i = i + 1;
    }
    proof {
        assert(a@ =~= b@);
    }
    true
}

/// Whether `addr` matches the array-address grammar for `base` at all,
/// whatever the index's value.
#[verifier::loop_isolation(false)]
pub fn matches_array_grammar(base: &str, addr: &str) -> (r: bool)
    ensures
        r == (array_suffix(base@, addr@) is Some),
{
    let base_len = base.unicode_len();
    let addr_len = addr.unicode_len();
    if addr_len <= base_len {
        return false;
    }
    if addr_len - base_len < 2 {
        return false;
    }
    let mut i: usize = 0;
    while i < base_len
        invariant
            i <= base_len,
            forall|j: int| 0 <= j < i ==> addr@[j] == base@[j],
        decreases base_len - i,
    {
        if addr.get_char(i) != base.get_char(i) {
            proof {
                assert(addr@.subrange(0, base@.len() as int)[i as int] == addr@[i as int]);
            }
            return false;
        }
        i = i + 1;
    }
    proof {
        assert(addr@.subrange(0, base@.len() as int) =~= base@);
    }
    if addr.get_char(base_len) != '/' {
        return false;
    }
    let ghost numeral = addr@.subrange(base@.len() as int + 1, addr@.len() as int);
    let first_code = addr.get_char(base_len + 1) as u32;
    if first_code < 49 || first_code > 57 {
        proof {
            assert(numeral[0] == addr@[base@.len() as int + 1]);
        }
        return false;
    }
    let mut j: usize = base_len + 2;
    while j < addr_len
        invariant
            base_len + 2 <= j <= addr_len,
            forall|k: int| base_len + 2 <= k < j ==> is_dec_digit(addr@[k]),
        decreases addr_len - j,
    {
        let code = addr.get_char(j) as u32;
        if code < 48 || code > 57 {
            proof {
                assert(numeral[j as int - base@.len() as int - 1] == addr@[j as int]);
            }
            return false;
        }
        j = j + 1;
    }
    proof {
        assert(digit_val(numeral[0]) >= 1);
        assert forall|k: int| 0 <= k < numeral.len() implies is_dec_digit(numeral[k]) by {
            assert(numeral[k] == addr@[base@.len() as int + 1 + k]);
            if k == 0 {
            } else {
                assert(is_dec_digit(addr@[base@.len() as int + 1 + k]));
            }
        }
        assert(is_canonical_index(numeral));
    }
    true
}

/// Matches `addr` against the array-address grammar for `base` and accepts
/// only indices between 1 and `cap`: returns the index when `addr` is
/// `base/N` with `1 <= N <= cap`, and `None` otherwise (in particular when
/// the numeral is valid but names no sub-store).
#[verifier::loop_isolation(false)]
pub fn array_index_within(base: &str, addr: &str, cap: usize) -> (r: Option<usize>)
    ensures
        match r {
            Some(i) => array_suffix(base@, addr@) == Some(i as int) && 1 <= i <= cap,
            None => !(exists|v: int|
                array_suffix(base@, addr@) == Some(v) && 1 <= v <= cap),
        },
{
    let base_len = base.unicode_len();
    let addr_len = addr.unicode_len();
    if addr_len <= base_len {
        return None;
    }
    if addr_len - base_len < 2 {
        return None;
    }
    let mut i: usize = 0;
    while i < base_len
        invariant
            i <= base_len,
            base_len == base@.len(),
            addr_len == addr@.len(),
            addr_len >= base_len + 2,
            forall|j: int| 0 <= j < i ==> addr@[j] == base@[j],
        decreases base_len - i,
    {
        if addr.get_char(i) != base.get_char(i) {
            proof {
                assert(addr@.subrange(0, base@.len() as int)[i as int] == addr@[i as int]);
            }
            return None;
        }
        i = i + 1;
    }
    proof {
        assert(addr@.subrange(0, base@.len() as int) =~= base@);
    }
    if addr.get_char(base_len) != '/' {
        return None;
    }
    let ghost numeral = addr@.subrange(base@.len() as int + 1, addr@.len() as int);
    let first = addr.get_char(base_len + 1);
    let first_code = first as u32;
    if first_code < 49 || first_code > 57 {
        proof {
            assert(numeral[0] == addr@[base@.len() as int + 1]);
        }
        return None;
    }
    let mut acc: u128 = (first_code - 48) as u128;
    let mut j: usize = base_len + 2;
    proof {
        let p = addr@.subrange(base@.len() as int + 1, base_len as int + 2);
        assert(p =~= seq![addr@[base@.len() as int + 1]]);
        assert(p.drop_last() =~= Seq::<char>::empty());
        assert(p.last() == addr@[base@.len() as int + 1]);
        assert(dec_value(Seq::<char>::empty()) == 0);
        assert(p.len() == 1);
        assert(dec_value(p) == dec_value(p.drop_last()) * 10 + digit_val(p.last()));
        assert(dec_value(p) == digit_val(addr@[base@.len() as int + 1]));
        assert(is_canonical_index(p));
    }
    if acc > cap as u128 {
        proof {
            if array_suffix(base@, addr@) matches Some(v) {
                assert(numeral.subrange(0, 1) =~= addr@.subrange(
                    base@.len() as int + 1,
                    base_len as int + 2,
                ));
                lemma_dec_value_prefix_le(numeral, 1);
            }
        }
        return None;
    }
    while j < addr_len
        invariant
            base_len + 2 <= j <= addr_len,
            base_len == base@.len(),
            addr_len == addr@.len(),
            addr_len >= base_len + 2,
            addr@[base@.len() as int] == '/',
            addr@.subrange(0, base@.len() as int) == base@,
            is_canonical_index(addr@.subrange(base@.len() as int + 1, j as int)),
            acc == dec_value(addr@.subrange(base@.len() as int + 1, j as int)),
            acc <= cap,
            1 <= acc,
        decreases addr_len - j,
    {
        let c = addr.get_char(j);
        let code = c as u32;
        if code < 48 || code > 57 {
            proof {
                assert(numeral[j as int - base@.len() as int - 1] == addr@[j as int]);
            }
            return None;
        }
        let d = (code - 48) as u128;
        acc = acc * 10 + d;
        proof {
            let p = addr@.subrange(base@.len() as int + 1, j as int + 1);
            assert(p.drop_last() =~= addr@.subrange(base@.len() as int + 1, j as int));
            assert(p.last() == addr@[j as int]);
        }
        j = j + 1;
        if acc > cap as u128 {
            proof {
                if array_suffix(base@, addr@) matches Some(v) {
                    assert(all_dec_digits(numeral));
                    assert(numeral.subrange(0, j as int - base@.len() as int - 1) =~= addr@.subrange(
                        base@.len() as int + 1,
                        j as int,
                    ));
                    lemma_dec_value_prefix_le(numeral, j as int - base@.len() as int - 1);
                }
            }
            return None;
        }
    }
    proof {
        assert(addr@.subrange(base@.len() as int + 1, j as int) =~= numeral);
    }
    Some(acc as usize)
}

} // verus!
