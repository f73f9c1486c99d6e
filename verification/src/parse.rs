use vstd::prelude::*;

verus! {

/// ASCII whitespace, as stripped from both ends of a sysfs value before
/// parsing (sysfs values end in a newline).
pub open spec fn is_ws(b: u8) -> bool {
    b == 32 || b == 9 || b == 10 || b == 13 || b == 11 || b == 12
}

/// An ASCII decimal digit.
pub open spec fn is_digit(b: u8) -> bool {
    48 <= b <= 57
}

pub open spec fn all_digits(s: Seq<u8>) -> bool {
    forall|i: int| 0 <= i < s.len() ==> is_digit(#[trigger] s[i])
}

/// The number a sequence of decimal digits denotes.
pub open spec fn digits_val(s: Seq<u8>) -> int
    decreases s.len(),
{
    if s.len() == 0 {
        0
    } else {
        digits_val(s.drop_last()) * 10 + (s.last() - 48)
    }
}

/// The sequence with leading ASCII whitespace removed.
pub open spec fn trim_front(s: Seq<u8>) -> Seq<u8>
    decreases s.len(),
{
    if s.len() > 0 && is_ws(s.first()) {
        trim_front(s.drop_first())
    } else {
        s
    }
}

/// The sequence with trailing ASCII whitespace removed.
pub open spec fn trim_back(s: Seq<u8>) -> Seq<u8>
    decreases s.len(),
{
    if s.len() > 0 && is_ws(s.last()) {
        trim_back(s.drop_last())
    } else {
        s
    }
}

/// The sequence with ASCII whitespace removed from both ends.
pub open spec fn trimmed(s: Seq<u8>) -> Seq<u8> {
    trim_back(trim_front(s))
}

/// Whether a byte string is a well-formed sysfs integer value: after
/// trimming, a non-empty run of decimal digits whose value fits the device's
/// integer width.
pub open spec fn valid_sys_value(s: Seq<u8>) -> bool {
    &&& trimmed(s).len() > 0
    &&& all_digits(trimmed(s))
    &&& digits_val(trimmed(s)) <= i32::MAX
}

proof fn lemma_trim_front_is_subrange(s: Seq<u8>, k: int)
    requires
        0 <= k <= s.len(),
        forall|j: int| 0 <= j < k ==> is_ws(#[trigger] s[j]),
        k < s.len() ==> !is_ws(s[k]),
    ensures
        trim_front(s) == s.subrange(k, s.len() as int),
    decreases k,
{
    if k == 0 {
        assert(s.subrange(0, s.len() as int) =~= s);
    } else {
        let t = s.drop_first();
        assert(t =~= s.subrange(1, s.len() as int));
        lemma_trim_front_is_subrange(t, k - 1);
        assert(t.subrange(k - 1, t.len() as int) =~= s.subrange(k, s.len() as int));
    }
}

proof fn lemma_trim_back_is_subrange(s: Seq<u8>, k: int)
    requires
        0 <= k <= s.len(),
        forall|j: int| k <= j < s.len() ==> is_ws(#[trigger] s[j]),
        k > 0 ==> !is_ws(s[k - 1]),
    ensures
        trim_back(s) == s.subrange(0, k),
    decreases s.len() - k,
{
    if k == s.len() {
        assert(s.subrange(0, k) =~= s);
        if s.len() > 0 {
            assert(!is_ws(s.last()));
        }
    } else {
        let t = s.drop_last();
        assert(is_ws(s.last()));
        assert(t =~= s.subrange(0, s.len() - 1));
        lemma_trim_back_is_subrange(t, k);
        assert(t.subrange(0, k) =~= s.subrange(0, k));
    }
}

/// Digit strings denote non-negative numbers.
proof fn lemma_digits_val_nonneg(s: Seq<u8>)
    requires
        all_digits(s),
    ensures
        digits_val(s) >= 0,
    decreases s.len(),
{
    if s.len() > 0 {
        assert(all_digits(s.drop_last()));
        lemma_digits_val_nonneg(s.drop_last());
    }
}

/// Extending a digit string to the right never shrinks its value.
proof fn lemma_digits_val_prefix_le(s: Seq<u8>, k: int)
    requires
        all_digits(s),
        0 <= k <= s.len(),
    ensures
        digits_val(s.subrange(0, k)) <= digits_val(s),
    decreases s.len() - k,
{
    if k == s.len() {
        assert(s.subrange(0, k) =~= s);
    } else {
        let t = s.subrange(0, k + 1);
        assert(all_digits(t));
        assert(t.drop_last() =~= s.subrange(0, k));
        lemma_digits_val_nonneg(t.drop_last());
        assert(digits_val(t) == digits_val(s.subrange(0, k)) * 10 + (t.last() - 48));
        assert(digits_val(s.subrange(0, k)) * 10 >= digits_val(s.subrange(0, k))) by (nonlinear_arith)
            requires
                digits_val(s.subrange(0, k)) >= 0,
        ;
        lemma_digits_val_prefix_le(s, k + 1);
    }
}

/// Parses the decimal value a sysfs file holds: the byte string is trimmed
/// of surrounding ASCII whitespace and read as a non-negative decimal
/// number. Returns the value exactly when the trimmed string is a non-empty
/// run of digits whose value fits; returns nothing on an empty value, a
/// stray non-digit byte, or overflow.
pub fn parse_sys_value(s: &[u8]) -> (r: Option<i32>)
    ensures
        r is Some <==> valid_sys_value(s@),
        r matches Some(v) ==> v == digits_val(trimmed(s@)),
{
    let n: usize = s.len();
    let mut lo: usize = 0;
    while lo < n && is_ws_exec(s[lo])
        invariant
            0 <= lo <= n,
            n == s@.len(),
            forall|j: int| 0 <= j < lo ==> is_ws(#[trigger] s@[j]),
        decreases n - lo,
    {
        lo = lo + 1;
    }
    proof {
        lemma_trim_front_is_subrange(s@, lo as int);
    }
    let mut hi: usize = n;
    while hi > lo && is_ws_exec(s[hi - 1])
        invariant
            lo <= hi <= n,
            n == s@.len(),
            forall|j: int| hi <= j < n ==> is_ws(#[trigger] s@[j]),
        decreases hi,
    {
        hi = hi - 1;
    }
    proof {
        let front = s@.subrange(lo as int, n as int);
        lemma_trim_back_is_subrange(front, hi - lo);
        assert(front.subrange(0, hi - lo) =~= s@.subrange(lo as int, hi as int));
        assert(trimmed(s@) == s@.subrange(lo as int, hi as int));
    }
    if hi == lo {
        assert(trimmed(s@).len() == 0);
        return None;
    }
    let ghost t = trimmed(s@);
    let mut val: i32 = 0;
    let mut i: usize = lo;
    while i < hi
        invariant
            lo <= i <= hi <= n,
            n == s@.len(),
            t == s@.subrange(lo as int, hi as int),
            t == trimmed(s@),
            forall|j: int| lo <= j < i ==> is_digit(#[trigger] s@[j]),
            0 <= val <= i32::MAX,
            val == digits_val(s@.subrange(lo as int, i as int)),
        decreases hi - i,
    {
        let b: u8 = s[i];
        if b < 48 || b > 57 {
            assert(!is_digit(t[i - lo]));
            return None;
        }
        let d: i32 = (b - 48) as i32;
        proof {
            assert(s@.subrange(lo as int, i + 1).drop_last() =~= s@.subrange(lo as int, i as int));
        }
        if val > (i32::MAX - d) / 10 {
            proof {
                let p = s@.subrange(lo as int, i + 1);
                assert(digits_val(p) == val * 10 + d);
                assert(val * 10 >= ((i32::MAX - d) / 10 + 1) * 10) by (nonlinear_arith)
                    requires
                        val >= (i32::MAX - d) / 10 + 1,
                ;
                vstd::arithmetic::div_mod::lemma_fundamental_div_mod(i32::MAX - d, 10);
                vstd::arithmetic::div_mod::lemma_mod_bound(i32::MAX - d, 10);
                if all_digits(t) {
                    assert(p =~= t.subrange(0, i + 1 - lo));
                    lemma_digits_val_prefix_le(t, i + 1 - lo);
                }
            }
            return None;
        }
        proof {
            vstd::arithmetic::div_mod::lemma_fundamental_div_mod(i32::MAX - d, 10);
            vstd::arithmetic::div_mod::lemma_mod_bound(i32::MAX - d, 10);
            assert(val * 10 <= ((i32::MAX - d) / 10) * 10) by (nonlinear_arith)
                requires
                    0 <= val <= (i32::MAX - d) / 10,
            ;
        }
        val = val * 10 + d;
        i = i + 1;
    }
    proof {
        assert(s@.subrange(lo as int, i as int) =~= t);
        lemma_digits_val_nonneg(t);
    }
    Some(val)
}

/// Executable twin of `is_ws`.
fn is_ws_exec(b: u8) -> (r: bool)
    ensures
        r == is_ws(b),
{
    b == 32 || b == 9 || b == 10 || b == 13 || b == 11 || b == 12
}

} // verus!
