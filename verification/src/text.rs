//! Decimal numerals as character sequences: spec-level meaning of digit
//! strings, verified parsing of `u32` values, and verified formatting of
//! `u32` values and of millihertz refresh rates with two decimal places.

use vstd::prelude::*;
use vstd::string::StrSliceExecFns;
use vstd::string::StringExecFns;

verus! {

/// A decimal digit `'0'..='9'`.
pub open spec fn is_digit(c: char) -> bool {
    48 <= c as int && c as int <= 57
}

/// Numeric value of a decimal digit character.
pub open spec fn digit_val(c: char) -> int {
    c as int - 48
}

/// The digit character for a value in `0..=9`.
pub open spec fn digit_char(d: int) -> char {
    if d == 0 {
        '0'
    } else if d == 1 {
        '1'
    } else if d == 2 {
        '2'
    } else if d == 3 {
        '3'
    } else if d == 4 {
        '4'
    } else if d == 5 {
        '5'
    } else if d == 6 {
        '6'
    } else if d == 7 {
        '7'
    } else if d == 8 {
        '8'
    } else {
        '9'
    }
}

/// Every character of `s` is a decimal digit.
pub open spec fn all_digits(s: Seq<char>) -> bool {
    forall|i: int| 0 <= i < s.len() ==> is_digit(#[trigger] s[i])
}

/// The value of a digit string read as a base-10 numeral (0 for the empty
/// string).
pub open spec fn digits_value(s: Seq<char>) -> int
    decreases s.len(),
{
    if s.len() == 0 {
        0
    } else {
        digits_value(s.drop_last()) * 10 + digit_val(s.last())
    }
}

/// The canonical base-10 numeral of `n`: no leading zeros, except that 0
/// itself is written `"0"`.
pub open spec fn numeral(n: nat) -> Seq<char>
    decreases n,
{
    if n < 10 {
        seq![digit_char(n as int)]
    } else {
        numeral(n / 10).push(digit_char((n % 10) as int))
    }
}

pub proof fn lemma_numeral_props(n: nat)
    ensures
        numeral(n).len() >= 1,
        all_digits(numeral(n)),
        digits_value(numeral(n)) == n,
    decreases n,
{
    if n < 10 {
        let s = numeral(n);
        assert(s.drop_last() =~= Seq::<char>::empty());
        assert(digits_value(Seq::<char>::empty()) == 0);
        assert(s.last() == digit_char(n as int));
        assert(digits_value(s) == digit_val(digit_char(n as int)));
    } else {
        lemma_numeral_props(n / 10);
        let m = numeral(n / 10);
        let c = digit_char((n % 10) as int);
        assert(m.push(c).drop_last() =~= m);
        assert(m.push(c).last() == c);
        assert(digits_value(numeral(n)) == digits_value(m) * 10 + digit_val(c));
        assert(forall|i: int|
            0 <= i < m.push(c).len() ==> is_digit(#[trigger] m.push(c)[i]));
    }
}

pub proof fn lemma_digits_value_nonneg(s: Seq<char>)
    requires
        all_digits(s),
    ensures
        digits_value(s) >= 0,
    decreases s.len(),
{
    if s.len() > 0 {
        assert(all_digits(s.drop_last()));
        lemma_digits_value_nonneg(s.drop_last());
    }
}

/// The value of a digit string is no less than the value of any of its
/// prefixes.
pub proof fn lemma_digits_value_prefix(s: Seq<char>, i: int)
    requires
        all_digits(s),
        0 <= i <= s.len(),
    ensures
        digits_value(s.subrange(0, i)) <= digits_value(s),
    decreases s.len() - i,
{
    if i < s.len() {
        let p = s.subrange(0, i);
        let q = s.subrange(0, i + 1);
        assert(all_digits(p));
        lemma_digits_value_nonneg(p);
        assert(q.drop_last() =~= p);
        assert(q.last() == s[i]);
        assert(digits_value(q) == digits_value(p) * 10 + digit_val(s[i]));
        lemma_digits_value_prefix(s, i + 1);
    } else {
        assert(s.subrange(0, i) =~= s);
    }
}

/// Parses `s[from..to]` as a base-10 `u32`: succeeds exactly when the range is
/// non-empty, holds only digits, and its value fits in a `u32`.
pub fn parse_u32_range(s: &str, from: usize, to: usize) -> (r: Option<u32>)
    requires
        from <= to <= s@.len(),
    ensures
        r is Some <==> (from < to && all_digits(s@.subrange(from as int, to as int))
            && digits_value(s@.subrange(from as int, to as int)) <= u32::MAX),
        r matches Some(v) ==> v as int == digits_value(s@.subrange(from as int, to as int)),
{
    let ghost whole = s@.subrange(from as int, to as int);
    if from == to {
        return None;
    }
    let mut acc: u64 = 0;
    let mut i: usize = from;
    while i < to
        invariant
            from <= i <= to <= s@.len(),
            whole == s@.subrange(from as int, to as int),
            all_digits(s@.subrange(from as int, i as int)),
            acc as int == digits_value(s@.subrange(from as int, i as int)),
            acc <= u32::MAX,
        decreases to - i,
    {
        let c = s.get_char(i);
        let u = c as u32;
        if u < 48 || u > 57 {
            proof {
                assert(whole[i - from] == s@[i as int]);
                assert(!is_digit(whole[i - from]));
            }
            return None;
        }
        let d: u64 = (u - 48) as u64;
        let next: u64 = acc * 10 + d;
        proof {
            let p = s@.subrange(from as int, i as int);
            let q = s@.subrange(from as int, i as int + 1);
            assert(q.drop_last() =~= p);
            assert(q.last() == s@[i as int]);
            assert(digit_val(s@[i as int]) == d);
            assert(digits_value(q) == digits_value(p) * 10 + d);
        }
        if next > u32::MAX as u64 {
            proof {
                if all_digits(whole) && digits_value(whole) <= u32::MAX {
                    lemma_digits_value_prefix(whole, i + 1 - from);
                    assert(whole.subrange(0, i + 1 - from) =~= s@.subrange(
                        from as int,
                        i as int + 1,
                    ));
                }
            }
            return None;
        }
        acc = next;
        i = i + 1;
    }
    proof {
        assert(s@.subrange(from as int, i as int) =~= whole);
    }
    Some(acc as u32)
}

/// The two-digit, zero-padded numeral of a value in `0..=99`.
pub open spec fn two_digits(n: int) -> Seq<char> {
    seq![digit_char(n / 10), digit_char(n % 10)]
}

/// A refresh rate in millihertz, rounded to the nearest centihertz
/// (half-up), as used when printing with two decimal places.
pub open spec fn rounded_centi(mhz: int) -> int {
    (mhz + 5) / 10
}

/// The two-decimal rendering of a refresh rate given in millihertz:
/// `"<int>.<2 digits>"`, rounded half-up to centihertz.
pub open spec fn refresh_2dp(mhz: int) -> Seq<char> {
    numeral((rounded_centi(mhz) / 100) as nat) + seq!['.'] + two_digits(rounded_centi(mhz) % 100)
}

/// `s` splits at position `k` into an integer part and a fractional part
/// around a decimal point.
pub open spec fn dot_split_at(s: Seq<char>, k: int) -> bool {
    &&& 0 <= k < s.len()
    &&& s.len() >= 2
    &&& s[k] == '.'
    &&& all_digits(s.subrange(0, k))
    &&& all_digits(s.subrange(k + 1, s.len() as int))
}

/// `s` is a plain decimal numeral: digits with at most one decimal point and
/// at least one digit.
pub open spec fn decimal_shape(s: Seq<char>) -> bool {
    (s.len() >= 1 && all_digits(s)) || (exists|k: int| dot_split_at(s, k))
}

/// Millihertz contributed by a fractional digit string: the first three
/// fractional digits scaled to thousandths, later digits ignored.
pub open spec fn frac_mhz(f: Seq<char>) -> int {
    if f.len() == 0 {
        0
    } else if f.len() == 1 {
        digit_val(f[0]) * 100
    } else if f.len() == 2 {
        digits_value(f) * 10
    } else {
        digits_value(f.subrange(0, 3))
    }
}

/// The value in millihertz of a decimal numeral.
pub open spec fn decimal_mhz(s: Seq<char>) -> int {
    if s.len() >= 1 && all_digits(s) {
        digits_value(s) * 1000
    } else {
        let k = choose|k: int| dot_split_at(s, k);
        digits_value(s.subrange(0, k)) * 1000 + frac_mhz(s.subrange(k + 1, s.len() as int))
    }
}

/// A decimal numeral has at most one decimal point.
pub proof fn lemma_dot_split_unique(s: Seq<char>, k1: int, k2: int)
    requires
        dot_split_at(s, k1),
        dot_split_at(s, k2),
    ensures
        k1 == k2,
{
    if k1 < k2 {
        assert(s.subrange(k1 + 1, s.len() as int)[k2 - k1 - 1] == s[k2]);
    } else if k2 < k1 {
        assert(s.subrange(k2 + 1, s.len() as int)[k1 - k2 - 1] == s[k1]);
    }
}

/// Finds the first occurrence of `c` in `s[from..to]`.
pub fn find_char_range(s: &str, c: char, from: usize, to: usize) -> (r: Option<usize>)
    requires
        from <= to <= s@.len(),
    ensures
        r matches Some(i) ==> from <= i < to && s@[i as int] == c && (forall|j: int|
            from <= j < i ==> s@[j] != c),
        r is None ==> forall|j: int| from <= j < to ==> s@[j] != c,
{
    let mut i: usize = from;
    while i < to
        invariant
            from <= i <= to <= s@.len(),
            forall|j: int| from <= j < i ==> s@[j] != c,
        decreases to - i,
    {
        if s.get_char(i) == c {
            return Some(i);
        }
        i = i + 1;
    }
    None
}

/// Reports whether every character of `s[from..to]` is a decimal digit.
pub fn all_digits_range(s: &str, from: usize, to: usize) -> (r: bool)
    requires
        from <= to <= s@.len(),
    ensures
        r == all_digits(s@.subrange(from as int, to as int)),
{
    let ghost sub = s@.subrange(from as int, to as int);
    let mut i: usize = from;
    while i < to
        invariant
            from <= i <= to <= s@.len(),
            sub == s@.subrange(from as int, to as int),
            forall|j: int| 0 <= j < i - from ==> is_digit(#[trigger] sub[j]),
        decreases to - i,
    {
        let c = s.get_char(i);
        let u = c as u32;
        proof {
            assert(sub[i - from] == s@[i as int]);
        }
        if u < 48 || u > 57 {
            return false;
        }
        i = i + 1;
    }
    true
}

/// Parses `s[from..to]` as a non-negative decimal number of hertz and returns
/// its value in millihertz, truncated past the third fractional digit:
/// succeeds exactly when the range is a decimal numeral whose millihertz
/// value fits in a `u32`.
pub fn parse_refresh_mhz_range(s: &str, from: usize, to: usize) -> (r: Option<u32>)
    requires
        from <= to <= s@.len(),
    ensures
        r is Some <==> (decimal_shape(s@.subrange(from as int, to as int)) && decimal_mhz(
            s@.subrange(from as int, to as int),
        ) <= u32::MAX),
        r matches Some(v) ==> v as int == decimal_mhz(s@.subrange(from as int, to as int)),
{
    let ghost sub = s@.subrange(from as int, to as int);
    let dot = find_char_range(s, '.', from, to);
    match dot {
        None => {
            proof {
                assert forall|k: int| !dot_split_at(sub, k) by {
                    if 0 <= k < sub.len() {
                        assert(sub[k] == s@[from + k]);
                    }
                }
            }
            let v = match parse_u32_range(s, from, to) {
                Some(v) => v,
                None => {
                    proof {
                        if from < to && all_digits(sub) {
                            // the digits overflow a u32; scaled to millihertz
                            // they overflow all the more
                            lemma_digits_value_nonneg(sub);
                        }
                    }
                    return None;
                },
            };
            if v > u32::MAX / 1000 {
                return None;
            }
            Some(v * 1000)
        },
        Some(k) => {
            proof {
                assert(sub[k - from] == s@[k as int]);
                assert(!(sub.len() >= 1 && all_digits(sub)));
            }
            let ghost kk = k - from;
            // a second decimal point makes the string no numeral
            if let Some(k2) = find_char_range(s, '.', k + 1, to) {
                proof {
                    assert(sub[k2 - from] == s@[k2 as int]);
                    assert forall|m: int| !dot_split_at(sub, m) by {
                        if dot_split_at(sub, m) {
                            if m < k2 - from {
                                assert(sub.subrange(m + 1, sub.len() as int)[k2 - from - m - 1]
                                    == sub[k2 - from]);
                            } else if m > k2 - from {
                                assert(sub.subrange(0, m)[k2 - from] == sub[k2 - from]);
                            } else {
                                assert(sub.subrange(0, m)[k - from] == sub[k - from]);
                            }
                        }
                    }
                }
                return None;
            }
            if to - from < 2 {
                proof {
                    assert forall|m: int| !dot_split_at(sub, m) by {}
                }
                return None;
            }
            // integer part
            if !all_digits_range(s, from, k) {
                proof {
                    assert forall|m: int| !dot_split_at(sub, m) by {
                        if dot_split_at(sub, m) {
                            if m < kk {
                                assert(sub.subrange(m + 1, sub.len() as int)[kk - m - 1]
                                    == sub[kk]);
                            } else if m > kk {
                                assert(sub.subrange(0, m)[kk] == sub[kk]);
                            } else {
                                assert(sub.subrange(0, m) =~= s@.subrange(from as int, k as int));
                            }
                        }
                    }
                }
                return None;
            }
            proof {
                assert(sub.subrange(0, kk) =~= s@.subrange(from as int, k as int));
            }
            let vl: u32 = if k == from {
                proof {
                    assert(s@.subrange(from as int, k as int) =~= Seq::<char>::empty());
                }
                0u32
            } else {
                match parse_u32_range(s, from, k) {
                    Some(v) => v,
                    None => {
                        // digits overflow a u32: the millihertz value is
                        // larger still, so the numeral is rejected
                        proof {
                            let f = sub.subrange(kk + 1, sub.len() as int);
                            assert(f =~= s@.subrange(k as int + 1, to as int));
                            if all_digits(f) {
                                assert(dot_split_at(sub, kk));
                                lemma_dot_split_unique_choose(sub, kk);
                                lemma_frac_mhz_nonneg(f);
                                lemma_digits_value_nonneg(s@.subrange(from as int, k as int));
                            }
                        }
                        return None;
                    },
                }
            };
            // fractional part
            let flen = to - (k + 1);
            if !all_digits_range(s, k + 1, to) {
                proof {
                    assert forall|m: int| !dot_split_at(sub, m) by {
                        if dot_split_at(sub, m) {
                            if m < kk {
                                assert(sub.subrange(m + 1, sub.len() as int)[kk - m - 1]
                                    == sub[kk]);
                            } else if m > kk {
                                assert(sub.subrange(0, m)[kk] == sub[kk]);
                            } else {
                                assert(sub.subrange(m + 1, sub.len() as int) =~= s@.subrange(
                                    k as int + 1,
                                    to as int,
                                ));
                            }
                        }
                    }
                }
                return None;
            }
            proof {
                assert(sub.subrange(kk + 1, sub.len() as int) =~= s@.subrange(
                    k as int + 1,
                    to as int,
                ));
                assert(dot_split_at(sub, kk));
                lemma_dot_split_unique_choose(sub, kk);
            }
            let ghost f = sub.subrange(kk + 1, sub.len() as int);
            let fr: u64 = if flen == 0 {
                0u64
            } else if flen == 1 {
                let d = match parse_u32_range(s, k + 1, to) {
                    Some(d) => d,
                    None => {
                        proof {
                            assert(f =~= s@.subrange(k as int + 1, to as int));
                            assert(f.drop_last() =~= Seq::<char>::empty());
                            assert(digits_value(Seq::<char>::empty()) == 0);
                            assert(digits_value(f) == digit_val(f[0]));
                        }
                        return None;  // unreachable: a single digit fits
                    },
                };
                proof {
                    assert(f =~= s@.subrange(k as int + 1, to as int));
                    assert(f.drop_last() =~= Seq::<char>::empty());
                    assert(digits_value(Seq::<char>::empty()) == 0);
                    assert(f.last() == f[0]);
                    assert(digits_value(f) == digit_val(f[0]));
                }
                (d as u64) * 100
            } else if flen == 2 {
                let d = match parse_u32_range(s, k + 1, to) {
                    Some(d) => d,
                    None => {
                        proof {
                            lemma_two_digit_value_bound(s@.subrange(k as int + 1, to as int));
                        }
                        return None;  // unreachable: two digits fit
                    },
                };
                proof {
                    assert(f =~= s@.subrange(k as int + 1, to as int));
                }
                (d as u64) * 10
            } else {
                let d = match parse_u32_range(s, k + 1, k + 4) {
                    Some(d) => d,
                    None => {
                        proof {
                            let g = s@.subrange(k as int + 1, k as int + 4);
                            assert(forall|j: int|
                                0 <= j < g.len() ==> g[j] == s@.subrange(
                                    k as int + 1,
                                    to as int,
                                )[j]);
                            lemma_three_digit_value_bound(g);
                        }
                        return None;  // unreachable: three digits fit
                    },
                };
                proof {
                    assert(f.subrange(0, 3) =~= s@.subrange(k as int + 1, k as int + 4));
                }
                d as u64
            };
            let total: u64 = (vl as u64) * 1000 + fr;
            if total > u32::MAX as u64 {
                return None;
            }
            Some(total as u32)
        },
    }
}

/// When `dot_split_at(s, k)` holds, the split position an observer picks is
/// exactly `k`.
pub proof fn lemma_dot_split_unique_choose(s: Seq<char>, k: int)
    requires
        dot_split_at(s, k),
    ensures
        (choose|m: int| dot_split_at(s, m)) == k,
{
    let m = choose|m: int| dot_split_at(s, m);
    assert(dot_split_at(s, m));
    lemma_dot_split_unique(s, m, k);
}

pub proof fn lemma_frac_mhz_nonneg(f: Seq<char>)
    requires
        all_digits(f),
    ensures
        frac_mhz(f) >= 0,
{
    if f.len() == 0 {
    } else if f.len() == 1 {
    } else if f.len() == 2 {
        lemma_digits_value_nonneg(f);
    } else {
        assert(all_digits(f.subrange(0, 3)));
        lemma_digits_value_nonneg(f.subrange(0, 3));
    }
}

proof fn lemma_two_digit_value_bound(f: Seq<char>)
    requires
        all_digits(f),
        f.len() == 2,
    ensures
        0 <= digits_value(f) <= 99,
{
    assert(f.drop_last() =~= seq![f[0]]);
    assert(seq![f[0]].drop_last() =~= Seq::<char>::empty());
    assert(digits_value(Seq::<char>::empty()) == 0);
    assert(seq![f[0]].last() == f[0]);
    assert(digits_value(seq![f[0]]) == digit_val(f[0]));
    assert(digits_value(f) == digit_val(f[0]) * 10 + digit_val(f[1]));
}

proof fn lemma_three_digit_value_bound(f: Seq<char>)
    requires
        all_digits(f),
        f.len() == 3,
    ensures
        0 <= digits_value(f) <= 999,
{
    lemma_two_digit_value_bound(f.drop_last());
    assert(digits_value(f) == digits_value(f.drop_last()) * 10 + digit_val(f[2]));
}

/// Appends the digit character for `d` to `s`.
pub fn append_digit(s: &mut String, d: u32)
    requires
        d < 10,
    ensures
        final(s)@ == old(s)@ + seq![digit_char(d as int)],
{
    if d == 0 {
        s.append("0");
        proof {
            reveal_strlit("0");
            assert(s@ =~= old(s)@ + seq![digit_char(d as int)]);
        }
    } else if d == 1 {
        s.append("1");
        proof {
            reveal_strlit("1");
            assert(s@ =~= old(s)@ + seq![digit_char(d as int)]);
        }
    } else if d == 2 {
        s.append("2");
        proof {
            reveal_strlit("2");
            assert(s@ =~= old(s)@ + seq![digit_char(d as int)]);
        }
    } else if d == 3 {
        s.append("3");
        proof {
            reveal_strlit("3");
            assert(s@ =~= old(s)@ + seq![digit_char(d as int)]);
        }
    } else if d == 4 {
        s.append("4");
        proof {
            reveal_strlit("4");
            assert(s@ =~= old(s)@ + seq![digit_char(d as int)]);
        }
    } else if d == 5 {
        s.append("5");
        proof {
            reveal_strlit("5");
            assert(s@ =~= old(s)@ + seq![digit_char(d as int)]);
        }
    } else if d == 6 {
        s.append("6");
        proof {
            reveal_strlit("6");
            assert(s@ =~= old(s)@ + seq![digit_char(d as int)]);
        }
    } else if d == 7 {
        s.append("7");
        proof {
            reveal_strlit("7");
            assert(s@ =~= old(s)@ + seq![digit_char(d as int)]);
        }
    } else if d == 8 {
        s.append("8");
        proof {
            reveal_strlit("8");
            assert(s@ =~= old(s)@ + seq![digit_char(d as int)]);
        }
    } else {
        s.append("9");
        proof {
            reveal_strlit("9");
            assert(s@ =~= old(s)@ + seq![digit_char(d as int)]);
        }
    }
}

/// Appends the canonical base-10 numeral of `n` to `s`.
pub fn append_u32(s: &mut String, n: u32)
    ensures
        final(s)@ == old(s)@ + numeral(n as nat),
    decreases n,
{
    if n < 10 {
        append_digit(s, n);
    } else {
        append_u32(s, n / 10);
        append_digit(s, n % 10);
        proof {
            assert(s@ =~= old(s)@ + numeral(n as nat));
        }
    }
}

pub proof fn lemma_two_digits_props(n: int)
    requires
        0 <= n < 100,
    ensures
        two_digits(n).len() == 2,
        all_digits(two_digits(n)),
        digits_value(two_digits(n)) == n,
{
    let t = two_digits(n);
    assert(t.drop_last() =~= seq![digit_char(n / 10)]);
    assert(seq![digit_char(n / 10)].drop_last() =~= Seq::<char>::empty());
    assert(digits_value(Seq::<char>::empty()) == 0);
    assert(digits_value(seq![digit_char(n / 10)]) == digit_val(digit_char(n / 10)));
    assert(digits_value(t) == digit_val(digit_char(n / 10)) * 10 + digit_val(digit_char(n % 10)));
}

/// The two-decimal rendering of a millihertz rate is a decimal numeral whose
/// millihertz value is the rate rounded to the nearest ten.
pub proof fn lemma_refresh_2dp_props(mhz: int)
    requires
        0 <= mhz,
    ensures
        refresh_2dp(mhz).len() >= 4,
        forall|k: int|
            0 <= k < refresh_2dp(mhz).len() ==> (is_digit(#[trigger] refresh_2dp(mhz)[k])
                || refresh_2dp(mhz)[k] == '.'),
        decimal_shape(refresh_2dp(mhz)),
        decimal_mhz(refresh_2dp(mhz)) == rounded_centi(mhz) * 10,
{
    let rc = rounded_centi(mhz);
    let ipart = numeral((rc / 100) as nat);
    lemma_numeral_props((rc / 100) as nat);
    lemma_two_digits_props(rc % 100);
    let s = refresh_2dp(mhz);
    let k = ipart.len() as int;
    assert(s.len() == k + 3);
    assert(s[k] == '.');
    assert(s.subrange(0, k) =~= ipart);
    assert(s.subrange(k + 1, s.len() as int) =~= two_digits(rc % 100));
    assert(dot_split_at(s, k));
    assert(!(s.len() >= 1 && all_digits(s)));
    lemma_dot_split_unique_choose(s, k);
    assert(frac_mhz(s.subrange(k + 1, s.len() as int)) == digits_value(two_digits(rc % 100)) * 10);
    assert(decimal_mhz(s) == (rc / 100) * 1000 + (rc % 100) * 10);
    assert((rc / 100) * 1000 + (rc % 100) * 10 == ((rc / 100) * 100 + rc % 100) * 10);
    assert forall|t: int| 0 <= t < s.len() implies (is_digit(#[trigger] s[t]) || s[t] == '.') by {
        if t < k {
            assert(s[t] == ipart[t]);
        } else if t > k {
            assert(s[t] == two_digits(rc % 100)[t - k - 1]);
        }
    }
}

/// Appends the two-decimal rendering of a refresh rate in millihertz.
pub fn append_refresh_2dp(s: &mut String, mhz: u32)
    ensures
        final(s)@ == old(s)@ + refresh_2dp(mhz as int),
{
    let c64: u64 = ((mhz as u64) + 5) / 10;
    let ip: u32 = (c64 / 100) as u32;
    let fr: u32 = (c64 % 100) as u32;
    append_u32(s, ip);
    s.append(".");
    proof {
        reveal_strlit(".");
        assert("."@ =~= seq!['.']);
    }
    append_digit(s, fr / 10);
    append_digit(s, fr % 10);
    proof {
        assert(ip as int == rounded_centi(mhz as int) / 100);
        assert(fr as int == rounded_centi(mhz as int) % 100);
        assert(s@ =~= old(s)@ + refresh_2dp(mhz as int));
    }
}

} // verus!
