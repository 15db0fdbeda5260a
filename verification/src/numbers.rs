use vstd::prelude::*;

verus! {

/// `c` is an ASCII decimal digit.
pub open spec fn is_digit(c: char) -> bool {
    48 <= c as u32 && c as u32 <= 57
}

/// The numeric value of a digit character.
pub open spec fn digit_val(c: char) -> int {
    c as u32 - 48
}

/// Every character of `s` is an ASCII decimal digit.
pub open spec fn all_digits(s: Seq<char>) -> bool {
    forall|i: int| 0 <= i < s.len() ==> is_digit(s[i])
}

/// The value of `s` read as a base-10 numeral.
pub open spec fn digits_val(s: Seq<char>) -> int
    decreases s.len(),
{
    if s.len() == 0 {
        0
    } else {
        10 * digits_val(s.drop_last()) + digit_val(s.last())
    }
}

/// Ten to the `k`-th power.
pub open spec fn pow10(k: nat) -> int
    decreases k,
{
    if k == 0 {
        1
    } else {
        10 * pow10((k - 1) as nat)
    }
}

pub proof fn lemma_digits_val_nonneg(s: Seq<char>)
    requires
        all_digits(s),
    ensures
        digits_val(s) >= 0,
    decreases s.len(),
{
    if s.len() > 0 {
        assert(all_digits(s.drop_last()));
        lemma_digits_val_nonneg(s.drop_last());
    }
}

/// A numeral is at least as large as any of its prefixes.
pub proof fn lemma_digits_val_prefix_le(s: Seq<char>, i: int)
    requires
        all_digits(s),
        0 <= i <= s.len(),
    ensures
        digits_val(s) >= digits_val(s.subrange(0, i)),
    decreases s.len(),
{
    if i == s.len() {
        assert(s.subrange(0, i) =~= s);
    } else {
        let dl = s.drop_last();
        assert(all_digits(dl));
        lemma_digits_val_prefix_le(dl, i);
        assert(dl.subrange(0, i) =~= s.subrange(0, i));
        lemma_digits_val_nonneg(dl);
    }
}

/// A numeral of `k` digits is below ten to the `k`.
pub proof fn lemma_digits_val_upper(s: Seq<char>)
    requires
        all_digits(s),
    ensures
        digits_val(s) < pow10(s.len()),
    decreases s.len(),
{
    if s.len() > 0 {
        let dl = s.drop_last();
        assert(all_digits(dl));
        lemma_digits_val_upper(dl);
        assert(digit_val(s.last()) <= 9);
    }
}

/// The value of `s` when every character is a digit and the value fits in
/// a machine word; `None` on an empty string, a stray character, or a value
/// too large.
pub open spec fn spec_parse_digits(s: Seq<char>) -> Option<u64> {
    if s.len() > 0 && all_digits(s) && digits_val(s) <= u64::MAX {
        Some(digits_val(s) as u64)
    } else {
        None
    }
}

pub fn parse_digits_u64(s: &str) -> (r: Option<u64>)
    ensures
        r == spec_parse_digits(s@),
{
    let n = s.unicode_len();
    if n == 0 {
        return None;
    }
    let mut acc: u64 = 0;
    let mut i: usize = 0;
    proof {
        assert(s@.subrange(0, 0) =~= Seq::<char>::empty());
    }
    while i < n
        invariant
            n == s@.len(),
            i <= n,
            all_digits(s@.subrange(0, i as int)),
            acc == digits_val(s@.subrange(0, i as int)),
        decreases n - i,
    {
        let c = s.get_char(i);
        let u = c as u32;
        if !(48 <= u && u <= 57) {
            assert(!is_digit(s@[i as int]));
            return None;
        }
        let d: u64 = (u - 48) as u64;
        let ghost pre = s@.subrange(0, i as int);
        let ghost pre1 = s@.subrange(0, i as int + 1);
        proof {
            assert(pre1.drop_last() =~= pre);
            assert(pre1.last() == s@[i as int]);
            assert(all_digits(pre1));
            assert(digits_val(pre1) == 10 * digits_val(pre) + digit_val(s@[i as int]));
        }
        let step = match acc.checked_mul(10) {
            Some(x) => x.checked_add(d),
            None => None,
        };
        match step {
            Some(v) => {
                acc = v;
            },
            None => {
                proof {
                    if all_digits(s@) {
                        lemma_digits_val_prefix_le(s@, i as int + 1);
                    }
                }
                return None;
            },
        }
        i += 1;
    }
    proof {
        assert(s@.subrange(0, n as int) =~= s@);
    }
    Some(acc)
}

/// The digits of an optionally signed numeral, the sign stripped.
pub open spec fn int_body(s: Seq<char>) -> Seq<char> {
    if s.len() > 0 && (s[0] == '+' || s[0] == '-') {
        s.skip(1)
    } else {
        s
    }
}

/// An optionally signed numeral carries a leading minus sign.
pub open spec fn int_negative(s: Seq<char>) -> bool {
    s.len() > 0 && s[0] == '-'
}

/// The value of `s` read exactly as `str::parse::<i64>` reads it: an
/// optional sign, then one or more digits, the value within range.
pub open spec fn spec_parse_i64(s: Seq<char>) -> Option<i64> {
    let b = int_body(s);
    if b.len() > 0 && all_digits(b) {
        let v = if int_negative(s) {
            -digits_val(b)
        } else {
            digits_val(b)
        };
        if i64::MIN <= v && v <= i64::MAX {
            Some(v as i64)
        } else {
            None
        }
    } else {
        None
    }
}

pub fn parse_i64(s: &str) -> (r: Option<i64>)
    ensures
        r == spec_parse_i64(s@),
{
    let n = s.unicode_len();
    if n == 0 {
        return None;
    }
    let c0 = s.get_char(0);
    let neg = c0 == '-';
    let start: usize = if c0 == '-' || c0 == '+' {
        1
    } else {
        0
    };
    let b = s.substring_char(start, n);
    proof {
        assert(b@ =~= int_body(s@));
    }
    let mag = match parse_digits_u64(b) {
        Some(m) => {
            proof {
                lemma_digits_val_nonneg(b@);
            }
            m
        },
        None => {
            proof {
                if b@.len() > 0 && all_digits(b@) {
                    lemma_digits_val_nonneg(b@);
                }
            }
            return None;
        },
    };
    if neg {
        if mag > 9223372036854775808u64 {
            return None;
        }
        if mag == 9223372036854775808u64 {
            return Some(i64::MIN);
        }
        Some(-(mag as i64))
    } else {
        if mag > 9223372036854775807u64 {
            return None;
        }
        Some(mag as i64)
    }
}

/// The value of `s` read exactly as `str::parse::<i32>` reads it.
pub open spec fn spec_parse_i32(s: Seq<char>) -> Option<i32> {
    match spec_parse_i64(s) {
        Some(v) => if i32::MIN <= v && v <= i32::MAX {
            Some(v as i32)
        } else {
            None
        },
        None => None,
    }
}

pub fn parse_i32(s: &str) -> (r: Option<i32>)
    ensures
        r == spec_parse_i32(s@),
{
    match parse_i64(s) {
        Some(v) => if -2147483648i64 <= v && v <= 2147483647i64 {
            Some(v as i32)
        } else {
            None
        },
        None => None,
    }
}

/// A non-negative decimal magnitude held exactly in units of one millionth,
/// together with its sign. Progress values carry at most microsecond
/// resolution, so this representation orders them as the decimals order.
#[derive(Clone, Copy, Debug, PartialEq, Eq, Structural)]
pub struct FixedMicro {
    pub negative: bool,
    pub micro: u64,
}

/// The position of the first occurrence of `c` in `s`, or -1 if absent.
pub open spec fn find_char(s: Seq<char>, c: char) -> int
    decreases s.len(),
{
    if s.len() == 0 {
        -1
    } else if s[0] == c {
        0
    } else if find_char(s.skip(1), c) == -1 {
        -1
    } else {
        1 + find_char(s.skip(1), c)
    }
}

pub proof fn lemma_find_char_first(s: Seq<char>, c: char)
    ensures
        find_char(s, c) == -1 <==> (forall|j: int| 0 <= j < s.len() ==> s[j] != c),
        find_char(s, c) != -1 ==> {
            let k = find_char(s, c);
            &&& 0 <= k < s.len()
            &&& s[k] == c
            &&& forall|j: int| 0 <= j < k ==> s[j] != c
        },
    decreases s.len(),
{
    if s.len() == 0 {
    } else if s[0] == c {
    } else {
        let t = s.skip(1);
        lemma_find_char_first(t, c);
        assert(forall|j: int| 1 <= j < s.len() ==> s[j] == t[j - 1]);
        if find_char(t, c) == -1 {
            assert forall|j: int| 0 <= j < s.len() implies s[j] != c by {
                if j > 0 {
                    assert(s[j] == t[j - 1]);
                }
            }
        } else {
            let k1 = find_char(t, c);
            assert(s[k1 + 1] == t[k1]);
            assert forall|j: int| 0 <= j < k1 + 1 implies s[j] != c by {
                if j > 0 {
                    assert(s[j] == t[j - 1]);
                }
            }
        }
    }
}

/// The first position of a dot in `s`, if any.
fn find_dot(s: &str) -> (r: Option<usize>)
    ensures
        r matches Some(i) ==> i < s@.len() && s@[i as int] == '.' && (forall|j: int|
            0 <= j < i ==> s@[j] != '.'),
        r is None ==> forall|j: int| 0 <= j < s@.len() ==> s@[j] != '.',
{
    let n = s.unicode_len();
    let mut i: usize = 0;
    while i < n
        invariant
            n == s@.len(),
            i <= n,
            forall|j: int| 0 <= j < i ==> s@[j] != '.',
        decreases n - i,
    {
        if s.get_char(i) == '.' {
            return Some(i);
        }
        i += 1;
    }
    None
}

/// Whether every character of `s` is a digit.
pub fn check_all_digits(s: &str) -> (b: bool)
    ensures
        b == all_digits(s@),
{
    let n = s.unicode_len();
    let mut i: usize = 0;
    while i < n
        invariant
            n == s@.len(),
            i <= n,
            forall|j: int| 0 <= j < i ==> is_digit(s@[j]),
        decreases n - i,
    {
        let u = s.get_char(i) as u32;
        if !(48 <= u && u <= 57) {
            assert(!is_digit(s@[i as int]));
            return false;
        }
        i += 1;
    }
    true
}

/// The contribution of a fraction part to the micro-unit value: the first
/// six fraction digits, padded with zeros on the right.
pub open spec fn frac_micro_val(fs: Seq<char>) -> int {
    if fs.len() <= 6 {
        digits_val(fs) * pow10((6 - fs.len()) as nat)
    } else {
        digits_val(fs.subrange(0, 6))
    }
}

/// The value of `s` read as an optionally signed plain decimal — an optional
/// sign, one or more integer digits, then optionally a dot and one or more
/// fraction digits — held in micro-units, fraction digits beyond the sixth
/// discarded. `None` when `s` is not of that shape or the magnitude does not
/// fit.
pub open spec fn spec_parse_fixed_micro(s: Seq<char>) -> Option<FixedMicro> {
    let b = int_body(s);
    let k = find_char(b, '.');
    if k == -1 {
        if b.len() > 0 && all_digits(b) && digits_val(b) * 1000000 <= u64::MAX {
            Some(
                FixedMicro {
                    negative: int_negative(s),
                    micro: (digits_val(b) * 1000000) as u64,
                },
            )
        } else {
            None
        }
    } else {
        let ip = b.subrange(0, k);
        let fp = b.subrange(k + 1, b.len() as int);
        if ip.len() > 0 && fp.len() > 0 && all_digits(ip) && all_digits(fp) && digits_val(ip)
            * 1000000 + frac_micro_val(fp) <= u64::MAX {
            Some(
                FixedMicro {
                    negative: int_negative(s),
                    micro: (digits_val(ip) * 1000000 + frac_micro_val(fp)) as u64,
                },
            )
        } else {
            None
        }
    }
}

/// Proves the handful of small powers of ten outright.
proof fn lemma_pow10_small()
    ensures
        pow10(0) == 1,
        pow10(1) == 10,
        pow10(2) == 100,
        pow10(3) == 1000,
        pow10(4) == 10000,
        pow10(5) == 100000,
        pow10(6) == 1000000,
{
    reveal_with_fuel(pow10, 8);
}

/// Ten to the `k`-th power, for the scales the fraction part needs.
fn pow10_u64(k: usize) -> (r: u64)
    requires
        k <= 6,
    ensures
        r == pow10(k as nat),
{
    proof {
        lemma_pow10_small();
    }
    match k {
        0 => 1,
        1 => 10,
        2 => 100,
        3 => 1000,
        4 => 10000,
        5 => 100000,
        _ => 1000000,
    }
}

pub fn parse_fixed_micro(s: &str) -> (r: Option<FixedMicro>)
    ensures
        r == spec_parse_fixed_micro(s@),
{
    proof {
        lemma_pow10_small();
    }
    let n = s.unicode_len();
    if n == 0 {
        proof {
            lemma_find_char_first(int_body(s@), '.');
        }
        return None;
    }
    let c0 = s.get_char(0);
    let neg = c0 == '-';
    let start: usize = if c0 == '-' || c0 == '+' {
        1
    } else {
        0
    };
    let b = s.substring_char(start, n);
    proof {
        assert(b@ =~= int_body(s@));
        lemma_find_char_first(b@, '.');
    }
    let bn = b.unicode_len();
    let dot = find_dot(b);
    match dot {
        None => {
            proof {
                assert(find_char(b@, '.') == -1);
            }
            let mag = match parse_digits_u64(b) {
                Some(m) => {
                    proof {
                        lemma_digits_val_nonneg(b@);
                    }
                    m
                },
                None => {
                    proof {
                        if b@.len() > 0 && all_digits(b@) {
                            lemma_digits_val_nonneg(b@);
                        }
                    }
                    return None;
                },
            };
            match mag.checked_mul(1000000) {
                Some(v) => Some(FixedMicro { negative: neg, micro: v }),
                None => None,
            }
        },
        Some(i_dot) => {
            proof {
                assert(b@[i_dot as int] == '.');
                let k = find_char(b@, '.');
                assert(k != -1);
                if k < i_dot as int {
                    assert(b@[k] == '.');
                }
                if k > i_dot as int {
                    assert(b@[i_dot as int] != '.');
                }
                assert(k == i_dot as int);
            }
            let ip = b.substring_char(0, i_dot);
            let fp = b.substring_char(i_dot + 1, bn);
            proof {
                assert(ip@ =~= b@.subrange(0, i_dot as int));
                assert(fp@ =~= b@.subrange(i_dot as int + 1, b@.len() as int));
            }
            let fp_len = fp.unicode_len();
            if fp_len == 0 {
                return None;
            }
            if !check_all_digits(fp) {
                return None;
            }
            let ip_val = match parse_digits_u64(ip) {
                Some(m) => {
                    proof {
                        lemma_digits_val_nonneg(ip@);
                    }
                    m
                },
                None => {
                    proof {
                        if ip@.len() > 0 && all_digits(ip@) {
                            lemma_digits_val_nonneg(ip@);
                            if fp@.len() <= 6 {
                                lemma_digits_val_nonneg(fp@);
                                lemma_pow10_nonneg((6 - fp@.len()) as nat);
                                lemma_mul_nonneg_pair(
                                    digits_val(fp@),
                                    pow10((6 - fp@.len()) as nat),
                                );
                            } else {
                                assert(all_digits(fp@.subrange(0, 6)));
                                lemma_digits_val_nonneg(fp@.subrange(0, 6));
                            }
                        }
                    }
                    return None;
                },
            };
            // The first six fraction digits, padded with zeros on the right.
            let f6 = if fp_len <= 6 {
                fp
            } else {
                fp.substring_char(0, 6)
            };
            proof {
                if fp@.len() > 6 {
                    assert(f6@ =~= fp@.subrange(0, 6));
                    assert(all_digits(f6@));
                }
                lemma_digits_val_nonneg(f6@);
                lemma_digits_val_upper(f6@);
            }
            let f6_len = f6.unicode_len();
            let f6_val = match parse_digits_u64(f6) {
                Some(m) => m,
                None => {
                    // Unreachable: six digits always fit, and a digit string
                    // of length at least one always parses.
                    proof {
                        lemma_pow10_mono(f6@.len(), 6);
                    }
                    return None;
                },
            };
            let scale = pow10_u64(6 - f6_len);
            let frac: u64 = {
                proof {
                    lemma_pow10_mono(f6@.len(), 6);
                    lemma_pow10_nonneg((6 - f6@.len()) as nat);
                    lemma_pow10_add(f6@.len(), (6 - f6@.len()) as nat);
                    lemma_mul_strict_upper(
                        digits_val(f6@),
                        pow10(f6@.len()),
                        pow10((6 - f6@.len()) as nat),
                    );
                }
                f6_val * scale
            };
            proof {
                assert(frac == frac_micro_val(fp@));
                assert(frac_micro_val(fp@) >= 0);
            }
            let base = match ip_val.checked_mul(1000000) {
                Some(v) => v,
                None => {
                    return None;
                },
            };
            match base.checked_add(frac) {
                Some(total) => Some(FixedMicro { negative: neg, micro: total }),
                None => None,
            }
        },
    }
}

pub proof fn lemma_pow10_nonneg(k: nat)
    ensures
        pow10(k) >= 1,
    decreases k,
{
    if k > 0 {
        lemma_pow10_nonneg((k - 1) as nat);
    }
}

pub proof fn lemma_pow10_mono(a: nat, b: nat)
    requires
        a <= b,
    ensures
        pow10(a) <= pow10(b),
    decreases b,
{
    if a < b {
        lemma_pow10_mono(a, (b - 1) as nat);
        lemma_pow10_nonneg((b - 1) as nat);
    }
}

pub proof fn lemma_pow10_add(a: nat, b: nat)
    ensures
        pow10(a + b) == pow10(a) * pow10(b),
    decreases a,
{
    if a == 0 {
    } else {
        lemma_pow10_add((a - 1) as nat, b);
        assert(pow10(a + b) == 10 * pow10((a - 1) as nat + b));
        assert(10 * (pow10((a - 1) as nat) * pow10(b)) == (10 * pow10((a - 1) as nat)) * pow10(
            b,
        )) by (nonlinear_arith);
    }
}

/// If `x < m` then `x * p < m * p` for positive `p`.
proof fn lemma_mul_strict_upper(x: int, m: int, p: int)
    requires
        0 <= x < m,
        p >= 1,
    ensures
        x * p < m * p,
{
    assert(x * p < m * p) by (nonlinear_arith)
        requires
            0 <= x < m,
            p >= 1,
    ;
}

proof fn lemma_mul_nonneg_pair(a: int, b: int)
    requires
        a >= 0,
        b >= 0,
    ensures
        a * b >= 0,
{
    assert(a * b >= 0) by (nonlinear_arith)
        requires
            a >= 0,
            b >= 0,
    ;
}

} // verus!
