//! Lenient numeric parsing: unsigned decimal numerals and fixed-point
//! decimal numbers scaled to a given number of fractional digits, as the
//! inspection service reports durations and frame rates.
use vstd::prelude::*;
use vstd::string::StrSliceExecFns;
use vstd::arithmetic::div_mod::lemma_fundamental_div_mod;
use vstd::arithmetic::mul::lemma_mul_inequality;

verus! {

/// Is `c` a decimal digit.
pub open spec fn is_digit(c: char) -> bool {
    '0' <= c && c <= '9'
}

/// The numeric value of digit `c`.
pub open spec fn digit_val(c: char) -> nat {
    ((c as int) - ('0' as int)) as nat
}

/// Every character of `s` is a decimal digit.
pub open spec fn all_digits(s: Seq<char>) -> bool {
    forall|i: int| 0 <= i < s.len() ==> is_digit(s[i])
}

/// The value of a digit string, most significant digit first; 0 if empty.
pub open spec fn digits_val(s: Seq<char>) -> nat
    decreases s.len(),
{
    if s.len() == 0 {
        0
    } else {
        digits_val(s.drop_last()) * 10 + digit_val(s.last())
    }
}

/// Ten to the `n`.
pub open spec fn pow10(n: nat) -> nat
    decreases n,
{
    if n == 0 {
        1
    } else {
        10 * pow10((n - 1) as nat)
    }
}

/// A nonempty all-digit string parses to its value; anything else does not.
pub open spec fn spec_parse_digits(s: Seq<char>) -> Option<nat> {
    if s.len() == 0 || !all_digits(s) {
        None
    } else {
        Some(digits_val(s))
    }
}

/// The index of the first occurrence of `c` in `s`, or -1 if absent.
pub open spec fn first_index_of(s: Seq<char>, c: char) -> int
    decreases s.len(),
{
    if s.len() == 0 {
        -1
    } else if s[0] == c {
        0
    } else if first_index_of(s.drop_first(), c) == -1 {
        -1
    } else {
        first_index_of(s.drop_first(), c) + 1
    }
}

/// A prefix free of `c` followed by `c` at `i` pins the first index.
proof fn lemma_first_index_found(s: Seq<char>, c: char, i: int)
    requires
        0 <= i < s.len(),
        s[i] == c,
        forall|j: int| 0 <= j < i ==> s[j] != c,
    ensures
        first_index_of(s, c) == i,
    decreases i,
{
    if i > 0 {
        lemma_first_index_found(s.drop_first(), c, i - 1);
    }
}

/// A string free of `c` has no first index of `c`.
proof fn lemma_first_index_absent(s: Seq<char>, c: char)
    requires
        forall|j: int| 0 <= j < s.len() ==> s[j] != c,
    ensures
        first_index_of(s, c) == -1,
    decreases s.len(),
{
    if s.len() > 0 {
        lemma_first_index_absent(s.drop_first(), c);
    }
}

/// The first index of `c`, or `None` if `c` does not occur in `s`.
pub(crate) fn find_char(s: &str, c: char) -> (r: Option<usize>)
    ensures
        r matches Some(i) ==> first_index_of(s@, c) == i && i < s@.len(),
        r is None ==> first_index_of(s@, c) == -1,
{
    let n = s.unicode_len();
    let mut i: usize = 0;
    while i < n
        invariant
            i <= n,
            n == s@.len(),
            forall|j: int| 0 <= j < i ==> s@[j] != c,
        decreases n - i,
    {
        if s.get_char(i) == c {
            proof {
                lemma_first_index_found(s@, c, i as int);
            }
            return Some(i);
        }
        i = i + 1;
    }
    proof {
        lemma_first_index_absent(s@, c);
    }
    None
}

/// A prefix of a digit string is worth no more than the whole string.
proof fn lemma_digits_val_take_mono(s: Seq<char>, k: int)
    requires
        0 <= k <= s.len(),
    ensures
        digits_val(s.take(k)) <= digits_val(s),
    decreases s.len(),
{
    if k == s.len() {
        assert(s.take(k) =~= s);
    } else {
        assert(s.drop_last().take(k) =~= s.take(k));
        lemma_digits_val_take_mono(s.drop_last(), k);
    }
}

/// A digit string of length `n` is worth less than ten to the `n`.
proof fn lemma_digits_val_bound(s: Seq<char>)
    requires
        all_digits(s),
    ensures
        digits_val(s) < pow10(s.len()),
    decreases s.len(),
{
    if s.len() > 0 {
        lemma_digits_val_bound(s.drop_last());
        assert(digits_val(s.drop_last()) * 10 + 9 < pow10(s.len())) by (nonlinear_arith)
            requires
                digits_val(s.drop_last()) < pow10((s.len() - 1) as nat),
                pow10(s.len()) == 10 * pow10((s.len() - 1) as nat),
        ;
    }
}

/// Parses a nonempty string of digits into its value; `None` if the string
/// is empty, holds any non-digit, or its value exceeds what 64 bits hold.
pub fn parse_u64(s: &str) -> (r: Option<u64>)
    ensures
        spec_parse_digits(s@) is None ==> r is None,
        spec_parse_digits(s@) matches Some(v) ==> (if v <= u64::MAX {
            r == Some(v as u64)
        } else {
            r is None
        }),
{
    let n = s.unicode_len();
    if n == 0 {
        return None;
    }
    let mut acc: u64 = 0;
    let mut i: usize = 0;
    while i < n
        invariant
            i <= n,
            n == s@.len(),
            all_digits(s@.take(i as int)),
            acc == digits_val(s@.take(i as int)),
        decreases n - i,
    {
        let c = s.get_char(i);
        if (c as u32) < ('0' as u32) || (c as u32) > ('9' as u32) {
            proof {
                assert(!is_digit(s@[i as int]));
            }
            return None;
        }
        let d = (c as u32) - ('0' as u32);
        proof {
            assert(s@.take(i + 1).drop_last() =~= s@.take(i as int));
            assert(digits_val(s@.take(i + 1)) == acc * 10 + d);
        }
        if acc > u64::MAX / 10 || (acc == u64::MAX / 10 && (d as u64) > u64::MAX % 10) {
            proof {
                lemma_digits_val_take_mono(s@, i + 1);
                assert(digits_val(s@) > u64::MAX);
            }
            return None;
        }
        acc = acc * 10 + (d as u64);
        i = i + 1;
    }
    proof {
        assert(s@.take(n as int) =~= s@);
    }
    Some(acc)
}

/// The value of a decimal string (digits, optionally a dot and more digits)
/// scaled by ten to the `frac`: the integer part times the scale plus the
/// first `frac` fractional digits, right-padded with zeros. `None` if the
/// string fits no such shape or has no digit at all.
pub open spec fn spec_parse_scaled(s: Seq<char>, frac: nat) -> Option<nat> {
    let dot = first_index_of(s, '.');
    if dot == -1 {
        match spec_parse_digits(s) {
            Some(v) => Some(v * pow10(frac)),
            None => None,
        }
    } else {
        let ip = s.take(dot);
        let fp = s.skip(dot + 1);
        if ip.len() + fp.len() == 0 || !all_digits(ip) || !all_digits(fp) {
            None
        } else {
            let kept = if fp.len() <= frac {
                fp
            } else {
                fp.take(frac as int)
            };
            Some(
                digits_val(ip) * pow10(frac) + digits_val(kept) * pow10(
                    (frac - kept.len()) as nat,
                ),
            )
        }
    }
}

/// `spec_parse_scaled`, with values beyond 64 bits treated as unparsable.
pub open spec fn spec_parse_scaled_u64(s: Seq<char>, frac: nat) -> Option<u64> {
    match spec_parse_scaled(s, frac) {
        Some(v) => if v <= u64::MAX {
            Some(v as u64)
        } else {
            None
        },
        None => None,
    }
}

/// Ten to the `e` as a 64-bit value, for small `e`.
fn pow10_u64(e: u32) -> (r: u64)
    requires
        e <= 6,
    ensures
        r as nat == pow10(e as nat),
        r >= 1,
{
    proof {
        reveal_with_fuel(pow10, 8);
    }
    if e == 0 {
        1
    } else if e == 1 {
        10
    } else if e == 2 {
        100
    } else if e == 3 {
        1000
    } else if e == 4 {
        10000
    } else if e == 5 {
        100000
    } else {
        1000000
    }
}

/// `a * b` stays within 64 bits exactly when `a` is at most `u64::MAX / b`.
proof fn lemma_mul_fits_u64(a: nat, b: nat)
    requires
        b >= 1,
    ensures
        a * b <= u64::MAX <==> a <= (u64::MAX as nat) / b,
{
    let m = u64::MAX as int;
    let q = m / (b as int);
    lemma_fundamental_div_mod(m, b as int);
    if a <= q {
        lemma_mul_inequality(a as int, q, b as int);
        assert(q * (b as int) <= m);
    }
    if a > q {
        lemma_mul_inequality(q + 1, a as int, b as int);
        assert((q + 1) * (b as int) > m) by (nonlinear_arith)
            requires
                m == (b as int) * q + m % (b as int),
                0 <= m % (b as int) < b as int,
        ;
    }
}

/// Parses a decimal string into its value scaled by ten to the `frac`
/// fractional digits; `None` when `spec_parse_scaled` rejects the string or
/// the scaled value exceeds what 64 bits hold.
#[verifier::rlimit(100)]
pub fn parse_scaled(s: &str, frac: u32) -> (r: Option<u64>)
    requires
        frac <= 6,
    ensures
        r == spec_parse_scaled_u64(s@, frac as nat),
{
    let n = s.unicode_len();
    let scale = pow10_u64(frac);
    match find_char(s, '.') {
        None => {
            match parse_u64(s) {
                None => {
                    proof {
                        if spec_parse_digits(s@) is Some {
                            let v = digits_val(s@);
                            assert(v > u64::MAX);
                            assert(v * pow10(frac as nat) >= v * 1) by (nonlinear_arith)
                                requires
                                    pow10(frac as nat) >= 1,
                                    v >= 0,
                            ;
                        }
                    }
                    None
                },
                Some(v) => {
                    proof {
                        lemma_mul_fits_u64(v as nat, scale as nat);
                    }
                    if v > u64::MAX / scale {
                        None
                    } else {
                        Some(v * scale)
                    }
                },
            }
        },
        Some(dot) => {
            let ghost ip = s@.take(dot as int);
            let ghost fp = s@.skip(dot as int + 1);
            let ipart = s.substring_char(0, dot);
            let fpart = s.substring_char(dot + 1, n);
            let flen = fpart.unicode_len();
            if dot == 0 && flen == 0 {
                return None;
            }
            // The whole fractional part must be digits, kept or not.
            let mut j: usize = 0;
            while j < flen
                invariant
                    j <= flen,
                    flen == fp.len(),
                    fpart@ == fp,
                    first_index_of(s@, '.') == dot as int,
                    dot < s@.len(),
                    fp == s@.skip(dot as int + 1),
                    all_digits(fp.take(j as int)),
                decreases flen - j,
            {
                let c = fpart.get_char(j);
                if (c as u32) < ('0' as u32) || (c as u32) > ('9' as u32) {
                    proof {
                        assert(!is_digit(fp[j as int]));
                    }
                    return None;
                }
                proof {
                    assert(fp.take(j + 1).drop_last() =~= fp.take(j as int));
                }
                j = j + 1;
            }
            proof {
                assert(fp.take(flen as int) =~= fp);
            }
            // Integer part: empty means zero.
            let iv: u64 = if dot == 0 {
                0
            } else {
                match parse_u64(ipart) {
                    None => {
                        proof {
                            if spec_parse_digits(ip) is Some {
                                let v = digits_val(ip);
                                assert(v > u64::MAX);
                                assert(v * pow10(frac as nat) >= v * 1) by (nonlinear_arith)
                                    requires
                                        pow10(frac as nat) >= 1,
                                        v >= 0,
                                ;
                            }
                        }
                        return None;
                    },
                    Some(v) => v,
                }
            };
            // Kept fractional digits: the first `frac` of them.
            let klen: usize = if flen <= frac as usize {
                flen
            } else {
                frac as usize
            };
            let kept = fpart.substring_char(0, klen);
            let ghost keptg = if fp.len() <= frac as nat {
                fp
            } else {
                fp.take(frac as int)
            };
            proof {
                assert(kept@ =~= keptg);
            }
            let kv: u64 = if klen == 0 {
                0
            } else {
                proof {
                    lemma_digits_val_bound(keptg);
                    reveal_with_fuel(pow10, 8);
                    assert(pow10(keptg.len()) <= pow10(6)) by {
                        assert(keptg.len() <= 6);
                        if keptg.len() == 0 {
                        } else if keptg.len() == 1 {
                        } else if keptg.len() == 2 {
                        } else if keptg.len() == 3 {
                        } else if keptg.len() == 4 {
                        } else if keptg.len() == 5 {
                        }
                    }
                }
                match parse_u64(kept) {
                    None => {
                        proof {
                            assert(false);
                        }
                        0
                    },
                    Some(v) => v,
                }
            };
            let pad = pow10_u64(frac - klen as u32);
            proof {
                lemma_digits_val_bound(keptg);
                lemma_mul_fits_u64(iv as nat, scale as nat);
            }
            if iv > u64::MAX / scale {
                proof {
                    assert(
                        digits_val(ip) * pow10(frac as nat) + digits_val(keptg) * pow10(
                            (frac as nat - keptg.len()) as nat,
                        ) >= digits_val(ip) * pow10(frac as nat));
                }
                return None;
            }
            let base = iv * scale;
            // The padded fractional value is below the scale itself.
            proof {
                assert(digits_val(keptg) * (pad as nat) < pow10(keptg.len()) * (pad as nat)
                    || digits_val(keptg) * (pad as nat) == 0) by (nonlinear_arith)
                    requires
                        digits_val(keptg) < pow10(keptg.len()),
                        pad as nat >= 1,
                ;
                assert(pow10(keptg.len()) * (pad as nat) == pow10(frac as nat)) by {
                    lemma_pow10_adds(keptg.len(), (frac as nat - keptg.len()) as nat);
                }
            }
            let fv = kv * pad;
            if base > u64::MAX - fv {
                proof {
                    assert(digits_val(ip) * (scale as nat) + digits_val(keptg) * (pad as nat)
                        > u64::MAX);
                }
                return None;
            }
            Some(base + fv)
        },
    }
}

/// Ten to the sum is the product of the powers.
proof fn lemma_pow10_adds(a: nat, b: nat)
    ensures
        pow10(a) * pow10(b) == pow10(a + b),
    decreases a,
{
    if a == 0 {
        assert(pow10(0) * pow10(b) == pow10(b)) by (nonlinear_arith)
            requires
                pow10(0) == 1,
        ;
    } else {
        lemma_pow10_adds((a - 1) as nat, b);
        assert(pow10(a) * pow10(b) == 10 * (pow10((a - 1) as nat) * pow10(b)))
            by (nonlinear_arith)
            requires
                pow10(a) == 10 * pow10((a - 1) as nat),
        ;
    }
}

} // verus!
