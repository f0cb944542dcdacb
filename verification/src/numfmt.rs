//! Decimal numerals: rendering unsigned values as strings, with optional
//! zero-padding, and fixed-point renderings used for frame rates (hundredths)
//! and timestamps (thousandths).
use vstd::prelude::*;
use vstd::string::StringExecFns;

verus! {

/// The decimal digit character for `d` (0 through 9).
pub open spec fn digit_char(d: nat) -> char {
    seq!['0', '1', '2', '3', '4', '5', '6', '7', '8', '9'][d as int]
}

/// The decimal numeral of `n`, most significant digit first, without leading
/// zeros (the numeral of 0 is the single digit 0).
pub open spec fn dec_digits(n: nat) -> Seq<char>
    decreases n,
{
    if n < 10 {
        seq![digit_char(n)]
    } else {
        dec_digits(n / 10).push(digit_char(n % 10))
    }
}

/// The numeral of `n`, left-padded with zeros to at least `w` characters.
pub open spec fn dec_digits_padded(n: nat, w: nat) -> Seq<char> {
    if dec_digits(n).len() >= w {
        dec_digits(n)
    } else {
        Seq::new((w - dec_digits(n).len()) as nat, |i: int| '0') + dec_digits(n)
    }
}

/// The one-character numeral of a single digit.
fn digit_str(d: u64) -> (r: &'static str)
    requires
        d < 10,
    ensures
        r@ == seq![digit_char(d as nat)],
{
    if d == 0 {
        proof {
            reveal_strlit("0");
        }
        let r = "0";
        proof {
            assert(r@ =~= seq![digit_char(d as nat)]);
        }
        r
    } else if d == 1 {
        proof {
            reveal_strlit("1");
        }
        let r = "1";
        proof {
            assert(r@ =~= seq![digit_char(d as nat)]);
        }
        r
    } else if d == 2 {
        proof {
            reveal_strlit("2");
        }
        let r = "2";
        proof {
            assert(r@ =~= seq![digit_char(d as nat)]);
        }
        r
    } else if d == 3 {
        proof {
            reveal_strlit("3");
        }
        let r = "3";
        proof {
            assert(r@ =~= seq![digit_char(d as nat)]);
        }
        r
    } else if d == 4 {
        proof {
            reveal_strlit("4");
        }
        let r = "4";
        proof {
            assert(r@ =~= seq![digit_char(d as nat)]);
        }
        r
    } else if d == 5 {
        proof {
            reveal_strlit("5");
        }
        let r = "5";
        proof {
            assert(r@ =~= seq![digit_char(d as nat)]);
        }
        r
    } else if d == 6 {
        proof {
            reveal_strlit("6");
        }
        let r = "6";
        proof {
            assert(r@ =~= seq![digit_char(d as nat)]);
        }
        r
    } else if d == 7 {
        proof {
            reveal_strlit("7");
        }
        let r = "7";
        proof {
            assert(r@ =~= seq![digit_char(d as nat)]);
        }
        r
    } else if d == 8 {
        proof {
            reveal_strlit("8");
        }
        let r = "8";
        proof {
            assert(r@ =~= seq![digit_char(d as nat)]);
        }
        r
    } else {
        proof {
            reveal_strlit("9");
        }
        let r = "9";
        proof {
            assert(r@ =~= seq![digit_char(d as nat)]);
        }
        r
    }
}

/// Renders `n` as its decimal numeral.
pub fn u64_to_dec(n: u64) -> (r: String)
    ensures
        r@ == dec_digits(n as nat),
    decreases n,
{
    if n < 10 {
        let mut s = String::new();
        s.append(digit_str(n));
        proof {
            assert(s@ =~= dec_digits(n as nat));
        }
        s
    } else {
        let mut s = u64_to_dec(n / 10);
        s.append(digit_str(n % 10));
        proof {
            assert(s@ =~= dec_digits(n as nat));
        }
        s
    }
}

/// Renders `n` as its decimal numeral, left-padded with zeros to at least
/// `width` characters.
pub fn u64_to_dec_padded(n: u64, width: usize) -> (r: String)
    ensures
        r@ == dec_digits_padded(n as nat, width as nat),
{
    let digits = u64_to_dec(n);
    let len = digits.as_str().unicode_len();
    let mut s = String::new();
    let mut k: usize = 0;
    while len + k < width
        invariant
            s@.len() == k,
            len + k <= width || k == 0,
            forall|i: int| 0 <= i < k ==> s@[i] == '0',
            len == dec_digits(n as nat).len(),
            digits@ == dec_digits(n as nat),
        decreases width - (len + k),
    {
        proof {
            reveal_strlit("0");
        }
        s.append("0");
        k = k + 1;
    }
    s.append(digits.as_str());
    proof {
        assert(s@ =~= dec_digits_padded(n as nat, width as nat));
    }
    s
}

/// Renders a value held in hundredths as a fixed-point numeral with exactly
/// two fractional digits, as in a frames-per-second figure.
pub fn centi_to_dec(centi: u64) -> (r: String)
    ensures
        r@ == dec_digits(centi as nat / 100) + seq!['.'] + dec_digits_padded(
            centi as nat % 100,
            2,
        ),
{
    let mut s = u64_to_dec(centi / 100);
    proof {
        reveal_strlit(".");
    }
    s.append(".");
    let frac = u64_to_dec_padded(centi % 100, 2);
    s.append(frac.as_str());
    proof {
        assert(s@ =~= dec_digits(centi as nat / 100) + seq!['.'] + dec_digits_padded(
            centi as nat % 100,
            2,
        ));
    }
    s
}

/// Renders a duration held in milliseconds as seconds with exactly three
/// fractional digits, as a frame-capture timestamp is written.
pub fn millis_to_dec(millis: u64) -> (r: String)
    ensures
        r@ == dec_digits(millis as nat / 1000) + seq!['.'] + dec_digits_padded(
            millis as nat % 1000,
            3,
        ),
{
    let mut s = u64_to_dec(millis / 1000);
    proof {
        reveal_strlit(".");
    }
    s.append(".");
    let frac = u64_to_dec_padded(millis % 1000, 3);
    s.append(frac.as_str());
    proof {
        assert(s@ =~= dec_digits(millis as nat / 1000) + seq!['.'] + dec_digits_padded(
            millis as nat % 1000,
            3,
        ));
    }
    s
}

} // verus!
