//! Decimal rendering of integers, as `format!("{}")` and `format!("{:0w}")`
//! write them.

use vstd::prelude::*;
use vstd::string::StringExecFns;

verus! {

/// The character of the decimal digit `d`.
pub open spec fn digit_char(d: nat) -> char {
    if d == 0 {
        '0'
    } else if d == 1 {
        '1'
    } else if d == 2 {
        '2'
    } else if d == 3 {
        '3'
    } else if d == 4 {
        '4'
    } else if d == 5 {
        '5'
    } else if d == 6 {
        '6'
    } else if d == 7 {
        '7'
    } else if d == 8 {
        '8'
    } else {
        '9'
    }
}

/// The decimal digits of `n`, most significant first.
pub open spec fn digits(n: nat) -> Seq<char>
    decreases n,
{
    if n < 10 {
        seq![digit_char(n)]
    } else {
        digits(n / 10) + seq![digit_char(n % 10)]
    }
}

/// `k` zeros.
pub open spec fn zeros(k: nat) -> Seq<char> {
    Seq::new(k, |i: int| '0')
}

/// `n` in decimal, padded with leading zeros to at least `width` characters.
pub open spec fn zero_padded(n: nat, width: nat) -> Seq<char> {
    let d = digits(n);
    if d.len() >= width {
        d
    } else {
        zeros((width - d.len()) as nat) + d
    }
}

/// `n` in decimal with sign-aware zero padding to `width` characters, the
/// sign counted in the width (`format!("{:0width$}", n)`).
pub open spec fn signed_padded(n: int, width: nat) -> Seq<char> {
    if n >= 0 {
        zero_padded(n as nat, width)
    } else {
        seq!['-'] + zero_padded((-n) as nat, if width > 0 { (width - 1) as nat } else { 0 })
    }
}

/// `10^k`.
pub open spec fn pow10(k: nat) -> nat
    decreases k,
{
    if k == 0 {
        1
    } else {
        10 * pow10((k - 1) as nat)
    }
}

proof fn lemma_digits_len(n: nat, k: nat)
    requires
        n < pow10(k),
        k >= 1,
    ensures
        1 <= digits(n).len() <= k,
        n < 10 ==> digits(n).len() == 1,
    decreases n,
{
    if n >= 10 {
        assert(k >= 2) by {
            if k == 1 {
                assert(pow10(1) == 10 * pow10(0));
            }
            if k == 0 {
                assert(pow10(0) == 1);
            }
        }
        let p = pow10((k - 1) as nat);
        assert(pow10(k) == 10 * p);
        assert(n / 10 < p);
        lemma_digits_len(n / 10, (k - 1) as nat);
        assert(digits(n) == digits(n / 10) + seq![digit_char(n % 10)]);
    }
}

proof fn lemma_u64_digits_len(n: u64)
    ensures
        1 <= digits(n as nat).len() <= 20,
{
    assert(pow10(20) == 100_000_000_000_000_000_000) by {
        reveal_with_fuel(pow10, 21);
    }
    lemma_digits_len(n as nat, 20);
}

/// The one-character text of the digit `d`.
fn digit_text(d: u64) -> (r: &'static str)
    requires
        d < 10,
    ensures
        r@ == seq![digit_char(d as nat)],
{
    proof {
        reveal_strlit("0");
        reveal_strlit("1");
        reveal_strlit("2");
        reveal_strlit("3");
        reveal_strlit("4");
        reveal_strlit("5");
        reveal_strlit("6");
        reveal_strlit("7");
        reveal_strlit("8");
        reveal_strlit("9");
    }
    if d == 0 {
        "0"
    } else if d == 1 {
        "1"
    } else if d == 2 {
        "2"
    } else if d == 3 {
        "3"
    } else if d == 4 {
        "4"
    } else if d == 5 {
        "5"
    } else if d == 6 {
        "6"
    } else if d == 7 {
        "7"
    } else if d == 8 {
        "8"
    } else {
        "9"
    }
}

/// Appends the decimal digits of `n`.
pub fn push_decimal(out: &mut String, n: u64)
    ensures
        final(out)@ == old(out)@ + digits(n as nat),
    decreases n,
{
    if n >= 10 {
        push_decimal(out, n / 10);
    }
    out.append(digit_text(n % 10));
    assert(digits(n as nat) == if n < 10 {
        seq![digit_char(n as nat)]
    } else {
        digits((n / 10) as nat) + seq![digit_char((n % 10) as nat)]
    });
}

/// Number of decimal digits of `n`.
pub fn decimal_len(n: u64) -> (r: usize)
    ensures
        r == digits(n as nat).len(),
    decreases n,
{
    proof {
        lemma_u64_digits_len(n);
    }
    if n < 10 {
        1
    } else {
        let k = decimal_len(n / 10);
        proof {
            lemma_u64_digits_len(n / 10);
        }
        k + 1
    }
}

/// Appends `n` in decimal, padded with leading zeros to `width` characters.
pub fn push_zero_padded(out: &mut String, n: u64, width: usize)
    ensures
        final(out)@ == old(out)@ + zero_padded(n as nat, width as nat),
{
    let len = decimal_len(n);
    let ghost start = out@;
    if len < width {
        let mut k: usize = 0;
        while k < width - len
            invariant
                len < width,
                k <= width - len,
                out@ == start + zeros(k as nat),
            decreases width - len - k,
        {
            out.append("0");
            proof {
                reveal_strlit("0");
            }
            assert(zeros((k + 1) as nat) =~= zeros(k as nat) + seq!['0']);
            k = k + 1;
        }
    }
    push_decimal(out, n);
    proof {
        if len < width {
            assert(out@ =~= start + (zeros((width - len) as nat) + digits(n as nat)));
        } else {
            assert(out@ =~= start + digits(n as nat));
        }
    }
}

/// Appends `n` in decimal with sign-aware zero padding to `width` characters.
pub fn push_signed_padded(out: &mut String, n: i64, width: usize)
    ensures
        final(out)@ == old(out)@ + signed_padded(n as int, width as nat),
{
    if n >= 0 {
        push_zero_padded(out, n as u64, width);
    } else {
        let ghost start = out@;
        out.append("-");
        proof {
            reveal_strlit("-");
        }
        let m: i128 = -(n as i128);
        let w: usize = if width > 0 { width - 1 } else { 0 };
        push_zero_padded(out, m as u64, w);
        assert(out@ =~= start + (seq!['-'] + zero_padded((-n) as nat, w as nat)));
    }
}

} // verus!
