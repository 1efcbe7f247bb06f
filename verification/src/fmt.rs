//! Decimal formatting: building the digit strings that dates, times and
//! day counts are rendered with.

use vstd::prelude::*;
use vstd::string::StringExecFns;

verus! {

/// The character for a single decimal digit.
pub open spec fn spec_digit(n: int) -> char {
    if n == 0 { '0' }
    else if n == 1 { '1' }
    else if n == 2 { '2' }
    else if n == 3 { '3' }
    else if n == 4 { '4' }
    else if n == 5 { '5' }
    else if n == 6 { '6' }
    else if n == 7 { '7' }
    else if n == 8 { '8' }
    else { '9' }
}

/// Decimal digits of a non-negative number, most significant first,
/// without leading zeros (a lone zero for 0).
pub open spec fn spec_dec(n: int) -> Seq<char>
    decreases n,
{
    if n < 10 {
        seq![spec_digit(n)]
    } else {
        spec_dec(n / 10) + seq![spec_digit(n % 10)]
    }
}

/// Decimal digits zero-padded on the left to at least `width` characters.
pub open spec fn spec_dec_pad(n: int, width: int) -> Seq<char>
    decreases width,
{
    if spec_dec(n).len() >= width {
        spec_dec(n)
    } else {
        seq!['0'] + spec_dec_pad(n, width - 1)
    }
}

/// Append the single digit character of `n` (which must be below 10).
fn push_digit(out: &mut String, n: u64)
    requires
        n < 10,
    ensures
        final(out)@ == old(out)@ + seq![spec_digit(n as int)],
{
    let s: &str = if n == 0 { "0" }
        else if n == 1 { "1" }
        else if n == 2 { "2" }
        else if n == 3 { "3" }
        else if n == 4 { "4" }
        else if n == 5 { "5" }
        else if n == 6 { "6" }
        else if n == 7 { "7" }
        else if n == 8 { "8" }
        else { "9" };
    proof {
        reveal_strlit("0");
        reveal_strlit("1");
        reveal_strlit("2");
        reveal_strlit("3");
        reveal_strlit("4");
        reveal_strlit("5");
        reveal_strlit("6");
        reveal_strlit("7");
        reveal_strlit("8");
        reveal_strlit("9");
    }
    out.append(s);
    proof {
        assert(out@ =~= old(out)@ + seq![spec_digit(n as int)]);
    }
}

/// Append the decimal digits of `n`, most significant first.
pub fn push_dec(out: &mut String, n: u64)
    ensures
        final(out)@ == old(out)@ + spec_dec(n as int),
    decreases n,
{
    if n < 10 {
        push_digit(out, n);
    } else {
        push_dec(out, n / 10);
        push_digit(out, n % 10);
        proof {
            assert(out@ =~= old(out)@ + spec_dec(n as int));
        }
    }
}

/// Append the decimal digits of `n`, zero-padded to at least `width`.
pub fn push_dec_pad(out: &mut String, n: u64, width: u8)
    requires
        width <= 4,
    ensures
        final(out)@ == old(out)@ + spec_dec_pad(n as int, width as int),
    decreases width,
{
    let ghost n_digits = spec_dec(n as int).len();
    let needs_pad: bool = if width >= 2 {
        if n < 10 {
            true
        } else if n < 100 {
            width >= 3
        } else if n < 1000 {
            width >= 4
        } else if n < 10000 {
            width >= 5
        } else {
            false
        }
    } else {
        false
    };
    proof {
        lemma_dec_len(n as int);
    }
    if needs_pad {
        proof {
            reveal_strlit("0");
        }
        out.append("0");
        push_dec_pad(out, n, width - 1);
        proof {
            assert(out@ =~= old(out)@ + spec_dec_pad(n as int, width as int));
        }
    } else {
        push_dec(out, n);
    }
}

/// Digit counts by magnitude, spelled out for the padding test.
proof fn lemma_dec_len(n: int)
    requires
        n >= 0,
    ensures
        n < 10 ==> spec_dec(n).len() == 1,
        10 <= n < 100 ==> spec_dec(n).len() == 2,
        100 <= n < 1000 ==> spec_dec(n).len() == 3,
        1000 <= n < 10000 ==> spec_dec(n).len() == 4,
        10000 <= n ==> spec_dec(n).len() >= 5,
    decreases n,
{
    if n >= 10 {
        lemma_dec_len(n / 10);
    }
}

} // verus!
