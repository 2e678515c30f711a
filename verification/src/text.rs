use vstd::prelude::*;
use vstd::string::StringExecFns;

verus! {

/// The ten decimal digit characters, in value order.
pub open spec fn spec_dec_digits() -> Seq<char> {
    seq!['0', '1', '2', '3', '4', '5', '6', '7', '8', '9']
}

/// The decimal text of `n`: most significant digit first, no leading zeros,
/// a single `'0'` for zero.
pub open spec fn spec_decimal(n: nat) -> Seq<char>
    decreases n,
{
    if n < 10 {
        seq![spec_dec_digits()[n as int]]
    } else {
        spec_decimal(n / 10) + seq![spec_dec_digits()[(n % 10) as int]]
    }
}

/// The comma-separated decimal items of a byte sequence, as a debug-style
/// list body (without the surrounding brackets).
pub open spec fn spec_byte_items(s: Seq<u8>) -> Seq<char>
    decreases s.len(),
{
    if s.len() == 0 {
        Seq::empty()
    } else if s.len() == 1 {
        spec_decimal(s[0] as nat)
    } else {
        spec_byte_items(s.drop_last()) + ", "@ + spec_decimal(s.last() as nat)
    }
}

/// The one-character text of a single decimal digit.
fn digit_str(d: u64) -> (r: &'static str)
    requires
        d < 10,
    ensures
        r@ == seq![spec_dec_digits()[d as int]],
{
    if d == 0 {
        proof {
            reveal_strlit("0");
        }
        "0"
    } else if d == 1 {
        proof {
            reveal_strlit("1");
        }
        "1"
    } else if d == 2 {
        proof {
            reveal_strlit("2");
        }
        "2"
    } else if d == 3 {
        proof {
            reveal_strlit("3");
        }
        "3"
    } else if d == 4 {
        proof {
            reveal_strlit("4");
        }
        "4"
    } else if d == 5 {
        proof {
            reveal_strlit("5");
        }
        "5"
    } else if d == 6 {
        proof {
            reveal_strlit("6");
        }
        "6"
    } else if d == 7 {
        proof {
            reveal_strlit("7");
        }
        "7"
    } else if d == 8 {
        proof {
            reveal_strlit("8");
        }
        "8"
    } else {
        proof {
            reveal_strlit("9");
        }
        "9"
    }
}

/// Append the decimal text of `n` to `out`.
pub fn push_decimal(out: &mut String, n: u64)
    ensures
        final(out)@ == old(out)@ + spec_decimal(n as nat),
    decreases n,
{
    if n >= 10 {
        push_decimal(out, n / 10);
    }
    out.append(digit_str(n % 10));
    proof {
        if n >= 10 {
            assert(old(out)@ + spec_decimal((n / 10) as nat) + seq![
                spec_dec_digits()[(n % 10) as int],
            ] =~= old(out)@ + spec_decimal(n as nat));
        }
    }
}

} // verus!
