//! Human-readable byte sizes, computed with integer arithmetic and
//! truncated to one decimal place.

use vstd::prelude::*;
use vstd::string::StrSliceExecFns;
use vstd::string::StringExecFns;

verus! {

/// The decimal digit character for a value below ten.
pub open spec fn digit_char_of(d: nat) -> char {
    if d == 0 {
        '0'
    } else if d == 1 {
        '1'
    } else if d == 2 {
        '2'
    } else if d == 3 {
        '3'
    } else if d == 4 {
        '4'
    } else if d == 5 {
        '5'
    } else if d == 6 {
        '6'
    } else if d == 7 {
        '7'
    } else if d == 8 {
        '8'
    } else {
        '9'
    }
}

/// The decimal rendering of a natural number, without leading zeros.
pub open spec fn dec_str(n: nat) -> Seq<char>
    decreases n,
{
    if n < 10 {
        seq![digit_char_of(n)]
    } else {
        dec_str(n / 10).push(digit_char_of(n % 10))
    }
}

/// The unit that a byte count is displayed in: 0 for B up to 4 for TB.
pub open spec fn size_unit_index(bytes: nat) -> nat {
    if bytes < 1024 {
        0
    } else if bytes < 1048576 {
        1
    } else if bytes < 1073741824 {
        2
    } else if bytes < 1099511627776 {
        3
    } else {
        4
    }
}

/// One kibi-step per unit.
pub open spec fn unit_divisor(k: nat) -> nat {
    if k == 0 {
        1
    } else if k == 1 {
        1024
    } else if k == 2 {
        1048576
    } else if k == 3 {
        1073741824
    } else {
        1099511627776
    }
}

/// The unit suffix, with its leading space.
pub open spec fn unit_suffix(k: nat) -> Seq<char> {
    if k == 0 {
        seq![' ', 'B']
    } else if k == 1 {
        seq![' ', 'K', 'B']
    } else if k == 2 {
        seq![' ', 'M', 'B']
    } else if k == 3 {
        seq![' ', 'G', 'B']
    } else {
        seq![' ', 'T', 'B']
    }
}

/// The rendering of a byte count: plain bytes below 1024, otherwise the
/// scaled value with one decimal place, truncated.
pub open spec fn spec_format_size(bytes: nat) -> Seq<char> {
    let k = size_unit_index(bytes);
    if k == 0 {
        dec_str(bytes) + unit_suffix(0)
    } else {
        let tenths = bytes * 10 / unit_divisor(k);
        dec_str(tenths / 10) + seq!['.'] + dec_str(tenths % 10) + unit_suffix(k)
    }
}

/// A single decimal digit as a string.
fn digit_str(d: u64) -> (r: String)
    requires
        d < 10,
    ensures
        r@ == seq![digit_char_of(d as nat)],
{
    proof {
        reveal_strlit("0123456789");
    }
    let digits = "0123456789";
    let i = d as usize;
    let r = String::from_str(digits.substring_char(i, i + 1));
    proof {
        assert(r@ =~= seq![digit_char_of(d as nat)]);
    }
    r
}

/// Renders a number in decimal.
pub fn u64_to_string(n: u64) -> (r: String)
    ensures
        r@ == dec_str(n as nat),
    decreases n,
{
    if n < 10 {
        digit_str(n)
    } else {
        let q = n / 10;
        let d = n % 10;
        let r = u64_to_string(q).concat(digit_str(d).as_str());
        proof {
            assert(r@ =~= dec_str((n / 10) as nat).push(digit_char_of((n % 10) as nat)));
        }
        r
    }
}

/// Converts a size in bytes to a human-readable string such as `1.5 KB`.
/// Values below 1024 are given in plain bytes; larger values are scaled
/// to the widest unit up to TB and shown with one truncated decimal.
pub fn format_size(bytes: u64) -> (r: String)
    ensures
        r@ == spec_format_size(bytes as nat),
{
    proof {
        reveal_strlit(" B");
        reveal_strlit(" KB");
        reveal_strlit(" MB");
        reveal_strlit(" GB");
        reveal_strlit(" TB");
    }
    if bytes < 1024 {
        let r = u64_to_string(bytes).concat(" B");
        proof {
            assert(" B"@ =~= unit_suffix(0));
            assert(r@ =~= spec_format_size(bytes as nat));
        }
        return r;
    }
    let divisor: u64 = if bytes < 1048576 {
        1024
    } else if bytes < 1073741824 {
        1048576
    } else if bytes < 1099511627776 {
        1073741824
    } else {
        1099511627776
    };
    let suffix: &str = if bytes < 1048576 {
        " KB"
    } else if bytes < 1073741824 {
        " MB"
    } else if bytes < 1099511627776 {
        " GB"
    } else {
        " TB"
    };
    let wide: u128 = (bytes as u128) * 10 / (divisor as u128);
    let whole: u64 = (wide / 10) as u64;
    let frac: u64 = (wide % 10) as u64;
    proof {
        let k = size_unit_index(bytes as nat);
        assert(divisor as nat == unit_divisor(k));
        assert(wide as nat == (bytes as nat) * 10 / unit_divisor(k)) by (nonlinear_arith)
            requires
                wide as int == (bytes as int) * 10 / (divisor as int),
                divisor as nat == unit_divisor(k),
                divisor > 0,
                bytes >= 0,
        ;
    }
    let r = u64_to_string(whole).concat(".").concat(u64_to_string(frac).as_str()).concat(suffix);
    proof {
        reveal_strlit(".");
        assert("."@ =~= seq!['.']);
        let k = size_unit_index(bytes as nat);
        assert(suffix@ =~= unit_suffix(k));
        assert(r@ =~= spec_format_size(bytes as nat));
    }
    r
}

} // verus!
