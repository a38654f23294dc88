//! Small text helpers: decimal formatting of integers into strings, and the
//! characters of a string as a vector.

use vstd::prelude::*;
use vstd::string::StrSliceExecFns;

use crate::vault_core::body_codec::decimal;
use crate::vault_core::generator::string_from_chars;

verus! {

/// The decimal digits of `v` as characters.
pub open spec fn decimal_chars(v: nat) -> Seq<char> {
    decimal(v).map_values(|b: u8| b as char)
}

fn push_decimal_chars(out: &mut Vec<char>, v: u64)
    ensures
        final(out)@ == old(out)@ + decimal_chars(v as nat),
    decreases v,
{
    if v >= 10 {
        push_decimal_chars(out, v / 10);
    }
    let d: u8 = (v % 10) as u8;
    out.push((48u8 + d) as char);
    proof {
        let n = v as nat;
        if n >= 10 {
            assert(decimal(n) == decimal(n / 10) + seq![(48 + n % 10) as u8]);
            assert(decimal_chars(n) =~= decimal_chars(n / 10) + seq![((48 + n % 10) as u8) as char]);
        } else {
            assert(decimal_chars(n) =~= seq![((48 + n) as u8) as char]);
        }
    }
    assert(out@ =~= old(out)@ + decimal_chars(v as nat));
}

/// The decimal form of `v`, without leading zeros.
pub fn decimal_string(v: u64) -> (s: String)
    ensures
        s@ == decimal_chars(v as nat),
{
    let mut out: Vec<char> = Vec::new();
    push_decimal_chars(&mut out, v);
    assert(out@ =~= decimal_chars(v as nat));
    string_from_chars(&out)
}

/// The characters of `s`, in order.
pub fn chars_of(s: &str) -> (v: Vec<char>)
    ensures
        v@ == s@,
{
    let n = s.unicode_len();
    let mut v: Vec<char> = Vec::new();
    let mut i: usize = 0;
    while i < n
        invariant
            0 <= i <= n,
            n == s@.len(),
            v@ == s@.take(i as int),
        decreases n - i,
    {
        v.push(s.get_char(i));
        i = i + 1;
        assert(v@ =~= s@.take(i as int));
    }
    assert(s@.take(n as int) =~= s@);
    v
}

} // verus!
