use vstd::prelude::*;

verus! {

/// Relies on std's String::push: appends the given character to the
/// end of the string.
pub assume_specification[ std::string::String::push ](s: &mut String, c: char)
    ensures
        final(s)@ == old(s)@.push(c),
;

/// The character for the decimal digit `d`.
pub open spec fn digit_char(d: nat) -> char
    recommends
        d < 10,
{
    ((0x30 + d) as u8) as char
}

/// The decimal rendering of `n`, most significant digit first, with no
/// leading zeros.
pub open spec fn dec_digits(n: nat) -> Seq<char>
    decreases n,
{
    if n < 10 {
        seq![digit_char(n)]
    } else {
        dec_digits(n / 10).push(digit_char(n % 10))
    }
}

/// Appends the decimal rendering of `n` to `out`.
pub fn push_dec(out: &mut String, n: u64)
    ensures
        final(out)@ == old(out)@ + dec_digits(n as nat),
    decreases n,
{
    if n >= 10 {
        push_dec(out, n / 10);
    }
    let d = (n % 10) as u8;
    out.push((0x30 + d) as char);
    proof {
        assert(out@ =~= old(out)@ + dec_digits(n as nat));
    }
}

} // verus!
