use vstd::prelude::*;

verus! {

/// One decimal digit as a character.
pub open spec fn spec_dec_digit(n: u8) -> char
    recommends
        n < 10,
{
    ((n + 48) as u8) as char
}

/// Decimal rendering of a byte, without leading zeros.
pub open spec fn spec_dec_u8(n: u8) -> Seq<char> {
    if n < 10 {
        seq![spec_dec_digit(n)]
    } else if n < 100 {
        seq![spec_dec_digit(n / 10), spec_dec_digit(n % 10)]
    } else {
        seq![spec_dec_digit(n / 100), spec_dec_digit((n / 10) % 10), spec_dec_digit(n % 10)]
    }
}

/// The firmware version string `"major.minor"` drawn from the two bytes of a
/// packed 16-bit version word.
pub open spec fn spec_version_chars(hi: u8, lo: u8) -> Seq<char> {
    spec_dec_u8(hi) + "."@ + spec_dec_u8(lo)
}

fn append_dec_digit(s: &mut String, d: u8)
    requires
        d < 10,
    ensures
        final(s)@ == old(s)@ + seq![spec_dec_digit(d)],
{
    match d {
        0 => s.append("0"),
        1 => s.append("1"),
        2 => s.append("2"),
        3 => s.append("3"),
        4 => s.append("4"),
        5 => s.append("5"),
        6 => s.append("6"),
        7 => s.append("7"),
        8 => s.append("8"),
        _ => s.append("9"),
    }
    proof {
        reveal_strlit("0");
        reveal_strlit("1");
        reveal_strlit("2");
        reveal_strlit("3");
        reveal_strlit("4");
        reveal_strlit("5");
        reveal_strlit("6");
        reveal_strlit("7");
        reveal_strlit("8");
        reveal_strlit("9");
    }
}

fn append_dec_u8(s: &mut String, n: u8)
    ensures
        final(s)@ == old(s)@ + spec_dec_u8(n),
{
    if n >= 100 {
        append_dec_digit(s, n / 100);
    }
    if n >= 10 {
        append_dec_digit(s, (n / 10) % 10);
    }
    append_dec_digit(s, n % 10);
    proof {
        if n < 10 {
            assert(s@ =~= old(s)@ + spec_dec_u8(n));
        } else if n < 100 {
            assert(n / 10 == (n / 10) % 10);
            assert(s@ =~= old(s)@ + spec_dec_u8(n));
        } else {
            assert(s@ =~= old(s)@ + spec_dec_u8(n));
        }
    }
}

/// Renders a packed firmware version as `"major.minor"`, the two bytes in
/// decimal joined by a dot.
pub fn version_string(hi: u8, lo: u8) -> (r: String)
    ensures
        r@ == spec_version_chars(hi, lo),
{
    let mut s = String::new();
    append_dec_u8(&mut s, hi);
    s.append(".");
    append_dec_u8(&mut s, lo);
    proof {
        assert(s@ =~= spec_version_chars(hi, lo));
    }
    s
}

} // verus!

