use vstd::prelude::*;

verus! {

/// One nibble rendered as a lowercase hexadecimal character.
pub open spec fn spec_hex_digit_lower(n: u8) -> char
    recommends
        n < 16,
{
    if n < 10 {
        ((n + 48) as u8) as char
    } else {
        ((n + 87) as u8) as char
    }
}

/// One nibble rendered as an uppercase hexadecimal character.
pub open spec fn spec_hex_digit_upper(n: u8) -> char
    recommends
        n < 16,
{
    if n < 10 {
        ((n + 48) as u8) as char
    } else {
        ((n + 55) as u8) as char
    }
}

/// Lowercase hexadecimal rendering of a byte string: two characters per byte,
/// high nibble first.
pub open spec fn spec_hex_lower(b: Seq<u8>) -> Seq<char> {
    Seq::new(
        2 * b.len(),
        |i: int|
            if i % 2 == 0 {
                spec_hex_digit_lower(b[i / 2] / 16)
            } else {
                spec_hex_digit_lower(b[i / 2] % 16)
            },
    )
}

/// Uppercase hexadecimal rendering of a byte string.
pub open spec fn spec_hex_upper(b: Seq<u8>) -> Seq<char> {
    Seq::new(
        2 * b.len(),
        |i: int|
            if i % 2 == 0 {
                spec_hex_digit_upper(b[i / 2] / 16)
            } else {
                spec_hex_digit_upper(b[i / 2] % 16)
            },
    )
}

pub open spec fn spec_is_hex_digit(c: char) -> bool {
    (48 <= c as u32 && c as u32 <= 57) || (65 <= c as u32 && c as u32 <= 70) || (97 <= c as u32
        && c as u32 <= 102)
}

pub open spec fn spec_is_upper_hex_digit(c: char) -> bool {
    (48 <= c as u32 && c as u32 <= 57) || (65 <= c as u32 && c as u32 <= 70)
}

/// Value of one hexadecimal digit character, either case.
pub open spec fn spec_hex_char_val(c: char) -> u8 {
    if 48 <= c as u32 && c as u32 <= 57 {
        (c as u32 - 48) as u8
    } else if 65 <= c as u32 && c as u32 <= 70 {
        (c as u32 - 55) as u8
    } else if 97 <= c as u32 && c as u32 <= 102 {
        (c as u32 - 87) as u8
    } else {
        0
    }
}

/// A string that decodes as hex: even length, every character a hex digit.
pub open spec fn spec_is_hex_string(s: Seq<char>) -> bool {
    s.len() % 2 == 0 && forall|i: int| 0 <= i < s.len() ==> spec_is_hex_digit(#[trigger] s[i])
}

/// Bytes of a hex string: each pair of digits gives one byte.
pub open spec fn spec_hex_decode(s: Seq<char>) -> Seq<u8> {
    Seq::new(
        s.len() / 2,
        |i: int| (16 * spec_hex_char_val(s[2 * i]) + spec_hex_char_val(s[2 * i + 1])) as u8,
    )
}

/// Relies on hex::encode: every byte becomes two lowercase hexadecimal
/// digits, high nibble first.
#[verifier::external_body]
pub(crate) fn hex_encode(b: &Vec<u8>) -> (r: String)
    ensures
        r@ == spec_hex_lower(b@),
{
    hex::encode(b)
}

/// Relies on hex::encode_upper: every byte becomes two uppercase hexadecimal
/// digits, high nibble first.
#[verifier::external_body]
pub(crate) fn hex_encode_upper(b: &Vec<u8>) -> (r: String)
    ensures
        r@ == spec_hex_upper(b@),
{
    hex::encode_upper(b)
}

/// Relies on hex::decode: it succeeds exactly on input of even length whose
/// characters are all hexadecimal digits of either case, and then yields one
/// byte per digit pair.  (A character outside ASCII encodes to bytes that are
/// never hex digits, so such input is refused under both readings.)
#[verifier::external_body]
pub(crate) fn hex_decode(s: &str) -> (r: Option<Vec<u8>>)
    ensures
        r is Some <==> spec_is_hex_string(s@),
        r matches Some(v) ==> v@ == spec_hex_decode(s@),
{
    hex::decode(s).ok()
}

/// Value of a hex numeral read left to right.
pub open spec fn spec_hex_str_val(s: Seq<char>) -> int
    decreases s.len(),
{
    if s.len() == 0 {
        0
    } else {
        spec_hex_str_val(s.drop_last()) * 16 + spec_hex_char_val(s.last())
    }
}

/// A hex numeral that denotes a 16-bit value: nonempty, all digits, in range.
pub open spec fn spec_is_hex_u16(s: Seq<char>) -> bool {
    s.len() > 0 && (forall|i: int| 0 <= i < s.len() ==> spec_is_hex_digit(#[trigger] s[i]))
        && spec_hex_str_val(s) < 0x10000
}

pub proof fn lemma_hex_val_nonneg(s: Seq<char>)
    ensures
        spec_hex_str_val(s) >= 0,
    decreases s.len(),
{
    if s.len() > 0 {
        lemma_hex_val_nonneg(s.drop_last());
    }
}

proof fn lemma_hex_val_prefix_le(s: Seq<char>, i: int)
    requires
        0 <= i <= s.len(),
    ensures
        spec_hex_str_val(s.take(i)) <= spec_hex_str_val(s),
    decreases s.len() - i,
{
    if i == s.len() {
        assert(s.take(i) =~= s);
    } else {
        lemma_hex_val_nonneg(s.take(i));
        assert(s.take(i + 1).drop_last() =~= s.take(i));
        assert(s.take(i + 1).last() == s[i]);
        lemma_hex_val_prefix_le(s, i + 1);
    }
}

fn hex_char_val(c: char) -> (r: Option<u8>)
    ensures
        r is Some <==> spec_is_hex_digit(c),
        r matches Some(v) ==> v == spec_hex_char_val(c) && v < 16,
{
    let u = c as u32;
    if 48 <= u && u <= 57 {
        Some((u - 48) as u8)
    } else if 65 <= u && u <= 70 {
        Some((u - 55) as u8)
    } else if 97 <= u && u <= 102 {
        Some((u - 87) as u8)
    } else {
        None
    }
}

/// Reads a hexadecimal numeral as a 16-bit value, as the configuration fields
/// for USB vendor and product ids require.  It succeeds exactly on a nonempty
/// all-hex-digit string whose value fits in 16 bits.
pub fn parse_hex_u16(s: &str) -> (r: Option<u16>)
    ensures
        r is Some <==> spec_is_hex_u16(s@),
        r matches Some(v) ==> v as int == spec_hex_str_val(s@),
{
    let n = s.unicode_len();
    if n == 0 {
        return None;
    }
    let mut acc: u32 = 0;
    let mut i: usize = 0;
    while i < n
        invariant
            i <= n,
            n == s@.len(),
            acc as int == spec_hex_str_val(s@.take(i as int)),
            acc <= 0xFFFF,
            forall|k: int| 0 <= k < i ==> spec_is_hex_digit(#[trigger] s@[k]),
        decreases n - i,
    {
        let c = s.get_char(i);
        let d = match hex_char_val(c) {
            Some(d) => d,
            None => {
                return None;
            },
        };
        let next: u32 = acc * 16 + d as u32;
        proof {
            assert(s@.take(i as int + 1).drop_last() =~= s@.take(i as int));
            assert(s@.take(i as int + 1).last() == s@[i as int]);
        }
        if next > 0xFFFF {
            proof {
                lemma_hex_val_prefix_le(s@, i as int + 1);
            }
            return None;
        }
        acc = next;
        i += 1;
    }
    proof {
        assert(s@.take(n as int) =~= s@);
    }
    Some(acc as u16)
}

/// Law: an uppercase hexadecimal rendering is of even length — two characters
/// a byte — and every character of it is an uppercase hex digit.
pub proof fn lemma_hex_upper_shape(b: Seq<u8>)
    ensures
        spec_hex_upper(b).len() == 2 * b.len(),
        spec_hex_upper(b).len() % 2 == 0,
        forall|i: int|
            0 <= i < spec_hex_upper(b).len() ==> spec_is_upper_hex_digit(
                #[trigger] spec_hex_upper(b)[i],
            ),
{
    assert forall|i: int| 0 <= i < spec_hex_upper(b).len() implies spec_is_upper_hex_digit(
        spec_hex_upper(b)[i],
    ) by {
        let n = if i % 2 == 0 {
            b[i / 2] / 16
        } else {
            b[i / 2] % 16
        };
        assert(n < 16);
        assert(spec_hex_upper(b)[i] == spec_hex_digit_upper(n));
    };
}

} // verus!
