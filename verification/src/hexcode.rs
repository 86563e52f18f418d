//! Decoding of the hexadecimal transaction text the node serves into raw
//! bytes. Ids and raw transactions travel as ASCII hex; only the decoding
//! direction is needed here.

use vstd::prelude::*;

verus! {

/// Is this byte an ASCII hexadecimal digit? Digits 0-9 are 0x30-0x39,
/// lowercase a-f are 0x61-0x66, uppercase A-F are 0x41-0x46.
pub open spec fn is_hex_digit(b: u8) -> bool {
    (0x30 <= b <= 0x39) || (0x61 <= b <= 0x66) || (0x41 <= b <= 0x46)
}

/// The value of one ASCII hexadecimal digit.
pub open spec fn hex_val(b: u8) -> u8
    recommends
        is_hex_digit(b),
{
    if 0x30 <= b <= 0x39 {
        (b - 0x30) as u8
    } else if 0x61 <= b <= 0x66 {
        (b - 0x61 + 10) as u8
    } else {
        (b - 0x41 + 10) as u8
    }
}

/// A well-formed hex text: an even number of hex digits.
pub open spec fn is_hex_str(s: Seq<u8>) -> bool {
    s.len() % 2 == 0 && forall|i: int| 0 <= i < s.len() ==> is_hex_digit(#[trigger] s[i])
}

/// The bytes a hex text denotes, two digits to a byte, high digit first.
pub open spec fn hex_decode_spec(s: Seq<u8>) -> Seq<u8>
    decreases s.len(),
{
    if s.len() < 2 {
        Seq::empty()
    } else {
        seq![(hex_val(s[0]) * 16 + hex_val(s[1])) as u8] + hex_decode_spec(s.skip(2))
    }
}

fn hex_digit_value(b: u8) -> (r: Option<u8>)
    ensures
        r is Some <==> is_hex_digit(b),
        is_hex_digit(b) ==> r == Some(hex_val(b)),
{
    if 0x30 <= b && b <= 0x39 {
        Some(b - 0x30)
    } else if 0x61 <= b && b <= 0x66 {
        Some(b - 0x61 + 10)
    } else if 0x41 <= b && b <= 0x46 {
        Some(b - 0x41 + 10)
    } else {
        None
    }
}

/// Decode a hex text into bytes: the decoded bytes for a well-formed text,
/// nothing for a text with a stray character or an odd length.
pub fn hex_decode(s: &Vec<u8>) -> (r: Option<Vec<u8>>)
    ensures
        r is Some <==> is_hex_str(s@),
        is_hex_str(s@) ==> (r matches Some(v) && v@ == hex_decode_spec(s@)),
{
    if s.len() % 2 != 0 {
        return None;
    }
    let mut out: Vec<u8> = Vec::new();
    let mut i: usize = 0;
    proof {
        assert(s@.skip(0) =~= s@);
    }
    while i < s.len()
        invariant
            i <= s@.len(),
            i % 2 == 0,
            s@.len() % 2 == 0,
            forall|j: int| 0 <= j < i ==> is_hex_digit(#[trigger] s@[j]),
            out@ + hex_decode_spec(s@.skip(i as int)) == hex_decode_spec(s@),
        decreases s@.len() - i,
    {
        let hi = match hex_digit_value(s[i]) {
            Some(v) => v,
            None => {
                return None;
            },
        };
        let lo = match hex_digit_value(s[i + 1]) {
            Some(v) => v,
            None => {
                return None;
            },
        };
        let ghost out0 = out@;
        out.push(hi * 16 + lo);
        proof {
            let rem = s@.skip(i as int);
            assert(rem[0] == s@[i as int] && rem[1] == s@[i + 1]);
            assert(rem.skip(2) =~= s@.skip(i + 2));
            assert(hex_decode_spec(rem) == seq![(hex_val(rem[0]) * 16 + hex_val(rem[1])) as u8]
                + hex_decode_spec(s@.skip(i + 2)));
            assert(out0 + hex_decode_spec(rem) =~= (out0 + seq![(hex_val(rem[0]) * 16 + hex_val(
                rem[1],
            )) as u8]) + hex_decode_spec(s@.skip(i + 2)));
            assert(out@ =~= out0 + seq![(hex_val(rem[0]) * 16 + hex_val(rem[1])) as u8]);
        }
        i = i + 2;
    }
    proof {
        assert(s@.skip(s@.len() as int) =~= Seq::<u8>::empty());
        assert(out@ + Seq::<u8>::empty() =~= out@);
    }
    Some(out)
}

} // verus!
