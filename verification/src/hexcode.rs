//! Decoding hexadecimal digest text into raw bytes.

use vstd::prelude::*;

verus! {

/// Whether a byte is the ASCII code of a hexadecimal digit.
pub open spec fn is_hex_digit(b: u8) -> bool {
    (48 <= b <= 57) || (65 <= b <= 70) || (97 <= b <= 102)
}

/// The numeric value of the hexadecimal digit with ASCII code `b`.
pub open spec fn hex_val(b: u8) -> u8
    recommends
        is_hex_digit(b),
{
    if 48 <= b <= 57 {
        (b - 48) as u8
    } else if 65 <= b <= 70 {
        (b - 55) as u8
    } else {
        (b - 87) as u8
    }
}

/// Whether a byte string is well-formed hexadecimal text: an even number of
/// bytes, each the ASCII code of a hexadecimal digit.
pub open spec fn hex_ok(s: Seq<u8>) -> bool {
    &&& s.len() % 2 == 0
    &&& forall|i: int| 0 <= i < s.len() ==> is_hex_digit(#[trigger] s[i])
}

/// The bytes denoted by hexadecimal text: each pair of digits gives one byte,
/// high digit first.
pub open spec fn hex_bytes(s: Seq<u8>) -> Seq<u8>
    recommends
        hex_ok(s),
{
    Seq::new((s.len() / 2) as nat, |i: int| ((hex_val(s[2 * i]) * 16 + hex_val(s[2 * i + 1])) as u8))
}

/// Why a byte string failed to decode as hexadecimal text.
#[derive(Debug, PartialEq, Eq)]
pub enum HexError {
    /// The text's length is odd, so its last digit has no partner.
    OddLength,
    /// Some byte is not the ASCII code of a hexadecimal digit.
    InvalidDigit,
}

/// The numeric value of one hexadecimal digit, or `None` for any other byte.
fn hex_digit_value(b: u8) -> (r: Option<u8>)
    ensures
        r is Some <==> is_hex_digit(b),
        r is Some ==> r->0 == hex_val(b),
{
    if 48 <= b && b <= 57 {
        Some(b - 48)
    } else if 65 <= b && b <= 70 {
        Some(b - 55)
    } else if 97 <= b && b <= 102 {
        Some(b - 87)
    } else {
        None
    }
}

/// Decodes hexadecimal text into the raw bytes it denotes. Fails exactly on
/// text of odd length (reported as `OddLength`, whatever its digits) and on
/// text of even length holding a non-digit byte (reported as `InvalidDigit`).
pub fn decode_hex(s: &[u8]) -> (r: Result<Vec<u8>, HexError>)
    ensures
        r is Ok <==> hex_ok(s@),
        r is Ok ==> r->Ok_0@ == hex_bytes(s@),
        r == Result::<Vec<u8>, HexError>::Err(HexError::OddLength) <==> s@.len() % 2 != 0,
{
    let n = s.len();
    if n % 2 != 0 {
        return Err(HexError::OddLength);
    }
    let mut out: Vec<u8> = Vec::new();
    let mut i: usize = 0;
    while i < n
        invariant
            n == s@.len(),
            n % 2 == 0,
            i % 2 == 0,
            0 <= i <= n,
            out@.len() == i / 2,
            forall|j: int| 0 <= j < i ==> is_hex_digit(#[trigger] s@[j]),
            forall|j: int|
                0 <= j < i / 2 ==> #[trigger] out@[j] == ((hex_val(s@[2 * j]) * 16 + hex_val(
                    s@[2 * j + 1],
                )) as u8),
        decreases n - i,
    {
        let hi = match hex_digit_value(s[i]) {
            Some(v) => v,
            None => {
                return Err(HexError::InvalidDigit);
            },
        };
        let lo = match hex_digit_value(s[i + 1]) {
            Some(v) => v,
            None => {
                return Err(HexError::InvalidDigit);
            },
        };
        out.push(hi * 16 + lo);
        i = i + 2;
    }
    proof {
        assert(out@ =~= hex_bytes(s@));
    }
    Ok(out)
}

} // verus!
