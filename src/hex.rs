use crate::error::DecodeError;
use vstd::prelude::*;

verus! {

/// The value of an ASCII hexadecimal digit, either case ('0' is 48, 'A'
/// is 65, 'a' is 97).
pub open spec fn hex_digit(c: u8) -> Option<nat> {
    if 48 <= c <= 57 {
        Some((c - 48) as nat)
    } else if 65 <= c <= 70 {
        Some((c - 55) as nat)
    } else if 97 <= c <= 102 {
        Some((c - 87) as nat)
    } else {
        None
    }
}

/// Every character of `s` is a hexadecimal digit.
pub open spec fn is_hex(s: Seq<u8>) -> bool {
    forall|i: int| 0 <= i < s.len() ==> (#[trigger] hex_digit(s[i])) is Some
}

/// The digit at `i`, or 0 past the end of `s`.
pub open spec fn digit_or_zero(s: Seq<u8>, i: int) -> nat {
    if 0 <= i < s.len() {
        match hex_digit(s[i]) {
            Some(d) => d,
            None => 0,
        }
    } else {
        0
    }
}

/// The bytes that hexadecimal text stands for: each pair of digits makes
/// one byte, high digit first, and an odd last digit is padded with zero.
pub open spec fn hex_bytes(s: Seq<u8>) -> Seq<u8> {
    Seq::new(
        ((s.len() + 1) / 2) as nat,
        |k: int| (digit_or_zero(s, 2 * k) * 16 + digit_or_zero(s, 2 * k + 1)) as u8,
    )
}

/// The value of one hexadecimal digit.
pub fn hex_value(c: u8) -> (r: Option<u8>)
    ensures
        match hex_digit(c) {
            Some(d) => r == Some(d as u8),
            None => r is None,
        },
{
    if 48 <= c && c <= 57 {
        Some(c - 48)
    } else if 65 <= c && c <= 70 {
        Some(c - 55)
    } else if 97 <= c && c <= 102 {
        Some(c - 87)
    } else {
        None
    }
}

/// Decodes hexadecimal text into bytes. Fails on the first character that
/// is not a hexadecimal digit.
pub fn decode_hex(text: &[u8]) -> (r: Result<Vec<u8>, DecodeError>)
    ensures
        is_hex(text@) ==> (r matches Ok(b) && b@ == hex_bytes(text@)),
        !is_hex(text@) ==> r == Err::<Vec<u8>, DecodeError>(DecodeError::BadHexDigit),
{
    let mut out: Vec<u8> = Vec::new();
    let mut i: usize = 0;
    while i < text.len()
        invariant
            i <= text.len(),
            i % 2 == 0 || i == text.len(),
            out.len() == (i + 1) / 2,
            forall|j: int| 0 <= j < i && j < text.len() ==> (#[trigger] hex_digit(text@[j])) is Some,
            forall|k: int| 0 <= k < out.len() ==> #[trigger] out@[k] == hex_bytes(text@)[k],
        decreases text.len() - i,
    {
        let high = match hex_value(text[i]) {
            Some(h) => h,
            None => return Err(DecodeError::BadHexDigit),
        };
        let low = if text.len() - i > 1 {
            match hex_value(text[i + 1]) {
                Some(l) => l,
                None => return Err(DecodeError::BadHexDigit),
            }
        } else {
            0
        };
        out.push(high * 16 + low);
        if text.len() - i > 1 {
            i = i + 2;
        } else {
            i = i + 1;
        }
    }
    proof {
        assert(is_hex(text@));
        assert(out@ =~= hex_bytes(text@));
    }
    Ok(out)
}

} // verus!
