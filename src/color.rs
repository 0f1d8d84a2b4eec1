use vstd::prelude::*;

verus! {

pub open spec fn is_hex_digit(c: char) -> bool {
    ('0' <= c && c <= '9') || ('a' <= c && c <= 'f') || ('A' <= c && c <= 'F')
}

/// The value of one hexadecimal digit.
pub open spec fn hex_value(c: char) -> int {
    if '0' <= c && c <= '9' {
        c as int - '0' as int
    } else if 'a' <= c && c <= 'f' {
        c as int - 'a' as int + 10
    } else {
        c as int - 'A' as int + 10
    }
}

/// The byte written by the two digits at `i` and `i + 1`.
pub open spec fn hex_byte(d: Seq<char>, i: int) -> int {
    16 * hex_value(d[i]) + hex_value(d[i + 1])
}

/// The RGBA value, packed big-endian into 32 bits, that a run of hex digits
/// spells: `w`, `ww`, `rgb`, `rgba`, `rrggbb` or `rrggbbaa`; a missing alpha is
/// opaque and a single digit stands for both of its byte's nibbles.
pub open spec fn packed_color(d: Seq<char>) -> Option<u32> {
    if !(forall|i: int| 0 <= i < d.len() ==> is_hex_digit(#[trigger] d[i])) {
        None
    } else if d.len() == 1 {
        Some((hex_value(d[0]) * 0x1111_1100 + 0xff) as u32)
    } else if d.len() == 2 {
        Some((hex_byte(d, 0) * 0x0101_0100 + 0xff) as u32)
    } else if d.len() == 3 {
        Some((hex_value(d[0]) * 0x1100_0000 + hex_value(d[1]) * 0x11_0000 + hex_value(d[2])
            * 0x1100 + 0xff) as u32)
    } else if d.len() == 4 {
        Some((hex_value(d[0]) * 0x1100_0000 + hex_value(d[1]) * 0x11_0000 + hex_value(d[2])
            * 0x1100 + hex_value(d[3]) * 0x11) as u32)
    } else if d.len() == 6 {
        Some((hex_byte(d, 0) * 0x100_0000 + hex_byte(d, 2) * 0x1_0000 + hex_byte(d, 4) * 0x100
            + 0xff) as u32)
    } else if d.len() == 8 {
        Some((hex_byte(d, 0) * 0x100_0000 + hex_byte(d, 2) * 0x1_0000 + hex_byte(d, 4) * 0x100
            + hex_byte(d, 6)) as u32)
    } else {
        None
    }
}

/// Relies on makepad_live_tokenizer::colorhex::hex_bytes_to_u32: it decodes the
/// lengths 1, 2, 3, 4, 6 and 8 as `packed_color` states and fails on any other.
#[verifier::external_body]
pub(crate) fn hex_digits_to_u32(digits: &Vec<char>) -> (r: Option<u32>)
    requires
        forall|i: int| 0 <= i < digits@.len() ==> is_hex_digit(#[trigger] digits@[i]),
    ensures
        r == packed_color(digits@),
{
    let bytes: Vec<u8> = digits.iter().map(|c| *c as u8).collect();
    makepad_live_tokenizer::colorhex::hex_bytes_to_u32(&bytes).ok()
}

} // verus!
