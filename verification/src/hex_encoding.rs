//! Lowercase hexadecimal rendering of digest bytes.

use vstd::prelude::*;

verus! {

/// The lowercase hexadecimal digit character for a value between 0 and 15.
pub open spec fn hex_digit(n: int) -> char
    recommends
        0 <= n < 16,
{
    "0123456789abcdef"@[n]
}

/// The hexadecimal rendering of a byte sequence: two digit characters per
/// byte, high nibble first.
pub open spec fn hex_chars_of(bytes: Seq<u8>) -> Seq<char> {
    Seq::new(
        2 * bytes.len(),
        |i: int|
            if i % 2 == 0 {
                hex_digit((bytes[i / 2] >> 4) as int)
            } else {
                hex_digit((bytes[i / 2] & 0xf) as int)
            },
    )
}

/// Converts a hash to a hex string.
pub fn bytes_to_hex(bytes: &[u8]) -> (s: String)
    ensures
        s@ == hex_chars_of(bytes@),
{
    let table = "0123456789abcdef";
    proof {
        reveal_strlit("0123456789abcdef");
    }
    let mut s = String::new();
    let mut i: usize = 0;
    while i < bytes.len()
        invariant
            i <= bytes@.len(),
            table@ == "0123456789abcdef"@,
            table@.len() == 16,
            s@ =~= hex_chars_of(bytes@).take(2 * i as int),
        decreases bytes@.len() - i,
    {
        let b = bytes[i];
        let hi = (b >> 4) as usize;
        let lo = (b & 0xf) as usize;
        proof {
            assert((b >> 4) < 16 && (b & 0xf) < 16) by (bit_vector);
        }
        s.append(table.substring_char(hi, hi + 1));
        s.append(table.substring_char(lo, lo + 1));
        i = i + 1;
        proof {
            assert(s@ =~= hex_chars_of(bytes@).take(2 * i as int));
        }
    }
    proof {
        assert(s@ =~= hex_chars_of(bytes@));
    }
    s
}

/// Utility trait for converting hashes to hex strings.
pub trait Encodable {
    /// The bytes that the hexadecimal rendering describes.
    spec fn enc_bytes(&self) -> Seq<u8>;

    /// Converts a hash to a hex string.
    fn to_hex_string(&self) -> (s: String)
        ensures
            s@ == hex_chars_of(self.enc_bytes()),
    ;
}

impl Encodable for Vec<u8> {
    open spec fn enc_bytes(&self) -> Seq<u8> {
        self@
    }

    fn to_hex_string(&self) -> (s: String) {
        bytes_to_hex(self.as_slice())
    }
}

impl Encodable for [u8] {
    open spec fn enc_bytes(&self) -> Seq<u8> {
        self@
    }

    fn to_hex_string(&self) -> (s: String) {
        bytes_to_hex(self)
    }
}

} // verus!
