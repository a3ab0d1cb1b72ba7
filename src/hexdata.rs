use vstd::prelude::*;
use crate::numeral::{digit_value, is_hex_digit};

verus! {

/// Text that hex decoding accepts: an even number of hex digits.
pub open spec fn is_hex_text(s: Seq<u8>) -> bool {
    s.len() % 2 == 0 && forall|i: int| 0 <= i < s.len() ==> is_hex_digit(#[trigger] s[i])
}

/// The bytes that hex text writes, two digits per byte, high digit first.
pub open spec fn hex_bytes(s: Seq<u8>) -> Seq<u8> {
    Seq::new(
        s.len() / 2,
        |i: int| (digit_value(s[2 * i]) * 16 + digit_value(s[2 * i + 1])) as u8,
    )
}

/// The lowercase hex digit for a value below 16.
pub open spec fn hex_digit_char(n: nat) -> u8 {
    if n < 10 {
        (0x30 + n) as u8
    } else {
        (0x61 + n - 10) as u8
    }
}

/// The lowercase hex text of a byte sequence, two digits per byte.
pub open spec fn hex_text_of(b: Seq<u8>) -> Seq<u8> {
    Seq::new(
        2 * b.len(),
        |i: int|
            if i % 2 == 0 {
                hex_digit_char((b[i / 2] / 16) as nat)
            } else {
                hex_digit_char((b[i / 2] % 16) as nat)
            },
    )
}

#[verifier::external_type_specification]
#[verifier::external_body]
pub struct ExFromHexError(hex::FromHexError);

/// Relies on hex::decode: it accepts exactly the even-length strings of
/// digits 0-9, a-f, A-F, and turns each pair into one byte.
#[verifier::external_body]
pub(crate) fn decode_hex(s: &[u8]) -> (r: Result<Vec<u8>, hex::FromHexError>)
    ensures
        r is Ok <==> is_hex_text(s@),
        r matches Ok(v) ==> v@ == hex_bytes(s@),
{
    hex::decode(s)
}

/// Writing bytes as hex text and decoding that text gives the bytes back.
pub proof fn lemma_hex_round_trip(b: Seq<u8>)
    ensures
        is_hex_text(hex_text_of(b)),
        hex_bytes(hex_text_of(b)) == b,
{
    let t = hex_text_of(b);
    assert forall|i: int| 0 <= i < t.len() implies is_hex_digit(#[trigger] t[i]) by {
        let x = b[i / 2];
        assert(x / 16 < 16 && x % 16 < 16);
    }
    assert(t.len() % 2 == 0) by (nonlinear_arith)
        requires
            t.len() == 2 * b.len(),
    ;
    assert forall|k: int| 0 <= k < b.len() implies #[trigger] hex_bytes(t)[k] == b[k] by {
        let x = b[k];
        assert((2 * k) / 2 == k && (2 * k) % 2 == 0);
        assert((2 * k + 1) / 2 == k && (2 * k + 1) % 2 == 1);
        assert(digit_value(hex_digit_char((x / 16) as nat)) == x / 16);
        assert(digit_value(hex_digit_char((x % 16) as nat)) == x % 16);
        assert((x / 16) * 16 + x % 16 == x);
    }
    assert(hex_bytes(t) =~= b);
}

} // verus!
