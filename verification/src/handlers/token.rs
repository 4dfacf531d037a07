//! Voting tokens and nonce hashes.

use crate::hex_digits::hex_digit;
use base64::Engine;
use vstd::prelude::*;
use vstd::slice::slice_to_vec;

verus! {

/// The bytes that a text stands for in standard, padded base64, if it is that.
pub uninterp spec fn base64_decoded(text: Seq<char>) -> Option<Seq<u8>>;

/// `base64::engine::general_purpose::STANDARD.decode`: the bytes, or nothing if
/// the text is no standard, padded base64. It depends on the text alone; which
/// texts decode, and to what, stays unsaid.
#[verifier::external_body]
pub(crate) fn base64_decode(text: &str) -> (bytes: Option<Vec<u8>>)
    ensures
        match bytes {
            Some(b) => base64_decoded(text@) == Some(b@),
            None => base64_decoded(text@) is None,
        },
{
    base64::engine::general_purpose::STANDARD.decode(text).ok()
}

/// The value of a hexadecimal digit of either case.
pub open spec fn hex_value(c: char) -> Option<int> {
    if '0' <= c <= '9' {
        Some(c as int - 48)
    } else if 'a' <= c <= 'f' {
        Some(c as int - 87)
    } else if 'A' <= c <= 'F' {
        Some(c as int - 55)
    } else {
        None
    }
}

/// Whether a text is pairs of hexadecimal digits.
pub open spec fn is_hex(text: Seq<char>) -> bool {
    &&& text.len() % 2 == 0
    &&& forall|i: int| 0 <= i < text.len() ==> hex_value(#[trigger] text[i]) is Some
}

/// The bytes that pairs of hexadecimal digits stand for.
pub open spec fn hex_decoded(text: Seq<char>) -> Option<Seq<u8>> {
    if is_hex(text) {
        Some(
            Seq::new(
                text.len() / 2,
                |i: int| (16 * hex_value(text[2 * i])->0 + hex_value(text[2 * i + 1])->0) as u8,
            ),
        )
    } else {
        None
    }
}

/// Bytes in lower-case hexadecimal, two digits each.
pub open spec fn hex_encoded(bytes: Seq<u8>) -> Seq<char> {
    Seq::new(
        2 * bytes.len(),
        |i: int| hex_digit(if i % 2 == 0 { bytes[i / 2] / 16 } else { bytes[i / 2] % 16 } as int),
    )
}

/// `hex::decode`: the bytes of pairs of hexadecimal digits, of either case or
/// mixed, and nothing for any other text.
#[verifier::external_body]
pub(crate) fn hex_decode(text: &str) -> (bytes: Option<Vec<u8>>)
    ensures
        match bytes {
            Some(b) => hex_decoded(text@) == Some(b@),
            None => hex_decoded(text@) is None,
        },
{
    hex::decode(text).ok()
}

/// `hex::encode`: two lower-case digits for each byte.
#[verifier::external_body]
pub(crate) fn hex_encode(bytes: &[u8]) -> (text: String)
    ensures
        text@ == hex_encoded(bytes@),
{
    hex::encode(bytes)
}

/// A hexadecimal digit in lower case; any other character as it is.
pub open spec fn lower_hex(c: char) -> char {
    if 'A' <= c <= 'F' {
        (c as u8 + 32) as u8 as char
    } else {
        c
    }
}

/// A text with its hexadecimal digits in lower case.
pub open spec fn lower_hex_text(text: Seq<char>) -> Seq<char> {
    text.map_values(|c: char| lower_hex(c))
}

proof fn lemma_digit_values(value: int)
    requires
        0 <= value < 16,
    ensures
        hex_value(hex_digit(value)) == Some(value),
{
}

proof fn lemma_value_digits(c: char)
    requires
        hex_value(c) is Some,
    ensures
        0 <= hex_value(c)->0 < 16,
        hex_digit(hex_value(c)->0) == lower_hex(c),
{
}

/// Decoding gives back the bytes that were encoded.
pub proof fn law_hex_round_trip(bytes: Seq<u8>)
    ensures
        hex_decoded(hex_encoded(bytes)) == Some(bytes),
{
    let text = hex_encoded(bytes);
    assert forall|i: int| 0 <= i < text.len() implies hex_value(#[trigger] text[i]) == Some(
        if i % 2 == 0 {
            bytes[i / 2] / 16
        } else {
            bytes[i / 2] % 16
        } as int,
    ) by {
        lemma_digit_values(
            if i % 2 == 0 {
                bytes[i / 2] / 16
            } else {
                bytes[i / 2] % 16
            } as int,
        );
    }
    let back = hex_decoded(text)->0;
    assert forall|i: int| 0 <= i < bytes.len() implies back[i] == bytes[i] by {
        assert(hex_value(text[2 * i]) == Some((bytes[i] / 16) as int));
        assert(hex_value(text[2 * i + 1]) == Some((bytes[i] % 16) as int));
    }
    assert(back =~= bytes);
}

/// The canonical form of a nonce hash, its bytes encoded again, is the hash in
/// lower case.
pub proof fn law_canonical_is_lower_case(text: Seq<char>)
    requires
        is_hex(text),
    ensures
        hex_encoded(hex_decoded(text)->0) == lower_hex_text(text),
{
    let bytes = hex_decoded(text)->0;
    assert forall|i: int| 0 <= i < text.len() implies hex_encoded(bytes)[i] == lower_hex(
        text[i],
    ) by {
        let h = i / 2;
        lemma_value_digits(text[2 * h]);
        lemma_value_digits(text[2 * h + 1]);
        let high = hex_value(text[2 * h])->0;
        let low = hex_value(text[2 * h + 1])->0;
        assert(bytes[h] == 16 * high + low);
        assert(bytes[h] / 16 == high && bytes[h] % 16 == low);
    }
    assert(hex_encoded(bytes) =~= lower_hex_text(text));
}

/// A used nonce cannot pass as a fresh one by changing the case of its hash:
/// hashes that differ in case only have the same bytes and the same canonical
/// form, and if one of them is refused, so is the other.
pub proof fn law_case_does_not_matter(a: Seq<char>, b: Seq<char>)
    requires
        lower_hex_text(a) == lower_hex_text(b),
    ensures
        hex_decoded(a) == hex_decoded(b),
{
    assert(a.len() == lower_hex_text(a).len() && b.len() == lower_hex_text(b).len());
    assert forall|i: int| 0 <= i < a.len() implies hex_value(#[trigger] a[i]) == hex_value(b[i]) by {
        assert(lower_hex_text(a)[i] == lower_hex(a[i]));
        assert(lower_hex_text(b)[i] == lower_hex(b[i]));
        assert(hex_value(lower_hex(a[i])) == hex_value(a[i]));
        assert(hex_value(lower_hex(b[i])) == hex_value(b[i]));
    }
    assert forall|i: int| 0 <= i < b.len() implies hex_value(#[trigger] b[i]) == hex_value(a[i]) by {
        assert(hex_value(a[i]) == hex_value(b[i]));
    }
    if is_hex(a) {
        assert(hex_decoded(a)->0 =~= hex_decoded(b)->0);
    }
}

/// The length of the message randomizer at the end of a token.
pub const RANDOMIZER_LEN: usize = 32;

/// The parts of a voting token.
pub struct TokenParts {
    pub signature: Vec<u8>,
    pub msg_randomizer: Vec<u8>,
}

/// Parts a decoded token: the last bytes are the message randomizer, and what
/// comes before them, which must not be nothing, is the signature.
pub fn split_token(token: &[u8]) -> (parts: Option<TokenParts>)
    ensures
        match parts {
            Some(p) => token@.len() > RANDOMIZER_LEN && p.signature@ == token@.take(
                token@.len() - RANDOMIZER_LEN,
            ) && p.msg_randomizer@ == token@.skip(token@.len() - RANDOMIZER_LEN),
            None => token@.len() <= RANDOMIZER_LEN,
        },
{
    if token.len() <= RANDOMIZER_LEN {
        return None;
    }
    let (signature, msg_randomizer) = token.split_at(token.len() - RANDOMIZER_LEN);
    let parts = TokenParts {
        signature: slice_to_vec(signature),
        msg_randomizer: slice_to_vec(msg_randomizer),
    };
    assert(parts.signature@ =~= token@.take(token@.len() - RANDOMIZER_LEN));
    assert(parts.msg_randomizer@ =~= token@.skip(token@.len() - RANDOMIZER_LEN));
    Some(parts)
}

} // verus!
