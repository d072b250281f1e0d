//! The calls into outside crates: hashing and the writing of identifiers.
//! Each item here is believed, not proved; its doc comment says what it claims.

use vstd::prelude::*;

use crate::text::hex_char;

verus! {

/// A lowercase hexadecimal digit: `0`-`9` or `a`-`f`.
pub open spec fn is_lower_hex(c: char) -> bool {
    ('0' <= c && c <= '9') || ('a' <= c && c <= 'f')
}

/// The SHA-256 digest of the UTF-8 bytes of a text, written as lowercase hexadecimal.
pub uninterp spec fn sha256_hex(text: Seq<char>) -> Seq<char>;

/// Calls `sha256::digest` on a `&str`. That crate hashes the text's bytes with
/// `sha2::Sha256` and returns `hex::encode` of the 32-byte digest. Claimed: the result
/// is `sha256_hex` of the text, and it is 64 lowercase hexadecimal digits.
#[verifier::external_body]
pub(crate) fn sha256_digest(text: &str) -> (digest: String)
    ensures
        digest@ == sha256_hex(text@),
        digest@.len() == 64,
        forall|i: int| 0 <= i < 64 ==> #[trigger] is_lower_hex(digest@[i]),
{
    sha256::digest(text)
}

/// A digit that a version-4 UUID's variant takes: `8`, `9`, `a` or `b`.
pub open spec fn is_variant_digit(c: char) -> bool {
    c == '8' || c == '9' || c == 'a' || c == 'b'
}

/// Where the hyphens stand in the text of a UUID.
pub open spec fn is_hyphen_position(i: int) -> bool {
    i == 8 || i == 13 || i == 18 || i == 23
}

/// Counts the hyphen positions before `i`.
pub open spec fn hyphens_before(i: int) -> int {
    (if i > 8 { 1int } else { 0 }) + (if i > 13 { 1int } else { 0 }) + (if i > 18 { 1int } else { 0 })
        + (if i > 23 { 1int } else { 0 })
}

/// Byte `i` of a version-4 UUID made from `random`: byte 6 carries the version 4 in its
/// high half, byte 8 the variant bits `10` at its top; the others are the random bytes.
pub open spec fn v4_byte(random: Seq<u8>, i: int) -> u8 {
    if i == 6 {
        (random[6] & 0x0f) | 0x40
    } else if i == 8 {
        (random[8] & 0x3f) | 0x80
    } else {
        random[i]
    }
}

/// Hexadecimal digit `k` (from 0 to 31) of a version-4 UUID made from `random`: each
/// byte gives its high half, then its low half.
pub open spec fn uuid_digit(random: Seq<u8>, k: int) -> char {
    let b = v4_byte(random, k / 2);
    if k % 2 == 0 {
        hex_char((b >> 4u8) as nat)
    } else {
        hex_char((b & 0x0f) as nat)
    }
}

/// The 32 hexadecimal digits of a version-4 UUID made from `random`.
pub open spec fn plain_uuid(random: Seq<u8>) -> Seq<char> {
    Seq::new(32, |k: int| uuid_digit(random, k))
}

/// The text of a version-4 UUID made from `random`: its 32 digits in groups 8-4-4-4-12
/// joined by hyphens.
pub open spec fn hyphenated_uuid(random: Seq<u8>) -> Seq<char> {
    Seq::new(
        36,
        |k: int|
            if is_hyphen_position(k) {
                '-'
            } else {
                uuid_digit(random, k - hyphens_before(k))
            },
    )
}

/// Makes a version-4 UUID from 16 random bytes with `uuid::Builder::from_random_bytes`
/// and writes it with `Display`. `from_random_bytes` keeps the bytes but sets the high
/// half of byte 6 to the version 4 and the top two bits of byte 8 to `10`; `Display`
/// writes each byte as two lowercase hexadecimal digits, high half first, in groups
/// 8-4-4-4-12 joined by hyphens. Claimed: the text is `hyphenated_uuid` of the bytes.
#[verifier::external_body]
pub(crate) fn uuid_v4_text(random: [u8; 16]) -> (text: String)
    ensures
        text@ == hyphenated_uuid(random@),
{
    uuid::Builder::from_random_bytes(random).into_uuid().to_string()
}

/// An identifier as the nodes write it: the 32 lowercase hexadecimal digits of a
/// version-4 UUID, without hyphens.
pub open spec fn is_plain_uuid(id: Seq<char>) -> bool {
    &&& id.len() == 32
    &&& forall|i: int| 0 <= i < 32 ==> #[trigger] is_lower_hex(id[i])
    &&& id[12] == '4'
    &&& is_variant_digit(id[16])
}

/// The digits of a version-4 UUID are lowercase hexadecimal, with the version and
/// variant where they belong.
pub proof fn lemma_plain_uuid_shape(random: Seq<u8>)
    requires
        random.len() == 16,
    ensures
        is_plain_uuid(plain_uuid(random)),
{
    let p = plain_uuid(random);
    assert forall|k: int| 0 <= k < 32 implies #[trigger] is_lower_hex(p[k]) by {
        let b = v4_byte(random, k / 2);
        assert(b >> 4u8 < 16) by (bit_vector);
        assert(b & 0x0f < 16) by (bit_vector);
    }
    let b6 = random[6];
    let b8 = random[8];
    assert((((b6 & 0x0f) | 0x40) >> 4u8) == 4) by (bit_vector);
    assert(8 <= (((b8 & 0x3f) | 0x80) >> 4u8) <= 11) by (bit_vector);
}

/// The identifier made from 16 random bytes: the text of a version-4 UUID with its
/// hyphens removed.
pub fn new_id(random: [u8; 16]) -> (id: String)
    ensures
        id@ == plain_uuid(random@),
        is_plain_uuid(id@),
{
    let text = uuid_v4_text(random);
    let ghost plain = plain_uuid(random@);
    let mut id = String::new();
    let mut i: usize = 0;
    while i < 36
        invariant
            text@ == hyphenated_uuid(random@),
            plain == plain_uuid(random@),
            i <= 36,
            id@ == plain.take(i - hyphens_before(i as int)),
        decreases 36 - i,
    {
        let c = text.as_str().get_char(i);
        if c != '-' {
            crate::text::push_char(&mut id, c);
            proof {
                if is_hyphen_position(i as int) {
                    assert(text@[i as int] == '-');
                }
                assert(id@ =~= plain.take(i + 1 - hyphens_before(i + 1)));
            }
        } else {
            proof {
                let b = v4_byte(random@, (i - hyphens_before(i as int)) / 2);
                assert(b >> 4u8 < 16) by (bit_vector);
                assert(b & 0x0f < 16) by (bit_vector);
                if !is_hyphen_position(i as int) {
                    assert(c == uuid_digit(random@, i - hyphens_before(i as int)));
                }
            }
        }
        i = i + 1;
    }
    assert(id@ =~= plain);
    proof {
        lemma_plain_uuid_shape(random@);
    }
    id
}

} // verus!
