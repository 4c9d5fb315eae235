//! Identifiers no one else has: a prefix and sixteen random bytes in hex.

use vstd::prelude::*;

use crate::text::join3;

verus! {

/// One hexadecimal digit.
pub open spec fn hex_digit(value: int) -> char {
    if value < 10 {
        crate::text::digit(value as nat)
    } else if value == 10 {
        'a'
    } else if value == 11 {
        'b'
    } else if value == 12 {
        'c'
    } else if value == 13 {
        'd'
    } else if value == 14 {
        'e'
    } else {
        'f'
    }
}

/// Bytes in lower-case hexadecimal, the high half of each byte first.
pub open spec fn hex(bytes: Seq<u8>) -> Seq<char> {
    Seq::new(
        2 * bytes.len(),
        |i: int|
            if i % 2 == 0 {
                hex_digit(bytes[i / 2] as int / 16)
            } else {
                hex_digit(bytes[i / 2] as int % 16)
            },
    )
}

/// An identifier made of a prefix and some bytes.
pub open spec fn id_text(prefix: Seq<char>, bytes: Seq<u8>) -> Seq<char> {
    prefix + "-"@ + hex(bytes)
}

/// An identifier of the form [`new_id`] makes.
pub open spec fn is_id(prefix: Seq<char>, id: Seq<char>) -> bool {
    exists|bytes: Seq<u8>| bytes.len() == 16 && id == #[trigger] id_text(prefix, bytes)
}

/// Sixteen bytes from `rand::random`, which draws them from the thread's
/// generator; nothing is claimed of what they are.
#[verifier::external_body]
pub(crate) fn random_bytes() -> (bytes: [u8; 16]) {
    rand::random()
}

/// Writes bytes in hexadecimal by `hex::encode`: two lower-case digits for
/// each byte, the high half first.
#[verifier::external_body]
fn hex_text(bytes: &[u8]) -> (text: String)
    ensures
        text@ == hex(bytes@),
{
    hex::encode(bytes)
}

/// The identifier of a prefix and given bytes.
pub fn id_of(prefix: &str, bytes: &[u8]) -> (id: String)
    ensures
        id@ == id_text(prefix@, bytes@),
{
    join3(prefix, "-", hex_text(bytes).as_str())
}

/// A new identifier, its bytes drawn at random.
pub fn new_id(prefix: &str) -> (id: String)
    ensures
        is_id(prefix@, id@),
{
    let bytes = random_bytes();
    id_of(prefix, bytes.as_slice())
}

/// Different bytes make different identifiers.
pub proof fn law_ids_tell_bytes_apart(prefix: Seq<char>, a: Seq<u8>, b: Seq<u8>)
    requires
        a.len() == b.len(),
        id_text(prefix, a) == id_text(prefix, b),
    ensures
        a == b,
{
    let start = (prefix + "-"@).len();
    assert forall|i: int| 0 <= i < a.len() implies a[i] == b[i] by {
        assert(id_text(prefix, a)[start + 2 * i] == hex(a)[2 * i]);
        assert(id_text(prefix, b)[start + 2 * i] == hex(b)[2 * i]);
        assert(id_text(prefix, a)[start + 2 * i + 1] == hex(a)[2 * i + 1]);
        assert(id_text(prefix, b)[start + 2 * i + 1] == hex(b)[2 * i + 1]);
        assert((2 * i) / 2 == i && (2 * i + 1) / 2 == i && (2 * i) % 2 == 0 && (2 * i + 1) % 2
            == 1);
        assert(hex_digit(a[i] as int / 16) == hex_digit(b[i] as int / 16));
        assert(hex_digit(a[i] as int % 16) == hex_digit(b[i] as int % 16));
        lemma_hex_digit_is_injective(a[i] as int / 16, b[i] as int / 16);
        lemma_hex_digit_is_injective(a[i] as int % 16, b[i] as int % 16);
    }
    assert(a =~= b);
}

proof fn lemma_hex_digit_is_injective(a: int, b: int)
    requires
        0 <= a < 16,
        0 <= b < 16,
        hex_digit(a) == hex_digit(b),
    ensures
        a == b,
{
}

} // verus!
