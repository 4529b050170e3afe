//! Digests and fresh identifiers.

use sha2::Digest;
use vstd::prelude::*;

use crate::text::string_of;

verus! {

/// The SHA-256 digest of a message.
pub uninterp spec fn sha256_of(message: Seq<u8>) -> Seq<u8>;

/// `Sha256::digest` gives the 32 bytes of a message's digest.
#[verifier::external_body]
fn sha256(message: &[u8]) -> (digest: Vec<u8>)
    ensures
        digest@ == sha256_of(message@),
        digest@.len() == 32,
{
    sha2::Sha256::digest(message).to_vec()
}

pub open spec fn hex_digit(n: int) -> char {
    if n < 10 {
        (48 + n) as char
    } else {
        (87 + n) as char
    }
}

/// The bytes in lower-case hexadecimal, two digits each.
pub open spec fn hex(bytes: Seq<u8>) -> Seq<char> {
    Seq::new(
        2 * bytes.len(),
        |i: int|
            hex_digit(
                if i % 2 == 0 {
                    bytes[i / 2] as int / 16
                } else {
                    bytes[i / 2] as int % 16
                },
            ),
    )
}

pub open spec fn is_hex_char(c: char) -> bool {
    '0' <= c <= '9' || 'a' <= c <= 'f'
}

fn nibble(n: u8) -> (c: char)
    requires
        n < 16,
    ensures
        c == hex_digit(n as int),
{
    if n < 10 {
        (48 + n) as char
    } else {
        (87 + n) as char
    }
}

/// Writes bytes in lower-case hexadecimal.
pub fn hex_text(bytes: &[u8]) -> (text: String)
    ensures
        text@ == hex(bytes@),
{
    let mut chars: Vec<char> = Vec::new();
    let mut at: usize = 0;
    while at < bytes.len()
        invariant
            at <= bytes@.len(),
            chars@ == hex(bytes@).take(2 * at),
        decreases bytes.len() - at,
    {
        let byte = bytes[at];
        chars.push(nibble(byte / 16));
        chars.push(nibble(byte % 16));
        at = at + 1;
        proof {
            let all = hex(bytes@);
            assert(all.take(2 * at) =~= all.take(2 * (at - 1)).push(all[2 * (at - 1)]).push(
                all[2 * (at - 1) + 1],
            ));
        }
    }
    proof {
        assert(hex(bytes@).take((2 * bytes@.len()) as int) =~= hex(bytes@));
    }
    string_of(chars.as_slice())
}

/// The hexadecimal SHA-256 digest of a message.
pub fn sha256_hex(message: &[u8]) -> (text: String)
    ensures
        text@ == hex(sha256_of(message@)),
        text@.len() == 64,
        forall|i: int| 0 <= i < 64 ==> is_hex_char(#[trigger] text@[i]),
{
    let digest = sha256(message);
    proof {
        lemma_hex_digits(digest@);
    }
    hex_text(digest.as_slice())
}

/// Hexadecimal text holds digits and the letters from `a` to `f` only.
pub proof fn lemma_hex_digits(bytes: Seq<u8>)
    ensures
        hex(bytes).len() == 2 * bytes.len(),
        forall|i: int| 0 <= i < 2 * bytes.len() ==> is_hex_char(#[trigger] hex(bytes)[i]),
{
}

/// Different bytes have different hexadecimal texts.
pub proof fn lemma_hex_tells_bytes_apart(a: Seq<u8>, b: Seq<u8>)
    requires
        hex(a) == hex(b),
    ensures
        a == b,
{
    assert(hex(a).len() == 2 * a.len() && hex(b).len() == 2 * b.len());
    assert forall|i: int| 0 <= i < a.len() implies a[i] == b[i] by {
        assert(hex(a)[2 * i] == hex(b)[2 * i]);
        assert(hex(a)[2 * i + 1] == hex(b)[2 * i + 1]);
        assert((2 * i) / 2 == i && (2 * i) % 2 == 0);
        assert((2 * i + 1) / 2 == i && (2 * i + 1) % 2 == 1);
        assert(hex(a)[2 * i] == hex_digit(a[i] as int / 16));
        assert(hex(b)[2 * i] == hex_digit(b[i] as int / 16));
        assert(hex(a)[2 * i + 1] == hex_digit(a[i] as int % 16));
        assert(hex(b)[2 * i + 1] == hex_digit(b[i] as int % 16));
        lemma_hex_digit_tells_apart(a[i] as int / 16, b[i] as int / 16);
        lemma_hex_digit_tells_apart(a[i] as int % 16, b[i] as int % 16);
    }
    assert(a =~= b);
}

proof fn lemma_hex_digit_tells_apart(m: int, n: int)
    requires
        0 <= m < 16,
        0 <= n < 16,
        hex_digit(m) == hex_digit(n),
    ensures
        m == n,
{
}

/// The text form of a random (version 4) UUID.
pub open spec fn is_uuid_text(s: Seq<char>) -> bool {
    &&& s.len() == 36
    &&& s[8] == '-' && s[13] == '-' && s[18] == '-' && s[23] == '-'
    &&& s[14] == '4'
    &&& s[19] == '8' || s[19] == '9' || s[19] == 'a' || s[19] == 'b'
    &&& forall|i: int|
        0 <= i < 36 && i != 8 && i != 13 && i != 18 && i != 23 ==> is_hex_char(#[trigger] s[i])
}

/// `Uuid::new_v4` draws a random identifier; its text has the fixed form of
/// such identifiers.
#[verifier::external_body]
pub(crate) fn fresh_uuid() -> (id: String)
    ensures
        is_uuid_text(id@),
{
    uuid::Uuid::new_v4().to_string()
}

/// A byte is written as two digits, the higher one first.
pub proof fn lemma_digits_of_a_byte(bytes: Seq<u8>, i: int)
    requires
        0 <= i < bytes.len(),
    ensures
        hex(bytes).len() == 2 * bytes.len(),
        ({
            let high = bytes[i] as int / 16;
            let low = bytes[i] as int % 16;
            &&& hex(bytes)[2 * i] as int == if high < 10 {
                48 + high
            } else {
                87 + high
            }
            &&& hex(bytes)[2 * i + 1] as int == if low < 10 {
                48 + low
            } else {
                87 + low
            }
        }),
{
    assert((2 * i) % 2 == 0 && (2 * i) / 2 == i);
    assert((2 * i + 1) % 2 == 1 && (2 * i + 1) / 2 == i);
}

} // verus!
