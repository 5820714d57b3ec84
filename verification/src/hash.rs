//! Holochain hashes written as text (`u` followed by URL-safe base64).

use vstd::prelude::*;
use vstd::string::*;
use crate::text::nul_free;

verus! {

/// The URL-safe base64 digit for a six-bit value: `A`-`Z`, `a`-`z`,
/// `0`-`9`, `-`, `_`.
pub open spec fn base64_digit(v: nat) -> char {
    if v < 26 {
        ((65 + v) as u32) as char
    } else if v < 52 {
        ((97 + v - 26) as u32) as char
    } else if v < 62 {
        ((48 + v - 52) as u32) as char
    } else if v == 62 {
        '-'
    } else {
        '_'
    }
}

/// URL-safe base64 without padding: each three bytes become four digits,
/// two trailing bytes three digits, one trailing byte two digits.
pub open spec fn base64_url(b: Seq<u8>) -> Seq<char>
    decreases b.len(),
{
    if b.len() == 0 {
        Seq::empty()
    } else if b.len() == 1 {
        seq![base64_digit((b[0] / 4) as nat), base64_digit(((b[0] % 4) * 16) as nat)]
    } else if b.len() == 2 {
        seq![
            base64_digit((b[0] / 4) as nat),
            base64_digit(((b[0] % 4) * 16 + b[1] / 16) as nat),
            base64_digit(((b[1] % 16) * 4) as nat),
        ]
    } else {
        seq![
            base64_digit((b[0] / 4) as nat),
            base64_digit(((b[0] % 4) * 16 + b[1] / 16) as nat),
            base64_digit(((b[1] % 16) * 4 + b[2] / 64) as nat),
            base64_digit((b[2] % 64) as nat),
        ] + base64_url(b.skip(3))
    }
}

/// The text of a hash: `u` followed by the URL-safe base64 of its raw
/// bytes, as `holo_hash::encode::holo_hash_encode` writes it.
pub open spec fn hash_text(raw: Seq<u8>) -> Seq<char> {
    seq!['u'] + base64_url(raw)
}

/// What `holo_hash::encode::holo_hash_decode_unchecked` reads from a text:
/// the 39 raw bytes of a hash, or `None` when the text is not one.
pub uninterp spec fn hash_from_text(text: Seq<char>) -> Option<Seq<u8>>;

/// Base64 digits are never NUL.
proof fn lemma_base64_nul_free(b: Seq<u8>)
    ensures
        nul_free(base64_url(b)),
    decreases b.len(),
{
    assert forall|v: nat| #[trigger] base64_digit(v) != '\0' by {
        if v < 26 {
            assert(base64_digit(v) as u32 == 65 + v);
        } else if v < 52 {
            assert(base64_digit(v) as u32 == 97 + v - 26);
        } else if v < 62 {
            assert(base64_digit(v) as u32 == 48 + v - 52);
        }
    }
    if b.len() >= 3 {
        lemma_base64_nul_free(b.skip(3));
        let head = seq![
            base64_digit((b[0] / 4) as nat),
            base64_digit(((b[0] % 4) * 16 + b[1] / 16) as nat),
            base64_digit(((b[1] % 16) * 4 + b[2] / 64) as nat),
            base64_digit((b[2] % 64) as nat),
        ];
        let t = base64_url(b);
        assert forall|i: int| 0 <= i < t.len() implies t[i] != '\0' by {
            if i >= 4 {
                assert(t[i] == base64_url(b.skip(3))[i - 4]);
            } else {
                assert(t[i] == head[i]);
            }
        }
    }
}

/// Calls `holo_hash_encode`, which writes `u` followed by the URL-safe
/// base64 (no padding) of the bytes. The contract states that text, and
/// that decoding it with `holo_hash_decode_unchecked`, when that succeeds,
/// gives the same bytes back (base64 decodes what it encodes; the decoder
/// may still refuse the text, for a length other than 39 bytes or a wrong
/// location checksum, which is not stated).
#[verifier::external_body]
fn encode_hash(raw: &[u8]) -> (text: String)
    ensures
        text@ == hash_text(raw@),
        hash_from_text(text@) matches Some(r) ==> r == raw@,
{
    holo_hash::encode::holo_hash_encode(raw)
}

/// The text that stands for the hash of an extra entry in a link tag: `u`
/// followed by the URL-safe base64 of the hash's raw bytes. It holds no NUL,
/// and reading it back, when the decoder accepts it, gives the same bytes.
pub fn entry_hash_text(raw: &[u8]) -> (text: String)
    ensures
        text@ == hash_text(raw@),
        text@.len() > 0,
        text@[0] == 'u',
        nul_free(text@),
        read_hash_text(text@) matches Some(r) ==> r == raw@,
        hash_from_text(text@) is Some ==> read_hash_text(text@) == Some(raw@),
{
    let text = encode_hash(raw);
    proof {
        lemma_base64_nul_free(raw@);
        let t = text@;
        assert forall|i: int| 0 <= i < t.len() implies t[i] != '\0' by {
            if i >= 1 {
                assert(t[i] == base64_url(raw@)[i - 1]);
            }
        }
    }
    text
}

/// Calls `holo_hash_decode_unchecked`, which checks the leading `u`, the
/// base64, the length of 39 bytes and the location checksum. The contract
/// names the result, states its length and that a decoded text starts with
/// `u`; the decoding itself is not stated. The text must be non-empty and
/// start with an ASCII character, since the function slices off its first
/// byte.
#[verifier::external_body]
fn decode_hash(text: &str) -> (raw: Option<Vec<u8>>)
    requires
        text@.len() > 0,
        (text@[0] as u32) < 0x80,
    ensures
        raw matches Some(r) ==> hash_from_text(text@) == Some(r@),
        raw is None ==> hash_from_text(text@) is None,
        raw matches Some(r) ==> r@.len() == 39,
        raw is Some ==> text@[0] == 'u',
{
    match holo_hash::encode::holo_hash_decode_unchecked(text) {
        Ok(bytes) => Some(bytes),
        Err(_) => None,
    }
}

/// What reading a hash text gives: `None` for an empty text or one that
/// does not start with an ASCII character, else what the decoder gives.
pub open spec fn read_hash_text(text: Seq<char>) -> Option<Seq<u8>> {
    if text.len() > 0 && (text[0] as u32) < 0x80 {
        hash_from_text(text)
    } else {
        None
    }
}

/// Reads the raw bytes of a hash from its text.
pub fn read_hash(text: &str) -> (raw: Option<Vec<u8>>)
    ensures
        match raw {
            Some(r) => read_hash_text(text@) == Some(r@),
            None => read_hash_text(text@) is None,
        },
        text@.len() > 0 && text@[0] == 'u' ==> match raw {
            Some(r) => hash_from_text(text@) == Some(r@),
            None => hash_from_text(text@) is None,
        },
{
    let n = text.unicode_len();
    if n == 0 {
        return None;
    }
    let first = text.get_char(0);
    if (first as u32) < 0x80 {
        decode_hash(text)
    } else {
        None
    }
}

} // verus!
