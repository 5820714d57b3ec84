//! Which link creations and deletions a trust atom DNA accepts.

use vstd::prelude::*;
use vstd::string::*;
use vstd::utf8::*;
use crate::header::{header_text, LinkDirection};
use crate::text::{decode_text, split_nul, split_on_nul, starts_with, string_views};
use crate::value::{digit_chars, digits_value, fraction_of, value_shape, lemma_digits_value_bound, lemma_pow10_mono, pow10, within_nines};

verus! {

broadcast use vstd::seq::group_seq_axioms;

/// Why a link operation is refused as invalid.
#[derive(Clone, Copy, Debug, PartialEq, Eq, Structural)]
pub enum InvalidReason {
    /// The link's base is not the creating agent.
    CreatorNotBase,
    /// The tag does not have four NUL-separated chunks; the number found.
    ChunkCount(usize),
    /// Only the original author may delete a trust atom.
    NotOriginalAuthor,
    /// The base of a trust atom must be its original author.
    BaseNotAuthor,
}

/// The verdict on a link operation.
#[derive(Clone, Copy, Debug, PartialEq, Eq, Structural)]
pub enum ValidateCallbackResult {
    Valid,
    Invalid(InvalidReason),
}

/// A link tag that breaks the format.
#[derive(Clone, Copy, Debug, PartialEq, Eq, Structural)]
pub enum LinkTagError {
    /// The tag is not UTF-8.
    NotUtf8,
    /// The first chunk does not open with `Ŧ→` or `Ŧ↩`.
    BadHeader,
    /// The value chunk is longer than 12 characters.
    RatingTooLong,
    /// The bucket chunk is not 9 characters.
    BadBucket,
    /// The tag is longer than 999 bytes.
    TagTooLong,
    /// The content is longer than 900 bytes.
    ContentTooLong,
    /// The value chunk is neither empty nor a value within
    /// -0.999999999..0.999999999 written as a link tag writes it.
    BadValue,
}

/// The verdict on a tag's text: four chunks (header and content, value,
/// bucket, extra), the first opening with a header, a content of at most
/// 900 bytes, a value of at most 12 characters that is empty or a value
/// within -0.999999999..0.999999999, and a bucket of exactly 9 characters.
pub open spec fn tag_text_verdict(text: Seq<char>) -> Result<ValidateCallbackResult, LinkTagError> {
    let chunks = split_nul(text);
    if chunks.len() != 4 {
        Ok(ValidateCallbackResult::Invalid(InvalidReason::ChunkCount(chunks.len() as usize)))
    } else if !starts_with(chunks[0], header_text(LinkDirection::Forward)) && !starts_with(
        chunks[0],
        header_text(LinkDirection::Reverse),
    ) {
        Err(LinkTagError::BadHeader)
    } else if encode_utf8(chunks[0].skip(2)).len() > 900 {
        Err(LinkTagError::ContentTooLong)
    } else if chunks[1].len() > 12 {
        Err(LinkTagError::RatingTooLong)
    } else if chunks[1].len() != 0 && !within_nines(chunks[1]) {
        Err(LinkTagError::BadValue)
    } else if chunks[2].len() != 9 {
        Err(LinkTagError::BadBucket)
    } else {
        Ok(ValidateCallbackResult::Valid)
    }
}

/// The verdict on creating a link from `base` with `tag`, made by `author`
/// while `agent` is the validating agent; a tag holds at most 999 bytes.
pub open spec fn create_link_verdict(
    base: Seq<u8>,
    agent: Seq<u8>,
    author: Seq<u8>,
    tag: Seq<u8>,
) -> Result<ValidateCallbackResult, LinkTagError> {
    if base != agent || base != author {
        Ok(ValidateCallbackResult::Invalid(InvalidReason::CreatorNotBase))
    } else if tag.len() > 999 {
        Err(LinkTagError::TagTooLong)
    } else if !valid_utf8(tag) {
        Err(LinkTagError::NotUtf8)
    } else {
        tag_text_verdict(decode_utf8(tag))
    }
}

/// Whether a value chunk of at most 12 characters is empty or a value
/// within -0.999999999..0.999999999 written as a link tag writes it.
fn value_text_ok(v: &str) -> (ok: bool)
    requires
        v@.len() <= 12,
    ensures
        ok == (v@.len() == 0 || within_nines(v@)),
{
    let n = v.unicode_len();
    if n == 0 {
        return true;
    }
    if n == 1 {
        proof {
            assert(fraction_of(v@) =~= Seq::<char>::empty());
            if v@[0] == '0' {
                assert(v@ =~= seq!['0']);
            }
        }
        return v.get_char(0) == '0';
    }
    let c0 = v.get_char(0);
    let start: usize = if c0 == '.' {
        1
    } else if c0 == '-' && n >= 3 && v.get_char(1) == '.' {
        2
    } else {
        proof {
            assert(v@ != seq!['0']);
        }
        return false;
    };
    let ghost frac = v@.skip(start as int);
    assert(fraction_of(v@) == frac);
    let mut val: u64 = 0;
    let mut pow: u64 = 1;
    proof {
        lemma_pow10_mono(11, 11);
        reveal_with_fuel(pow10, 12);
        assert(v@.subrange(start as int, start as int) =~= Seq::<char>::empty());
    }
    let mut i: usize = start;
    while i < n
        invariant
            start <= i <= n,
            n == v@.len() <= 12,
            1 <= start,
            frac == v@.skip(start as int),
            digit_chars(v@.subrange(start as int, i as int)),
            start == 1 ==> v@[0] == '.',
            start == 2 ==> v@[0] == '-' && v@[1] == '.' && n >= 3,
            start <= 2,
            val == digits_value(v@.subrange(start as int, i as int)),
            pow == pow10((i - start) as nat),
            pow10(11) == 100_000_000_000nat,
        decreases n - i,
    {
        let c = v.get_char(i);
        if !('0' <= c && c <= '9') {
            proof {
                assert(frac[i - start] == c);
                assert(!digit_chars(frac));
                assert(v@ != seq!['0']);
                if start == 1 {
                    assert(v@[0] == '.');
                    assert(v@.skip(1) == frac);
                } else {
                    assert(v@[0] == '-');
                    assert(v@.skip(2) == frac);
                }
                assert(!value_shape(v@));
            }
            return false;
        }
        let ghost seen = v@.subrange(start as int, i as int);
        let ghost next = v@.subrange(start as int, i + 1);
        proof {
            assert(next.drop_last() =~= seen);
            assert(next.last() == c);
            lemma_digits_value_bound(seen);
            lemma_pow10_mono((i - start) as nat, 10);
            lemma_pow10_mono((i + 1 - start) as nat, 11);
            assert(digit_chars(next)) by {
                assert forall|j: int| 0 <= j < next.len() implies '0' <= #[trigger] next[j] <= '9' by {
                    if j < seen.len() {
                        assert(next[j] == seen[j]);
                    }
                }
            }
            lemma_digits_value_bound(next);
        }
        val = val * 10 + ((c as u32) - 48) as u64;
        pow = pow * 10;
        i = i + 1;
    }
    proof {
        assert(v@.subrange(start as int, n as int) =~= frac);
        assert(v@ != seq!['0']);
    }
    (val as u128) * 1_000_000_000 <= 999_999_999 * (pow as u128)
}

/// The two byte strings are equal.
pub fn bytes_equal(a: &[u8], b: &[u8]) -> (eq: bool)
    ensures
        eq == (a@ == b@),
{
    if a.len() != b.len() {
        return false;
    }
    let n = a.len();
    for i in 0..n
        invariant
            n == a@.len() == b@.len(),
            forall|j: int| 0 <= j < i ==> a@[j] == b@[j],
    {
        if a[i] != b[i] {
            return false;
        }
    }
    assert(a@ =~= b@);
    true
}

/// The text begins with the header for either direction.
fn opens_with_header(chunk: &str) -> (opens: bool)
    ensures
        opens == (starts_with(chunk@, header_text(LinkDirection::Forward)) || starts_with(
            chunk@,
            header_text(LinkDirection::Reverse),
        )),
{
    if chunk.unicode_len() < 2 {
        return false;
    }
    let first = chunk.get_char(0);
    let second = chunk.get_char(1);
    proof {
        let f = header_text(LinkDirection::Forward);
        let r = header_text(LinkDirection::Reverse);
        assert(starts_with(chunk@, f) <==> chunk@[0] == f[0] && chunk@[1] == f[1]) by {
            if chunk@[0] == f[0] && chunk@[1] == f[1] {
                assert(chunk@.take(2) =~= f);
            }
        }
        assert(starts_with(chunk@, r) <==> chunk@[0] == r[0] && chunk@[1] == r[1]) by {
            if chunk@[0] == r[0] && chunk@[1] == r[1] {
                assert(chunk@.take(2) =~= r);
            }
        }
    }
    first == '\u{166}' && (second == '\u{2192}' || second == '\u{21A9}')
}

/// Reads bytes as text, or `None` when they are not UTF-8.
pub fn convert_bytes_to_string(byte_array: &[u8]) -> (text: Option<String>)
    ensures
        text is Some <==> valid_utf8(byte_array@),
        text matches Some(s) ==> s@ == decode_utf8(byte_array@),
{
    decode_text(byte_array)
}

/// Decides on the creation of a trust atom link: the base must be both the
/// validating agent and the author, and the tag must be at most 999 bytes
/// of UTF-8 text in four NUL-separated chunks — header with content (at
/// most 900 bytes), value (at most 12 characters, empty or within
/// -0.999999999..0.999999999 as a tag writes it), bucket (exactly 9
/// characters), extra.
pub fn validate_create_link(base: &[u8], agent: &[u8], author: &[u8], tag: &[u8]) -> (verdict:
    Result<ValidateCallbackResult, LinkTagError>)
    ensures
        verdict == create_link_verdict(base@, agent@, author@, tag@),
        verdict == Ok::<ValidateCallbackResult, LinkTagError>(ValidateCallbackResult::Valid) ==> valid_utf8(tag@)
            && split_nul(decode_utf8(tag@)).len() == 4,
{
    proof {
        crate::laws::law_valid_link_creation(base@, agent@, author@, tag@);
    }
    if !bytes_equal(base, agent) {
        return Ok(ValidateCallbackResult::Invalid(InvalidReason::CreatorNotBase));
    }
    if !bytes_equal(base, author) {
        return Ok(ValidateCallbackResult::Invalid(InvalidReason::CreatorNotBase));
    }
    if tag.len() > 999 {
        return Err(LinkTagError::TagTooLong);
    }
    let link_tag = match decode_text(tag) {
        Some(t) => t,
        None => return Err(LinkTagError::NotUtf8),
    };
    let chunks = split_on_nul(link_tag.as_str());
    proof {
        assert(string_views(chunks@).len() == chunks@.len());
    }
    if chunks.len() != 4 {
        return Ok(ValidateCallbackResult::Invalid(InvalidReason::ChunkCount(chunks.len())));
    }
    proof {
        assert(string_views(chunks@)[0] == chunks@[0]@);
        assert(string_views(chunks@)[1] == chunks@[1]@);
        assert(string_views(chunks@)[2] == chunks@[2]@);
    }
    if !opens_with_header(chunks[0].as_str()) {
        return Err(LinkTagError::BadHeader);
    }
    let first = chunks[0].as_str();
    let first_len = first.unicode_len();
    let content = first.substring_char(2, first_len);
    assert(content@ =~= first@.skip(2));
    let content_bytes = content.as_bytes().len();
    assert(content_bytes == encode_utf8(chunks@[0]@.skip(2)).len());
    if content_bytes > 900 {
        return Err(LinkTagError::ContentTooLong);
    }
    if chunks[1].as_str().unicode_len() > 12 {
        return Err(LinkTagError::RatingTooLong);
    }
    if !value_text_ok(chunks[1].as_str()) {
        return Err(LinkTagError::BadValue);
    }
    if chunks[2].as_str().unicode_len() != 9 {
        return Err(LinkTagError::BadBucket);
    } else {
        return Ok(ValidateCallbackResult::Valid);
    }
}

/// Decides on the deletion of a trust atom link: only its original author
/// may delete it, and the base must be the validating agent.
pub fn validate_delete_link(
    author: &[u8],
    original_author: &[u8],
    base: &[u8],
    agent: &[u8],
) -> (verdict: ValidateCallbackResult)
    ensures
        verdict == if author@ != original_author@ {
            ValidateCallbackResult::Invalid(InvalidReason::NotOriginalAuthor)
        } else if base@ != agent@ {
            ValidateCallbackResult::Invalid(InvalidReason::BaseNotAuthor)
        } else {
            ValidateCallbackResult::Valid
        },
{
    if !bytes_equal(author, original_author) {
        return ValidateCallbackResult::Invalid(InvalidReason::NotOriginalAuthor);
    }
    if !bytes_equal(base, agent) {
        return ValidateCallbackResult::Invalid(InvalidReason::BaseNotAuthor);
    }
    ValidateCallbackResult::Valid
}

} // verus!
