//! The random bucket that spreads trust atoms over link tags.

use vstd::prelude::*;
use vstd::string::*;

verus! {

broadcast use vstd::seq::group_seq_axioms;

/// The digit for the last decimal digit of a byte.
pub open spec fn bucket_digit(byte: u8) -> char {
    ((byte % 10) as u32 + 48) as char
}

/// The bucket text for some bytes: one digit per byte, the byte's value
/// modulo ten.
pub open spec fn bucket_text(bytes: Seq<u8>) -> Seq<char> {
    bytes.map_values(|b: u8| bucket_digit(b))
}

/// The text is made of ASCII digits only.
pub open spec fn all_ascii_digits(s: Seq<char>) -> bool {
    forall|i: int| 0 <= i < s.len() ==> '0' <= #[trigger] s[i] <= '9'
}

/// Turns random bytes into a bucket: for each byte, the digit of its value
/// modulo ten.
pub fn create_bucket_string(bucket_bytes: &[u8]) -> (bucket: String)
    ensures
        bucket@ == bucket_text(bucket_bytes@),
        bucket@.len() == bucket_bytes@.len(),
        all_ascii_digits(bucket@),
{
    let digits = "0123456789";
    proof {
        reveal_strlit("0123456789");
    }
    let mut bucket = String::new();
    let n = bucket_bytes.len();
    for i in 0..n
        invariant
            n == bucket_bytes@.len(),
            digits@ == "0123456789"@,
            digits@.len() == 10,
            bucket@ == bucket_text(bucket_bytes@.take(i as int)),
    {
        let d = (bucket_bytes[i] % 10) as usize;
        let digit = digits.substring_char(d, d + 1);
        proof {
            reveal_strlit("0123456789");
            let ds = seq!['0', '1', '2', '3', '4', '5', '6', '7', '8', '9'];
            assert(digits@ =~= ds);
            assert(forall|k: int| 0 <= k < 10 ==> (#[trigger] ds[k]) as u32 == k + 48);
            assert(digits@[d as int] == ((d + 48) as u32) as char);
        }
        bucket.append(digit);
        assert(bucket_bytes@.take(i + 1) =~= bucket_bytes@.take(i as int).push(bucket_bytes@[i as int]));
        assert(bucket@ =~= bucket_text(bucket_bytes@.take(i + 1)));
    }
    assert(bucket_bytes@.take(n as int) =~= bucket_bytes@);
    bucket
}

} // verus!
