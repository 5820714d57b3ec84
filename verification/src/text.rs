//! Text made of NUL-separated chunks, as the link tag format lays it out.

use vstd::prelude::*;
use vstd::utf8::*;
use vstd::string::*;

verus! {

broadcast use vstd::seq::group_seq_axioms;

/// The text a chunk contributes: its characters, or nothing when it is absent.
pub open spec fn chunk_text(chunk: Option<Seq<char>>) -> Seq<char> {
    match chunk {
        Some(s) => s,
        None => Seq::empty(),
    }
}

/// The character views of a sequence of strings.
pub open spec fn string_views(strings: Seq<String>) -> Seq<Seq<char>> {
    strings.map_values(|s: String| s@)
}

/// The character views of a sequence of optional strings.
pub open spec fn option_views(chunks: Seq<Option<String>>) -> Seq<Option<Seq<char>>> {
    chunks.map_values(|c: Option<String>| match c {
        Some(s) => Some(s@),
        None => None,
    })
}

/// The texts of a sequence of optional chunks.
pub open spec fn chunk_texts(chunks: Seq<Option<Seq<char>>>) -> Seq<Seq<char>> {
    chunks.map_values(|c: Option<Seq<char>>| chunk_text(c))
}

/// All pieces written one after the other.
pub open spec fn concat_all(pieces: Seq<Seq<char>>) -> Seq<char>
    decreases pieces.len(),
{
    if pieces.len() == 0 {
        Seq::empty()
    } else {
        concat_all(pieces.drop_last()) + pieces.last()
    }
}

/// The chunks written one after the other with a NUL between each two.
pub open spec fn join_nul(chunks: Seq<Seq<char>>) -> Seq<char>
    decreases chunks.len(),
{
    if chunks.len() == 0 {
        Seq::empty()
    } else if chunks.len() == 1 {
        chunks[0]
    } else {
        join_nul(chunks.drop_last()) + seq!['\0'] + chunks.last()
    }
}

/// The text cut at every NUL: the pieces between the NULs, in order, so
/// one more piece than there are NULs.
pub open spec fn split_nul(s: Seq<char>) -> Seq<Seq<char>>
    decreases s.len(),
{
    if s.len() == 0 {
        seq![Seq::<char>::empty()]
    } else {
        let pieces = split_nul(s.drop_last());
        if s.last() == '\0' {
            pieces.push(Seq::empty())
        } else {
            pieces.update(pieces.len() - 1, pieces.last().push(s.last()))
        }
    }
}

/// `s` begins with `prefix`.
pub open spec fn starts_with(s: Seq<char>, prefix: Seq<char>) -> bool {
    prefix.len() <= s.len() && s.take(prefix.len() as int) == prefix
}

/// The text holds no NUL.
pub open spec fn nul_free(s: Seq<char>) -> bool {
    forall|i: int| 0 <= i < s.len() ==> s[i] != '\0'
}

/// No chunk holds a NUL.
pub open spec fn all_nul_free(chunks: Seq<Seq<char>>) -> bool {
    forall|i: int| 0 <= i < chunks.len() ==> nul_free(#[trigger] chunks[i])
}

/// Number of NULs in the text.
pub open spec fn nul_count(s: Seq<char>) -> nat
    decreases s.len(),
{
    if s.len() == 0 {
        0
    } else {
        nul_count(s.drop_last()) + if s.last() == '\0' { 1nat } else { 0nat }
    }
}

/// Cutting at the NULs gives one piece more than there are NULs.
pub proof fn lemma_split_nul_len(s: Seq<char>)
    ensures
        split_nul(s).len() == nul_count(s) + 1,
    decreases s.len(),
{
    if s.len() > 0 {
        lemma_split_nul_len(s.drop_last());
    }
}

/// Appending NUL-free text only extends the last piece.
pub proof fn lemma_split_nul_append_plain(s: Seq<char>, t: Seq<char>)
    requires
        nul_free(t),
    ensures
        split_nul(s + t) == split_nul(s).update(
            split_nul(s).len() - 1,
            split_nul(s).last() + t,
        ),
    decreases t.len(),
{
    lemma_split_nul_len(s);
    if t.len() == 0 {
        assert(s + t =~= s);
        assert(split_nul(s).last() + t =~= split_nul(s).last());
        assert(split_nul(s).update(split_nul(s).len() - 1, split_nul(s).last())
            =~= split_nul(s));
    } else {
        let t0 = t.drop_last();
        lemma_split_nul_append_plain(s, t0);
        assert((s + t).drop_last() =~= s + t0);
        assert((s + t).last() == t.last());
        lemma_split_nul_len(s + t0);
        assert(split_nul(s).last() + t =~= (split_nul(s).last() + t0).push(t.last()));
        assert(split_nul(s + t) =~= split_nul(s).update(
            split_nul(s).len() - 1,
            split_nul(s).last() + t,
        ));
    }
}

/// Appending a NUL starts a new, empty piece.
pub proof fn lemma_split_nul_append_nul(s: Seq<char>)
    ensures
        split_nul(s + seq!['\0']) == split_nul(s).push(Seq::empty()),
{
    assert((s + seq!['\0']).drop_last() =~= s);
}

/// Cutting a NUL-joined text gives back the chunks, when no chunk holds a NUL.
pub proof fn lemma_split_join(chunks: Seq<Seq<char>>)
    requires
        chunks.len() >= 1,
        all_nul_free(chunks),
    ensures
        split_nul(join_nul(chunks)) == chunks,
    decreases chunks.len(),
{
    if chunks.len() == 1 {
        assert(nul_free(chunks[0]));
        lemma_split_nul_append_plain(Seq::empty(), chunks[0]);
        assert(Seq::<char>::empty() + chunks[0] =~= chunks[0]);
        assert(split_nul(Seq::<char>::empty()) =~= seq![Seq::<char>::empty()]);
        assert(split_nul(chunks[0]) =~= chunks);
    } else {
        let front = chunks.drop_last();
        assert(all_nul_free(front)) by {
            assert forall|i: int| 0 <= i < front.len() implies nul_free(#[trigger] front[i]) by {
                assert(front[i] == chunks[i]);
            }
        }
        lemma_split_join(front);
        let j = join_nul(front);
        lemma_split_nul_append_nul(j);
        assert(nul_free(chunks.last())) by {
            assert(chunks.last() == chunks[chunks.len() - 1]);
        }
        lemma_split_nul_append_plain(j + seq!['\0'], chunks.last());
        assert(join_nul(chunks) == j + seq!['\0'] + chunks.last());
        assert(Seq::<char>::empty() + chunks.last() =~= chunks.last());
        assert(split_nul(join_nul(chunks)) =~= chunks);
    }
}

/// A NUL-free prefix is glued to the first piece.
pub proof fn lemma_split_nul_prefix(h: Seq<char>, s: Seq<char>)
    requires
        nul_free(h),
    ensures
        split_nul(h + s) == split_nul(s).update(0, h + split_nul(s)[0]),
    decreases s.len(),
{
    lemma_split_nul_len(s);
    if s.len() == 0 {
        lemma_split_nul_append_plain(Seq::empty(), h);
        assert(Seq::<char>::empty() + h =~= h);
        assert(h + s =~= h);
        assert(h + Seq::<char>::empty() =~= h);
        assert(split_nul(h + s) =~= split_nul(s).update(0, h + split_nul(s)[0]));
    } else {
        let s0 = s.drop_last();
        lemma_split_nul_prefix(h, s0);
        lemma_split_nul_len(s0);
        assert((h + s).drop_last() =~= h + s0);
        assert((h + s).last() == s.last());
        if s.last() == '\0' {
            assert(split_nul(h + s) =~= split_nul(s).update(0, h + split_nul(s)[0]));
        } else {
            let p = split_nul(s0);
            if p.len() == 1 {
                assert(h + p[0].push(s.last()) =~= (h + p[0]).push(s.last()));
            }
            assert(split_nul(h + s) =~= split_nul(s).update(0, h + split_nul(s)[0]));
        }
    }
}

/// UTF-8 encoding distributes over concatenation.
pub proof fn lemma_encode_utf8_concat(a: Seq<char>, b: Seq<char>)
    ensures
        encode_utf8(a + b) == encode_utf8(a) + encode_utf8(b),
    decreases a.len(),
{
    if a.len() == 0 {
        assert(a + b =~= b);
        assert(encode_utf8(a) =~= Seq::<u8>::empty());
        assert(encode_utf8(a) + encode_utf8(b) =~= encode_utf8(b));
    } else {
        lemma_encode_utf8_concat(a.drop_first(), b);
        assert((a + b).drop_first() =~= a.drop_first() + b);
        assert((a + b)[0] == a[0]);
        assert(encode_utf8(a + b) =~= encode_utf8(a) + encode_utf8(b));
    }
}

/// The only character whose UTF-8 encoding holds a zero byte is NUL, and
/// NUL encodes to the single byte zero.
pub proof fn lemma_encode_nul()
    ensures
        encode_utf8(seq!['\0']) == seq![0u8],
{
    let z: u32 = 0;
    assert(leading_byte_width_1(z) == 0u8) by (bit_vector)
        requires z == 0u32;
    let n = seq!['\0'];
    assert(n[0] as u32 == 0u32);
    assert(n.drop_first() =~= Seq::<char>::empty());
    assert(encode_utf8(n.drop_first()) =~= Seq::<u8>::empty());
    assert(encode_scalar(n[0] as u32) =~= seq![0u8]);
    assert(encode_utf8(n) =~= seq![0u8]);
}

/// The bytes begin with `prefix`.
pub open spec fn bytes_start_with(s: Seq<u8>, prefix: Seq<u8>) -> bool {
    prefix.len() <= s.len() && s.take(prefix.len() as int) == prefix
}

/// Bytes that agree on the first scalar's bytes decode that scalar alike.
proof fn lemma_first_scalar_agrees(x: Seq<u8>, y: Seq<u8>)
    requires
        valid_first_scalar(x),
        x.len() <= y.len(),
        y.take(x.len() as int) == x,
    ensures
        length_of_first_scalar(y) == length_of_first_scalar(x),
        decode_first_scalar(y) == decode_first_scalar(x),
{
    assert(y[0] == x[0]);
    let l = length_of_first_scalar(x);
    if l >= 2 {
        assert(y[1] == x[1]);
    }
    if l >= 3 {
        assert(y[2] == x[2]);
    }
    if l >= 4 {
        assert(y[3] == x[3]);
    }
}

/// The encoding of one text begins with the encoding of another exactly
/// when the text begins with the other.
pub proof fn lemma_encode_prefix_iff(a: Seq<char>, b: Seq<char>)
    ensures
        bytes_start_with(encode_utf8(b), encode_utf8(a)) <==> starts_with(b, a),
    decreases a.len(),
{
    if starts_with(b, a) {
        let rest = b.skip(a.len() as int);
        assert(b =~= a + rest);
        lemma_encode_utf8_concat(a, rest);
        assert(encode_utf8(b).take(encode_utf8(a).len() as int) =~= encode_utf8(a));
    }
    if bytes_start_with(encode_utf8(b), encode_utf8(a)) && a.len() > 0 {
        let x = encode_utf8(a);
        let y = encode_utf8(b);
        encode_utf8_first_scalar(a);
        let l = length_of_first_scalar(x);
        assert(x.len() >= 1);
        if b.len() == 0 {
            assert(y.len() == 0);
        } else {
            encode_utf8_first_scalar(b);
            lemma_first_scalar_agrees(x, y);
            assert(a[0] as u32 == b[0] as u32);
            char_u32_cast(a[0], a[0] as u32);
            char_u32_cast(b[0], b[0] as u32);
            assert(a[0] == b[0]);
            let ea = encode_scalar(a[0] as u32);
            assert(x == ea + encode_utf8(a.drop_first()));
            assert(y == ea + encode_utf8(b.drop_first()));
            assert(ea.len() == l);
            assert(encode_utf8(a.drop_first()) =~= x.skip(l));
            assert(encode_utf8(b.drop_first()) =~= y.skip(l));
            assert(y.skip(l).take(x.skip(l).len() as int) =~= x.skip(l)) by {
                assert forall|i: int| 0 <= i < x.skip(l).len() implies y.skip(l).take(
                    x.skip(l).len() as int,
                )[i] == x.skip(l)[i] by {
                    assert(y.take(x.len() as int)[l + i] == x[l + i]);
                }
            }
            lemma_encode_prefix_iff(a.drop_first(), b.drop_first());
            assert(b.take(a.len() as int) =~= seq![a[0]] + b.drop_first().take(
                a.drop_first().len() as int,
            ));
            assert(a =~= seq![a[0]] + a.drop_first());
        }
    }
    if a.len() == 0 {
        assert(b.take(0) =~= a);
        assert(encode_utf8(a) =~= Seq::<u8>::empty());
        assert(encode_utf8(b).take(0) =~= Seq::<u8>::empty());
    }
}

/// Calls `String::from_utf8`: it succeeds exactly when the bytes are valid
/// UTF-8, and the string it gives holds exactly those bytes.
#[verifier::external_body]
fn string_from_utf8(bytes: Vec<u8>) -> (text: Option<String>)
    ensures
        text is Some <==> valid_utf8(bytes@),
        text matches Some(s) ==> encode_utf8(s@) == bytes@,
{
    match String::from_utf8(bytes) {
        Ok(s) => Some(s),
        Err(_) => None,
    }
}

/// Reads bytes as UTF-8 text: `None` when they are not valid UTF-8.
pub fn decode_text(bytes: &[u8]) -> (text: Option<String>)
    ensures
        text is Some <==> valid_utf8(bytes@),
        text matches Some(s) ==> s@ == decode_utf8(bytes@),
{
    let owned = vstd::slice::slice_to_vec(bytes);
    let text = string_from_utf8(owned);
    proof {
        if text is Some {
            encode_utf8_decode_utf8(text->0@);
        }
    }
    text
}

/// Cuts a text at every NUL.
pub fn split_on_nul(text: &str) -> (pieces: Vec<String>)
    ensures
        string_views(pieces@) == split_nul(text@),
{
    let n = text.unicode_len();
    let mut pieces: Vec<String> = Vec::new();
    let mut start: usize = 0;
    assert(text@.take(0) =~= Seq::<char>::empty());
    assert(text@.subrange(0, 0) =~= Seq::<char>::empty());
    assert(string_views(pieces@).push(text@.subrange(0, 0)) =~= split_nul(text@.take(0)));
    for i in 0..n
        invariant
            n == text@.len(),
            start <= i,
            string_views(pieces@).push(text@.subrange(start as int, i as int)) == split_nul(
                text@.take(i as int),
            ),
    {
        let c = text.get_char(i);
        assert(text@.take(i + 1).drop_last() =~= text@.take(i as int));
        assert(text@.take(i + 1).last() == c);
        if c == '\0' {
            let piece = String::from_str(text.substring_char(start, i));
            let ghost before = pieces@;
            pieces.push(piece);
            assert(string_views(pieces@) =~= string_views(before).push(
                text@.subrange(start as int, i as int),
            ));
            start = i + 1;
            assert(text@.subrange(start as int, i + 1) =~= Seq::<char>::empty());
        } else {
            assert(text@.subrange(start as int, i + 1) =~= text@.subrange(start as int, i as int).push(c));
        }
        assert(string_views(pieces@).push(text@.subrange(start as int, i + 1)) =~= split_nul(
            text@.take(i + 1),
        ));
    }
    let last = String::from_str(text.substring_char(start, n));
    let ghost before = pieces@;
    pieces.push(last);
    assert(text@.take(n as int) =~= text@);
    assert(string_views(pieces@) =~= string_views(before).push(text@.subrange(start as int, n as int)));
    pieces
}

/// Whether `s` begins with `prefix`.
pub fn text_starts_with(s: &str, prefix: &str) -> (b: bool)
    ensures
        b == starts_with(s@, prefix@),
{
    let n = prefix.unicode_len();
    if n > s.unicode_len() {
        return false;
    }
    for i in 0..n
        invariant
            n == prefix@.len() <= s@.len(),
            forall|j: int| 0 <= j < i ==> s@[j] == prefix@[j],
    {
        if s.get_char(i) != prefix.get_char(i) {
            assert(s@.take(n as int)[i as int] != prefix@[i as int]);
            return false;
        }
    }
    assert(s@.take(n as int) =~= prefix@);
    true
}

} // verus!
