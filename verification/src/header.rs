//! The bytes that open every trust atom link tag.

use vstd::prelude::*;
use vstd::utf8::*;

verus! {

/// Which way a trust atom link points: from the atom's source to its target
/// (`Forward`), or back from the target to the source (`Reverse`).
#[derive(Clone, Copy, Debug, PartialEq, Eq, Structural)]
pub enum LinkDirection {
    Forward,
    Reverse,
}

/// UTF-8 bytes of `Ŧ`, the mark that opens every trust atom link tag.
pub open spec fn tag_mark_bytes() -> Seq<u8> {
    seq![0xC5u8, 0xA6u8]
}

/// UTF-8 bytes of the direction arrow: `→` forward, `↩` reverse.
pub open spec fn arrow_bytes(direction: LinkDirection) -> Seq<u8> {
    match direction {
        LinkDirection::Forward => seq![0xE2u8, 0x86u8, 0x92u8],
        LinkDirection::Reverse => seq![0xE2u8, 0x86u8, 0xA9u8],
    }
}

/// The five header bytes of a link tag: the mark followed by the arrow.
pub open spec fn header_bytes(direction: LinkDirection) -> Seq<u8> {
    tag_mark_bytes() + arrow_bytes(direction)
}

/// The header as text: `Ŧ→` or `Ŧ↩`.
pub open spec fn header_text(direction: LinkDirection) -> Seq<char> {
    match direction {
        LinkDirection::Forward => seq!['\u{166}', '\u{2192}'],
        LinkDirection::Reverse => seq!['\u{166}', '\u{21A9}'],
    }
}

/// The header text encodes to the header bytes.
pub proof fn lemma_header_text_encoding(direction: LinkDirection)
    ensures
        encode_utf8(header_text(direction)) == header_bytes(direction),
{
    let t = header_text(direction);
    let a: u32 = 0x166;
    assert(leading_byte_width_2(a) == 0xC5u8) by (bit_vector)
        requires a == 0x166u32;
    assert(last_continuation_byte(a) == 0xA6u8) by (bit_vector)
        requires a == 0x166u32;
    let f: u32 = 0x2192;
    assert(leading_byte_width_3(f) == 0xE2u8) by (bit_vector)
        requires f == 0x2192u32;
    assert(second_last_continuation_byte(f) == 0x86u8) by (bit_vector)
        requires f == 0x2192u32;
    assert(last_continuation_byte(f) == 0x92u8) by (bit_vector)
        requires f == 0x2192u32;
    let r: u32 = 0x21A9;
    assert(leading_byte_width_3(r) == 0xE2u8) by (bit_vector)
        requires r == 0x21A9u32;
    assert(second_last_continuation_byte(r) == 0x86u8) by (bit_vector)
        requires r == 0x21A9u32;
    assert(last_continuation_byte(r) == 0xA9u8) by (bit_vector)
        requires r == 0x21A9u32;
    assert(t[0] as u32 == 0x166u32);
    let rest = t.drop_first();
    assert(rest.drop_first().len() == 0);
    assert(encode_utf8(rest.drop_first()) =~= Seq::<u8>::empty());
    match direction {
        LinkDirection::Forward => {
            assert(rest[0] as u32 == 0x2192u32);
        },
        LinkDirection::Reverse => {
            assert(rest[0] as u32 == 0x21A9u32);
        },
    }
    assert(encode_utf8(rest) =~= arrow_bytes(direction));
    assert(encode_utf8(t) =~= header_bytes(direction));
}

/// Builds the header that opens a forward link tag: the bytes of `Ŧ→`.
pub fn build_forward_header() -> (bytes: Vec<u8>)
    ensures
        bytes@ == header_bytes(LinkDirection::Forward),
{
    build_header(LinkDirection::Forward)
}

/// Builds the header that opens a reverse link tag: the bytes of `Ŧ↩`.
pub fn build_reverse_header() -> (bytes: Vec<u8>)
    ensures
        bytes@ == header_bytes(LinkDirection::Reverse),
{
    build_header(LinkDirection::Reverse)
}

/// Builds the header bytes for either direction.
pub fn build_header(direction: LinkDirection) -> (bytes: Vec<u8>)
    ensures
        bytes@ == header_bytes(direction),
{
    let mut bytes: Vec<u8> = Vec::new();
    bytes.push(0xC5);
    bytes.push(0xA6);
    bytes.push(0xE2);
    bytes.push(0x86);
    match direction {
        LinkDirection::Forward => bytes.push(0x92),
        LinkDirection::Reverse => bytes.push(0xA9),
    }
    assert(bytes@ =~= header_bytes(direction));
    bytes
}

} // verus!
