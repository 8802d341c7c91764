//! Four-byte tags that name variation axes and scripts.

use vstd::prelude::*;

verus! {

/// Why bytes are no tag.
#[derive(Debug, Clone, Copy, PartialEq, Eq, Structural)]
pub enum InvalidTagError {
    /// The tag was not between 1 and 4 bytes long.
    InvalidLength(usize),
    /// The byte at `pos` may not stand there.
    InvalidByte { pos: usize, byte: u8 },
    /// A byte other than a space stood after a space.
    ByteAfterSpace,
}

/// Whether `byte` may stand at `pos` of `src`: printable ASCII, no space
/// first, and nothing but spaces after a space.
pub open spec fn byte_fits(src: Seq<u8>, pos: int) -> bool {
    let byte = src[pos];
    &&& 0x20 <= byte <= 0x7E
    &&& !(pos == 0 && byte == 0x20)
    &&& !(byte != 0x20 && exists|k: int| 0 <= k < pos && src[k] == 0x20)
}

/// Whether `src` is a tag: one to four bytes, each of which fits.
pub open spec fn is_tag(src: Seq<u8>) -> bool {
    &&& 1 <= src.len() <= 4
    &&& forall|pos: int| 0 <= pos < src.len() ==> byte_fits(src, pos)
}

/// `src` filled up to four bytes with spaces.
pub open spec fn padded(src: Seq<u8>) -> Seq<u8> {
    Seq::new(4, |i: int| if i < src.len() { src[i] } else { 0x20u8 })
}

/// The number that four bytes spell, first byte highest.
pub open spec fn tag_number(bytes: Seq<u8>) -> u32 {
    (bytes[0] as u32 * 0x100_0000 + bytes[1] as u32 * 0x1_0000 + bytes[2] as u32 * 0x100
        + bytes[3] as u32) as u32
}

/// The first position from `pos` on whose byte does not fit, or the length
/// of `src` where all fit.
pub open spec fn first_misfit(src: Seq<u8>, pos: int) -> int
    decreases src.len() - pos,
{
    if pos < 0 || pos >= src.len() || !byte_fits(src, pos) {
        pos
    } else {
        first_misfit(src, pos + 1)
    }
}

/// Why `src`, which is no tag, is none: its length, or else its first byte
/// that does not fit.
pub open spec fn tag_error(src: Seq<u8>) -> InvalidTagError {
    if !(1 <= src.len() <= 4) {
        InvalidTagError::InvalidLength(src.len() as usize)
    } else {
        InvalidTagError::InvalidByte {
            pos: first_misfit(src, 0) as usize,
            byte: src[first_misfit(src, 0)],
        }
    }
}

/// Checks bytes as a tag, with `skrifa::Tag::new_checked`.
///
/// Trusted: the bytes are accepted exactly where they are a tag, and the
/// tag then holds them, filled up with spaces. A refusal names a wrong
/// length, or else the first byte that does not fit.
#[verifier::external_body]
fn tag_new_checked(src: &[u8]) -> (r: Result<[u8; 4], InvalidTagError>)
    ensures
        r.is_ok() == is_tag(src@),
        r.is_ok() ==> r.unwrap()@ == padded(src@),
        r.is_err() ==> r.unwrap_err() == tag_error(src@),
{
    match skrifa::Tag::new_checked(src) {
        Ok(tag) => Ok(tag.to_be_bytes()),
        Err(skrifa::raw::types::InvalidTag::InvalidLength(len)) => Err(
            InvalidTagError::InvalidLength(len),
        ),
        Err(skrifa::raw::types::InvalidTag::InvalidByte { pos, byte }) => Err(
            InvalidTagError::InvalidByte { pos, byte },
        ),
        Err(_) => Err(InvalidTagError::ByteAfterSpace),
    }
}

/// The tag that `src` spells, as a number with the first byte highest.
///
/// `src` must be one to four bytes of printable ASCII that do not start
/// with a space and hold nothing but spaces after a space; a shorter tag is
/// filled up with spaces.
pub fn parse_tag(src: &[u8]) -> (r: Result<u32, InvalidTagError>)
    ensures
        r.is_ok() == is_tag(src@),
        r.is_ok() ==> r.unwrap() == tag_number(padded(src@)),
        r.is_err() ==> r.unwrap_err() == tag_error(src@),
{
    match tag_new_checked(src) {
        Ok(bytes) => {
            let n: u32 = (bytes[0] as u32) * 0x100_0000 + (bytes[1] as u32) * 0x1_0000 + (
            bytes[2] as u32) * 0x100 + (bytes[3] as u32);
            assert(bytes@ =~= padded(src@));
            Ok(n)
        },
        Err(e) => Err(e),
    }
}

/// The four bytes of a tag number, first byte first.
pub fn tag_bytes(tag: u32) -> (r: [u8; 4])
    ensures
        tag_number(r@) == tag,
{
    let r = [(tag >> 24) as u8, (tag >> 16) as u8, (tag >> 8) as u8, tag as u8];
    assert(((tag >> 24) as u8) as u32 * 0x100_0000 + ((tag >> 16) as u8) as u32 * 0x1_0000 + ((tag
        >> 8) as u8) as u32 * 0x100 + (tag as u8) as u32 == tag) by (bit_vector);
    r
}

} // verus!
