//! The document's characters, gathered piece by piece.

use vstd::prelude::*;
use crate::bytes::{le16, read_u16};
use crate::clx::{PieceDescriptor, PieceView, pieces_view};
use crate::chartext::push_all;
use crate::error::{DocError, DocErrorView};

verus! {

/// `encoding_rs::WINDOWS_1252.decode`: the text of an 8-bit piece.
pub uninterp spec fn spec_windows_1252_decode(bytes: Seq<u8>) -> Seq<char>;

/// The bytes open with a byte-order mark that `Encoding::decode` sniffs
/// (UTF-8, UTF-16LE or UTF-16BE) and then decodes with instead.
pub open spec fn starts_with_bom(s: Seq<u8>) -> bool {
    ||| (s.len() >= 3 && s[0] == 0xEF && s[1] == 0xBB && s[2] == 0xBF)
    ||| (s.len() >= 2 && s[0] == 0xFF && s[1] == 0xFE)
    ||| (s.len() >= 2 && s[0] == 0xFE && s[1] == 0xFF)
}

/// The windows-1252 character of a byte, after the WHATWG index: the
/// Latin-1 character of the same code, but for 0x80 to 0x9F.
pub open spec fn windows_1252_char(b: u8) -> char {
    match b {
        0x80u8 => '\u{20AC}',
        0x82u8 => '\u{201A}',
        0x83u8 => '\u{0192}',
        0x84u8 => '\u{201E}',
        0x85u8 => '\u{2026}',
        0x86u8 => '\u{2020}',
        0x87u8 => '\u{2021}',
        0x88u8 => '\u{02C6}',
        0x89u8 => '\u{2030}',
        0x8Au8 => '\u{0160}',
        0x8Bu8 => '\u{2039}',
        0x8Cu8 => '\u{0152}',
        0x8Eu8 => '\u{017D}',
        0x91u8 => '\u{2018}',
        0x92u8 => '\u{2019}',
        0x93u8 => '\u{201C}',
        0x94u8 => '\u{201D}',
        0x95u8 => '\u{2022}',
        0x96u8 => '\u{2013}',
        0x97u8 => '\u{2014}',
        0x98u8 => '\u{02DC}',
        0x99u8 => '\u{2122}',
        0x9Au8 => '\u{0161}',
        0x9Bu8 => '\u{203A}',
        0x9Cu8 => '\u{0153}',
        0x9Eu8 => '\u{017E}',
        0x9Fu8 => '\u{0178}',
        _ => (b as u32) as char,
    }
}

/// Each byte as its windows-1252 character.
pub open spec fn windows_1252_chars(s: Seq<u8>) -> Seq<char> {
    s.map_values(|b: u8| windows_1252_char(b))
}

/// The text of an 8-bit piece: one windows-1252 character per byte, unless
/// the bytes open with a byte-order mark.
pub open spec fn spec_decode_8bit(s: Seq<u8>) -> Seq<char> {
    if starts_with_bom(s) {
        spec_windows_1252_decode(s)
    } else {
        windows_1252_chars(s)
    }
}

/// Calls `encoding_rs::WINDOWS_1252.decode` and collects the decoded
/// characters. The result is named `spec_windows_1252_decode` of the bytes;
/// where the bytes open with no byte-order mark, `decode` uses windows-1252
/// itself, a single-byte encoding, and the contract states the character of
/// each byte. After a byte-order mark it decodes the rest as UTF-8 or
/// UTF-16, and nothing more is stated of that.
#[verifier::external_body]
fn decode_windows_1252(bytes: &[u8]) -> (r: Vec<char>)
    ensures
        r@ == spec_windows_1252_decode(bytes@),
        !starts_with_bom(bytes@) ==> r@ == windows_1252_chars(bytes@),
{
    let (decoded, _, _) = encoding_rs::WINDOWS_1252.decode(bytes);
    decoded.chars().collect()
}

/// A Unicode scalar value: no surrogate, at most U+10FFFF.
pub open spec fn is_scalar(u: u32) -> bool {
    u <= 0xD7FF || (0xE000 <= u && u <= 0x10FFFF)
}

/// `char::from_u32`: the character with code `u`, or `None` when `u` is not
/// a scalar value (as its documentation states).
#[verifier::external_body]
pub(crate) fn char_from_u32(u: u32) -> (r: Option<char>)
    ensures
        match r {
            Some(c) => is_scalar(u) && c == (u as char),
            None => !is_scalar(u),
        },
{
    char::from_u32(u)
}

/// The character of a UTF-16 code unit; a lone surrogate becomes U+FFFD.
pub open spec fn unit_char(u: u16) -> char {
    if 0xD800 <= u && u <= 0xDFFF {
        '\u{FFFD}'
    } else {
        (u as u32) as char
    }
}

/// The characters of `count` UTF-16LE code units at `off`.
pub open spec fn utf16_chars(wd: Seq<u8>, off: int, count: int) -> Seq<char> {
    Seq::new(count as nat, |i: int| unit_char(le16(wd, off + 2 * i)))
}

/// One piece's text appended to what came before: `None` where the piece
/// ends before it starts, so that counting its characters panics.
pub open spec fn piece_step(wd: Seq<u8>, acc: Seq<char>, p: PieceView) -> Option<
    Result<Seq<char>, DocErrorView>,
> {
    if p.cp_end < p.cp_start {
        None
    } else {
        let count = p.cp_end as int - p.cp_start as int;
        if p.compressed {
            let off = (p.fc / 2) as int;
            if off + count > wd.len() {
                Some(
                    Err(
                        DocErrorView::CompressedPieceOutOfRange {
                            offset: off as usize,
                            count: count as usize,
                            len: wd.len() as usize,
                        },
                    ),
                )
            } else {
                Some(Ok(acc + spec_decode_8bit(wd.subrange(off, off + count))))
            }
        } else {
            let off = p.fc as int;
            if off + count * 2 > wd.len() {
                Some(
                    Err(
                        DocErrorView::UncompressedPieceOutOfRange {
                            offset: off as usize,
                            count: (count * 2) as usize,
                            len: wd.len() as usize,
                        },
                    ),
                )
            } else {
                Some(Ok(acc + utf16_chars(wd, off, count)))
            }
        }
    }
}

/// The text of the first `k` pieces.
pub open spec fn spec_text_prefix(wd: Seq<u8>, pieces: Seq<PieceView>, k: nat) -> Option<
    Result<Seq<char>, DocErrorView>,
>
    decreases k,
{
    if k == 0 {
        Some(Ok(seq![]))
    } else {
        match spec_text_prefix(wd, pieces, (k - 1) as nat) {
            Some(Ok(acc)) => piece_step(wd, acc, pieces[k - 1]),
            other => other,
        }
    }
}

/// The document's characters, piece after piece: `None` where a piece that
/// is reached ends before it starts.
pub open spec fn spec_extract_text(wd: Seq<u8>, pieces: Seq<PieceView>) -> Option<
    Result<Seq<char>, DocErrorView>,
> {
    spec_text_prefix(wd, pieces, pieces.len())
}

/// The view of a text result.
pub open spec fn text_result_view(r: Result<Vec<char>, DocError>) -> Result<
    Seq<char>,
    DocErrorView,
> {
    match r {
        Ok(v) => Ok(v@),
        Err(e) => Err(e@),
    }
}

fn push_utf16(chars: &mut Vec<char>, wd: &[u8], off: usize, count: usize)
    requires
        off + count * 2 <= wd@.len(),
    ensures
        final(chars)@ == old(chars)@ + utf16_chars(wd@, off as int, count as int),
{
    let mut i: usize = 0;
    let n = wd.len();
    while i < count
        invariant
            i <= count,
            n == wd@.len(),
            off + count * 2 <= wd@.len(),
            chars@ =~= old(chars)@ + utf16_chars(wd@, off as int, i as int),
        decreases count - i,
    {
        let code_unit = read_u16(wd, off + i * 2);
        let c = match char_from_u32(code_unit as u32) {
            Some(c) => c,
            None => '\u{FFFD}',
        };
        assert(c == unit_char(code_unit)) by {
            if !(0xD800 <= code_unit && code_unit <= 0xDFFF) {
                assert(is_scalar(code_unit as u32));

            }
        }
        chars.push(c);
        i = i + 1;
    }
}

/// `extract_text` on every input: `None` exactly where its precondition fails.
pub fn try_extract_text(wd: &[u8], pieces: &[PieceDescriptor]) -> (r: Option<
    Result<Vec<char>, DocError>,
>)
    ensures
        match r {
            Some(res) => spec_extract_text(wd@, pieces_view(pieces@)) == Some(
                text_result_view(res),
            ),
            None => spec_extract_text(wd@, pieces_view(pieces@)) is None,
        },
{
    let ghost ps = pieces_view(pieces@);
    let len = wd.len();
    let mut chars: Vec<char> = Vec::new();
    let mut k: usize = 0;
    while k < pieces.len()
        invariant
            k <= pieces@.len(),
            ps == pieces_view(pieces@),
            len == wd@.len(),
            spec_text_prefix(wd@, ps, k as nat) == Some(
                Ok::<Seq<char>, DocErrorView>(chars@),
            ),
        decreases pieces@.len() - k,
    {
        let piece = &pieces[k];
        assert(ps[k as int] == piece@);
        if piece.cp_end < piece.cp_start {
            proof {
                lemma_prefix_stuck(wd@, ps, (k + 1) as nat, ps.len());
            }
            return None;
        }
        let char_count = (piece.cp_end - piece.cp_start) as usize;
        if piece.compressed {
            // ANSI: 1 byte per char, fc/2 is the byte offset
            let byte_off = (piece.fc / 2) as usize;
            if byte_off as u64 + char_count as u64 > len as u64 {
                proof {
                    lemma_prefix_stuck(wd@, ps, (k + 1) as nat, ps.len());
                }
                return Some(
                    Err(
                        DocError::CompressedPieceOutOfRange {
                            offset: byte_off,
                            count: char_count,
                            len,
                        },
                    ),
                );
            }
            let end = byte_off + char_count;
            let decoded = decode_windows_1252(&wd[byte_off..end]);
            push_all(&mut chars, decoded.as_slice());
        } else {
            // UTF-16LE: 2 bytes per char
            let byte_off = piece.fc as usize;
            if byte_off as u64 + 2 * (char_count as u64) > len as u64 {
                proof {
                    lemma_prefix_stuck(wd@, ps, (k + 1) as nat, ps.len());
                }
                return Some(
                    Err(
                        DocError::UncompressedPieceOutOfRange {
                            offset: byte_off,
                            count: ((char_count as u64) * 2) as usize,
                            len,
                        },
                    ),
                );
            }
            push_utf16(&mut chars, wd, byte_off, char_count);
        }
        k = k + 1;
    }
    Some(Ok(chars))
}

/// Once a prefix stops (an error or a panic), every longer prefix stops the
/// same way.
proof fn lemma_prefix_stuck(wd: Seq<u8>, ps: Seq<PieceView>, k: nat, n: nat)
    requires
        k <= n,
        !(spec_text_prefix(wd, ps, k) matches Some(Ok(_))),
    ensures
        spec_text_prefix(wd, ps, n) == spec_text_prefix(wd, ps, k),
    decreases n - k,
{
    if k < n {
        lemma_prefix_stuck(wd, ps, k + 1, n);
    }
}

pub fn extract_text(wd: &[u8], pieces: &[PieceDescriptor]) -> (r: Result<Vec<char>, DocError>)
    requires
        spec_extract_text(wd@, pieces_view(pieces@)) is Some,
    ensures
        spec_extract_text(wd@, pieces_view(pieces@)) == Some(text_result_view(r)),
{
    match try_extract_text(wd, pieces) {
        Some(r) => r,
        None => {
            proof {
                assert(false);
            }
            Err(DocError::FibTooShort)
        },
    }
}

} // verus!
