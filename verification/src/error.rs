//! The errors that reading a document can end in.

use vstd::prelude::*;
use crate::chartext::{decimal, hex2, hex4, push_decimal, push_hex2, push_hex4, push_str, string_from_chars};

verus! {

/// A stream listing as the contracts see it: `(path, size)` pairs.
pub type ListingView = Seq<(Seq<char>, u64)>;

/// The views of a stream listing.
pub open spec fn listing_view(v: Seq<(String, u64)>) -> ListingView {
    v.map_values(|e: (String, u64)| (e.0@, e.1))
}

#[derive(Debug)]
pub enum DocError {
    /// The data is shorter than one OLE2 header.
    TooSmall { len: usize },
    /// The OLE2 signature is missing.
    BadSignature,
    /// The sector shift is outside 9..=24.
    BadSectorShift { shift: u16 },
    /// The mini sector shift is outside 2..=sector shift.
    BadMiniShift { shift: u16 },
    /// The DIFAT names no readable FAT sector.
    NoFat,
    /// The directory chain holds no whole entry.
    NoDirectory,
    /// Neither reader could make sense of the container.
    OpenFailed,
    /// No `WordDocument` stream; the listing of the streams present.
    NoWordDocument { streams: Vec<(String, u64)> },
    /// The `WordDocument` stream cannot hold a FIB header.
    WordDocumentTooShort { len: usize },
    /// `fEncrypted` is set.
    Encrypted,
    /// A Word 6.0/95 document without a table stream.
    Word6 { w_ident: u16, n_fib: u16 },
    /// Neither table stream is present; which one the FIB asks for, and the listing.
    NoTableStream { prefers_one_table: bool, streams: Vec<(String, u64)> },
    /// The `WordDocument` stream is shorter than a FIB.
    FibTooShort,
    /// `wIdent` is not the Word 97 magic number.
    BadWIdent { w_ident: u16 },
    /// The CLX lies outside the table stream.
    ClxOutOfRange,
    /// A `PrcData` block is cut short.
    TruncatedPrcData,
    /// A CLX block starts with an unknown marker byte.
    BadClxMarker { marker: u8 },
    /// The `Pcdt` header is cut short.
    TruncatedPcdt,
    /// A compressed piece lies outside the `WordDocument` stream.
    CompressedPieceOutOfRange { offset: usize, count: usize, len: usize },
    /// An uncompressed piece lies outside the `WordDocument` stream.
    UncompressedPieceOutOfRange { offset: usize, count: usize, len: usize },
    /// The style sheet lies outside the table stream.
    StshOutOfRange,
    /// The style sheet is shorter than its header.
    StshTooShort,
    /// The paragraph property table lies outside the table stream.
    PapxOutOfRange,
}

/// `DocError` as the contracts see it.
pub enum DocErrorView {
    TooSmall { len: usize },
    BadSignature,
    BadSectorShift { shift: u16 },
    BadMiniShift { shift: u16 },
    NoFat,
    NoDirectory,
    OpenFailed,
    NoWordDocument { streams: ListingView },
    WordDocumentTooShort { len: usize },
    Encrypted,
    Word6 { w_ident: u16, n_fib: u16 },
    NoTableStream { prefers_one_table: bool, streams: ListingView },
    FibTooShort,
    BadWIdent { w_ident: u16 },
    ClxOutOfRange,
    TruncatedPrcData,
    BadClxMarker { marker: u8 },
    TruncatedPcdt,
    CompressedPieceOutOfRange { offset: usize, count: usize, len: usize },
    UncompressedPieceOutOfRange { offset: usize, count: usize, len: usize },
    StshOutOfRange,
    StshTooShort,
    PapxOutOfRange,
}

impl View for DocError {
    type V = DocErrorView;

    open spec fn view(&self) -> DocErrorView {
        match self {
            DocError::TooSmall { len } => DocErrorView::TooSmall { len: *len },
            DocError::BadSignature => DocErrorView::BadSignature,
            DocError::BadSectorShift { shift } => DocErrorView::BadSectorShift { shift: *shift },
            DocError::BadMiniShift { shift } => DocErrorView::BadMiniShift { shift: *shift },
            DocError::NoFat => DocErrorView::NoFat,
            DocError::NoDirectory => DocErrorView::NoDirectory,
            DocError::OpenFailed => DocErrorView::OpenFailed,
            DocError::NoWordDocument { streams } => DocErrorView::NoWordDocument {
                streams: listing_view(streams@),
            },
            DocError::WordDocumentTooShort { len } => DocErrorView::WordDocumentTooShort {
                len: *len,
            },
            DocError::Encrypted => DocErrorView::Encrypted,
            DocError::Word6 { w_ident, n_fib } => DocErrorView::Word6 {
                w_ident: *w_ident,
                n_fib: *n_fib,
            },
            DocError::NoTableStream { prefers_one_table, streams } =>
                DocErrorView::NoTableStream {
                prefers_one_table: *prefers_one_table,
                streams: listing_view(streams@),
            },
            DocError::FibTooShort => DocErrorView::FibTooShort,
            DocError::BadWIdent { w_ident } => DocErrorView::BadWIdent { w_ident: *w_ident },
            DocError::ClxOutOfRange => DocErrorView::ClxOutOfRange,
            DocError::TruncatedPrcData => DocErrorView::TruncatedPrcData,
            DocError::BadClxMarker { marker } => DocErrorView::BadClxMarker { marker: *marker },
            DocError::TruncatedPcdt => DocErrorView::TruncatedPcdt,
            DocError::CompressedPieceOutOfRange { offset, count, len } =>
                DocErrorView::CompressedPieceOutOfRange {
                offset: *offset,
                count: *count,
                len: *len,
            },
            DocError::UncompressedPieceOutOfRange { offset, count, len } =>
                DocErrorView::UncompressedPieceOutOfRange {
                offset: *offset,
                count: *count,
                len: *len,
            },
            DocError::StshOutOfRange => DocErrorView::StshOutOfRange,
            DocError::StshTooShort => DocErrorView::StshTooShort,
            DocError::PapxOutOfRange => DocErrorView::PapxOutOfRange,
        }
    }
}


// ---------------------------------------------------------------------------
// Rendering

/// One line of a stream listing: `  {name} ({size} bytes)`.
pub open spec fn listing_line(e: (Seq<char>, u64)) -> Seq<char> {
    "  "@ + e.0 + " ("@ + decimal(e.1 as nat) + " bytes)"@
}

/// The lines of a non-empty listing, joined by newlines.
pub open spec fn listing_lines(l: ListingView) -> Seq<char>
    decreases l.len(),
{
    if l.len() <= 1 {
        if l.len() == 1 {
            listing_line(l[0])
        } else {
            seq![]
        }
    } else {
        listing_lines(l.drop_last()) + "\n"@ + listing_line(l.last())
    }
}

/// A stream listing as error messages and inspection reports print it.
pub open spec fn spec_format_streams(l: ListingView) -> Seq<char> {
    if l.len() == 0 {
        "  (none)"@
    } else {
        listing_lines(l)
    }
}

/// Appends the listing of `streams` to `out`.
pub fn push_streams(out: &mut Vec<char>, streams: &Vec<(String, u64)>)
    ensures
        final(out)@ == old(out)@ + spec_format_streams(listing_view(streams@)),
{
    if streams.len() == 0 {
        push_str(out, "  (none)");
        return;
    }
    let ghost l = listing_view(streams@);
    let mut i: usize = 0;
    while i < streams.len()
        invariant
            i <= streams@.len(),
            l == listing_view(streams@),
            l.len() > 0,
            out@ == old(out)@ + listing_lines(l.take(i as int)),
        decreases streams@.len() - i,
    {
        assert(l.take(i + 1).drop_last() =~= l.take(i as int));
        assert(l.take(i + 1).last() == l[i as int]);
        if i > 0 {
            push_str(out, "\n");
        }
        push_str(out, "  ");
        push_str(out, streams[i].0.as_str());
        push_str(out, " (");
        push_decimal(out, streams[i].1);
        push_str(out, " bytes)");
        proof {
            if i == 0 {
                assert(l.take(1) =~= seq![l[0]]);
            }
        }
        assert(out@ =~= old(out)@ + listing_lines(l.take(i + 1)));
        i = i + 1;
    }
    assert(l.take(i as int) =~= l);
}

/// The message of an error, as the command line prints it.
pub open spec fn spec_error_message(e: DocErrorView) -> Seq<char> {
    match e {
        DocErrorView::TooSmall { len } => "File is too small to be an OLE2 container ("@ + decimal(
            len as nat,
        ) + " bytes)"@,
        DocErrorView::BadSignature => "Not an OLE2/CFB container (bad signature)"@,
        DocErrorView::BadSectorShift { shift } => "Unsupported OLE2 sector size (1 << "@ + decimal(
            shift as nat,
        ) + ")"@,
        DocErrorView::BadMiniShift { shift } => "Unsupported OLE2 mini sector size (1 << "@
            + decimal(shift as nat) + ")"@,
        DocErrorView::NoFat => "OLE2 container has no readable FAT"@,
        DocErrorView::NoDirectory => "OLE2 container has no readable directory"@,
        DocErrorView::OpenFailed => "Failed to open OLE2 container"@,
        DocErrorView::NoWordDocument { streams } =>
            "No WordDocument stream found \u{2014} this OLE2 file does not look like a Word .doc document.\nStreams in this container:\n"@
            + spec_format_streams(streams),
        DocErrorView::WordDocumentTooShort { len } => "WordDocument stream is too short ("@
            + decimal(len as nat) + " bytes)"@,
        DocErrorView::Encrypted =>
            "Document is encrypted or password-protected (fEncrypted is set); unword cannot read it"@,
        DocErrorView::Word6 { w_ident, n_fib } => "This is a Word 6.0/95 document (wIdent="@ + hex4(
            w_ident,
        ) + ", nFib="@ + decimal(n_fib as nat)
            + "), which stores its tables inside the WordDocument stream. unword only supports Word 97 and later; convert the file first (e.g. `libreoffice --convert-to doc`) or use antiword."@,
        DocErrorView::NoTableStream { prefers_one_table, streams } => {
            let preferred = if prefers_one_table {
                "1Table"@
            } else {
                "0Table"@
            };
            let fallback = if prefers_one_table {
                "0Table"@
            } else {
                "1Table"@
            };
            "Neither the "@ + preferred + " nor the "@ + fallback
                + " stream could be found (the FIB asks for "@ + preferred
                + ").\nStreams in this container:\n"@ + spec_format_streams(streams)
                + "\nPlease report this file at https://github.com/dridk/unword/issues (`unword -i FILE --inspect` prints this listing without any document content)."@
        },
        DocErrorView::FibTooShort => "WordDocument stream too short for FIB"@,
        DocErrorView::BadWIdent { w_ident } => "Invalid wIdent: expected 0xA5EC, got "@ + hex4(
            w_ident,
        ),
        DocErrorView::ClxOutOfRange => "CLX extends beyond table stream"@,
        DocErrorView::TruncatedPrcData => "Truncated PrcData"@,
        DocErrorView::BadClxMarker { marker } => "Unexpected CLX marker: "@ + hex2(marker),
        DocErrorView::TruncatedPcdt => "Truncated Pcdt header"@,
        DocErrorView::CompressedPieceOutOfRange { offset, count, len } =>
            "Compressed piece extends beyond WordDocument: offset "@ + decimal(offset as nat)
            + ", count "@ + decimal(count as nat) + ", stream len "@ + decimal(len as nat),
        DocErrorView::UncompressedPieceOutOfRange { offset, count, len } =>
            "Uncompressed piece extends beyond WordDocument: offset "@ + decimal(offset as nat)
            + ", count "@ + decimal(count as nat) + ", stream len "@ + decimal(len as nat),
        DocErrorView::StshOutOfRange => "STSH extends beyond table stream"@,
        DocErrorView::StshTooShort => "STSH too short"@,
        DocErrorView::PapxOutOfRange => "PlcfBtePapx extends beyond table stream"@,
    }
}

impl DocError {
    fn message_chars(&self) -> (r: Vec<char>)
        ensures
            r@ == spec_error_message(self@),
    {
        let mut out: Vec<char> = Vec::new();
        match self {
            DocError::TooSmall { len } => {
                push_str(&mut out, "File is too small to be an OLE2 container (");
                push_decimal(&mut out, *len as u64);
                push_str(&mut out, " bytes)");
            },
            DocError::BadSignature => {
                push_str(&mut out, "Not an OLE2/CFB container (bad signature)");
            },
            DocError::BadSectorShift { shift } => {
                push_str(&mut out, "Unsupported OLE2 sector size (1 << ");
                push_decimal(&mut out, *shift as u64);
                push_str(&mut out, ")");
            },
            DocError::BadMiniShift { shift } => {
                push_str(&mut out, "Unsupported OLE2 mini sector size (1 << ");
                push_decimal(&mut out, *shift as u64);
                push_str(&mut out, ")");
            },
            DocError::NoFat => {
                push_str(&mut out, "OLE2 container has no readable FAT");
            },
            DocError::NoDirectory => {
                push_str(&mut out, "OLE2 container has no readable directory");
            },
            DocError::OpenFailed => {
                push_str(&mut out, "Failed to open OLE2 container");
            },
            DocError::NoWordDocument { streams } => {
                push_str(
                    &mut out,
                    "No WordDocument stream found \u{2014} this OLE2 file does not look like a Word .doc document.\nStreams in this container:\n",
                );
                push_streams(&mut out, streams);
            },
            DocError::WordDocumentTooShort { len } => {
                push_str(&mut out, "WordDocument stream is too short (");
                push_decimal(&mut out, *len as u64);
                push_str(&mut out, " bytes)");
            },
            DocError::Encrypted => {
                push_str(
                    &mut out,
                    "Document is encrypted or password-protected (fEncrypted is set); unword cannot read it",
                );
            },
            DocError::Word6 { w_ident, n_fib } => {
                push_str(&mut out, "This is a Word 6.0/95 document (wIdent=");
                push_hex4(&mut out, *w_ident);
                push_str(&mut out, ", nFib=");
                push_decimal(&mut out, *n_fib as u64);
                push_str(
                    &mut out,
                    "), which stores its tables inside the WordDocument stream. unword only supports Word 97 and later; convert the file first (e.g. `libreoffice --convert-to doc`) or use antiword.",
                );
            },
            DocError::NoTableStream { prefers_one_table, streams } => {
                let (preferred, fallback) = if *prefers_one_table {
                    ("1Table", "0Table")
                } else {
                    ("0Table", "1Table")
                };
                push_str(&mut out, "Neither the ");
                push_str(&mut out, preferred);
                push_str(&mut out, " nor the ");
                push_str(&mut out, fallback);
                push_str(&mut out, " stream could be found (the FIB asks for ");
                push_str(&mut out, preferred);
                push_str(&mut out, ").\nStreams in this container:\n");
                push_streams(&mut out, streams);
                push_str(
                    &mut out,
                    "\nPlease report this file at https://github.com/dridk/unword/issues (`unword -i FILE --inspect` prints this listing without any document content).",
                );
            },
            DocError::FibTooShort => {
                push_str(&mut out, "WordDocument stream too short for FIB");
            },
            DocError::BadWIdent { w_ident } => {
                push_str(&mut out, "Invalid wIdent: expected 0xA5EC, got ");
                push_hex4(&mut out, *w_ident);
            },
            DocError::ClxOutOfRange => {
                push_str(&mut out, "CLX extends beyond table stream");
            },
            DocError::TruncatedPrcData => {
                push_str(&mut out, "Truncated PrcData");
            },
            DocError::BadClxMarker { marker } => {
                push_str(&mut out, "Unexpected CLX marker: ");
                push_hex2(&mut out, *marker);
            },
            DocError::TruncatedPcdt => {
                push_str(&mut out, "Truncated Pcdt header");
            },
            DocError::CompressedPieceOutOfRange { offset, count, len } => {
                push_str(&mut out, "Compressed piece extends beyond WordDocument: offset ");
                push_decimal(&mut out, *offset as u64);
                push_str(&mut out, ", count ");
                push_decimal(&mut out, *count as u64);
                push_str(&mut out, ", stream len ");
                push_decimal(&mut out, *len as u64);
            },
            DocError::UncompressedPieceOutOfRange { offset, count, len } => {
                push_str(&mut out, "Uncompressed piece extends beyond WordDocument: offset ");
                push_decimal(&mut out, *offset as u64);
                push_str(&mut out, ", count ");
                push_decimal(&mut out, *count as u64);
                push_str(&mut out, ", stream len ");
                push_decimal(&mut out, *len as u64);
            },
            DocError::StshOutOfRange => {
                push_str(&mut out, "STSH extends beyond table stream");
            },
            DocError::StshTooShort => {
                push_str(&mut out, "STSH too short");
            },
            DocError::PapxOutOfRange => {
                push_str(&mut out, "PlcfBtePapx extends beyond table stream");
            },
        }
        out
    }

    /// The error's message, as `Display` prints it on the command line.
    pub fn message(&self) -> (r: String)
        ensures
            r@ == spec_error_message(self@),
    {
        let cs = self.message_chars();
        string_from_chars(cs.as_slice())
    }
}

} // verus!
