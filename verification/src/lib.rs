//! Conversion of legacy Microsoft Word `.doc` files (OLE2/CFB containers)
//! to Markdown, with every parsing stage given a machine-checked contract.

pub mod bytes;
pub mod cfb_recover;
pub mod chartext;
pub mod clx;
pub mod error;
pub mod fib;
pub mod fields;
pub mod laws;
pub mod layout_laws;
pub mod markdown;
pub mod ole;
pub mod papx;
pub mod styles;
pub mod text;

use vstd::prelude::*;
use std::collections::HashMap;
use crate::clx::{PieceDescriptor, PieceView, pieces_view, spec_parse_clx, try_parse_clx};
use crate::error::{DocError, DocErrorView};
use crate::fib::{spec_parse_fib, try_parse_fib};
use crate::markdown::{Document, DocumentView, generate_markdown, spec_generate_markdown, txbx_start};
use crate::ole::{read_ole_streams, spec_read_ole_streams};
use crate::papx::{
    ParagraphStyle, any_heading, map_cp_to_heading, piece_arith_ok, pieces_arith_ok,
    spec_heading_map, spec_parse_papx, try_parse_papx,
};
use crate::styles::{spec_parse_stsh, try_parse_stsh};
use crate::text::{spec_extract_text, try_extract_text};

verus! {

broadcast use vstd::std_specs::hash::group_hash_axioms;

/// The last stages, once the characters, the pieces, the heading styles and
/// the paragraph runs are known: `None` where a piece's arithmetic overflows
/// while placing a heading, or the character counts of the FIB overflow.
pub open spec fn spec_render_stage(
    chars: Seq<char>,
    fib: crate::fib::Fib,
    pieces: Seq<PieceView>,
    headings: Map<u16, u8>,
    styles: Seq<ParagraphStyle>,
    strip_fields: bool,
) -> Option<Result<DocumentView, DocErrorView>> {
    if any_heading(styles, headings) && !pieces_arith_ok(pieces) {
        None
    } else if txbx_start(fib.ccp_text, fib.ccp_ftn, fib.ccp_hdd, fib.ccp_atn, fib.ccp_edn)
        + fib.ccp_txbx > u32::MAX {
        None
    } else {
        Some(
            Ok(
                spec_generate_markdown(
                    chars,
                    fib.ccp_text,
                    fib.ccp_ftn,
                    fib.ccp_hdd,
                    fib.ccp_atn,
                    fib.ccp_edn,
                    fib.ccp_txbx,
                    spec_heading_map(pieces, styles, headings, styles.len()),
                    strip_fields,
                ),
            ),
        )
    }
}

/// The stages after the piece table.
pub open spec fn spec_doc_from_pieces(
    wd: Seq<u8>,
    table: Seq<u8>,
    fib: crate::fib::Fib,
    pieces: Seq<PieceView>,
    strip_fields: bool,
) -> Option<Result<DocumentView, DocErrorView>> {
    match spec_extract_text(wd, pieces) {
        None => None,
        Some(Err(e)) => Some(Err(e)),
        Some(Ok(chars)) => match spec_parse_stsh(table, fib.fc_stshf, fib.lcb_stshf) {
            None => None,
            Some(Err(e)) => Some(Err(e)),
            Some(Ok(headings)) => match spec_parse_papx(
                table,
                wd,
                fib.fc_plcf_bte_papx,
                fib.lcb_plcf_bte_papx,
            ) {
                None => None,
                Some(Err(e)) => Some(Err(e)),
                Some(Ok(styles)) => spec_render_stage(
                    chars,
                    fib,
                    pieces,
                    headings,
                    styles,
                    strip_fields,
                ),
            },
        },
    }
}

/// A `.doc` file converted, stage after stage: the streams, the FIB, the
/// piece table, the text, the styles, the paragraph runs, and the Markdown.
/// `None` where a stage would panic on what the file announces.
pub open spec fn spec_parse_doc(data: Seq<u8>, strip_fields: bool) -> Option<
    Result<DocumentView, DocErrorView>,
> {
    match spec_read_ole_streams(data) {
        Err(e) => Some(Err(e)),
        Ok((wd, table)) => match spec_parse_fib(wd) {
            None => None,
            Some(Err(e)) => Some(Err(e)),
            Some(Ok(fib)) => match spec_parse_clx(table, fib.fc_clx, fib.lcb_clx) {
                None => None,
                Some(Err(e)) => Some(Err(e)),
                Some(Ok(pieces)) => spec_doc_from_pieces(wd, table, fib, pieces, strip_fields),
            },
        },
    }
}

/// The view of a conversion result.
pub open spec fn doc_result_view(r: Result<Document, DocError>) -> Result<
    DocumentView,
    DocErrorView,
> {
    match r {
        Ok(d) => Ok(d@),
        Err(e) => Err(e@),
    }
}

fn pieces_fit(pieces: &Vec<PieceDescriptor>) -> (r: bool)
    ensures
        r == pieces_arith_ok(pieces_view(pieces@)),
{
    let mut i: usize = 0;
    while i < pieces.len()
        invariant
            i <= pieces@.len(),
            forall|j: int| 0 <= j < i ==> piece_arith_ok(#[trigger] pieces_view(pieces@)[j]),
        decreases pieces@.len() - i,
    {
        let p = &pieces[i];
        assert(pieces_view(pieces@)[i as int] == p@);
        if p.cp_start > p.cp_end {
            return false;
        }
        let start: u64 = if p.compressed {
            (p.fc / 2) as u64
        } else {
            p.fc as u64
        };
        let count = (p.cp_end - p.cp_start) as u64;
        let end = if p.compressed {
            start + count
        } else {
            start + 2 * count
        };
        if end > u32::MAX as u64 {
            return false;
        }
        i = i + 1;
    }
    true
}

fn has_heading(styles: &Vec<ParagraphStyle>, headings: &HashMap<u16, u8>) -> (r: bool)
    ensures
        r == any_heading(styles@, headings@),
{
    let mut i: usize = 0;
    while i < styles.len()
        invariant
            i <= styles@.len(),
            forall|j: int| 0 <= j < i ==> !headings@.contains_key(#[trigger] styles@[j].istd),
        decreases styles@.len() - i,
    {
        if headings.contains_key(&styles[i].istd) {
            return true;
        }
        i = i + 1;
    }
    false
}

/// `parse_doc_with_options` on every input: `None` exactly where its
/// precondition fails, that is where a stage would panic.
pub fn try_parse_doc_with_options(data: &[u8], strip_fields: bool) -> (r: Option<
    Result<Document, DocError>,
>)
    ensures
        match r {
            Some(res) => spec_parse_doc(data@, strip_fields) == Some(doc_result_view(res)),
            None => spec_parse_doc(data@, strip_fields) is None,
        },
        data@.len() < 512 ==> (r matches Some(Err(e)) && e@ == DocErrorView::OpenFailed),
{
    let streams = match read_ole_streams(data) {
        Ok(s) => s,
        Err(e) => {
            return Some(Err(e));
        },
    };
    let wd = streams.word_document.as_slice();
    let table = streams.table.as_slice();
    let fib = match try_parse_fib(wd) {
        None => {
            return None;
        },
        Some(Err(e)) => {
            return Some(Err(e));
        },
        Some(Ok(f)) => f,
    };
    let pieces = match try_parse_clx(table, fib.fc_clx, fib.lcb_clx) {
        None => {
            return None;
        },
        Some(Err(e)) => {
            return Some(Err(e));
        },
        Some(Ok(p)) => p,
    };
    let chars = match try_extract_text(wd, pieces.as_slice()) {
        None => {
            return None;
        },
        Some(Err(e)) => {
            return Some(Err(e));
        },
        Some(Ok(c)) => c,
    };
    let heading_styles = match try_parse_stsh(table, fib.fc_stshf, fib.lcb_stshf) {
        None => {
            return None;
        },
        Some(Err(e)) => {
            return Some(Err(e));
        },
        Some(Ok(h)) => h,
    };
    let para_styles = match try_parse_papx(
        table,
        wd,
        fib.fc_plcf_bte_papx,
        fib.lcb_plcf_bte_papx,
    ) {
        None => {
            return None;
        },
        Some(Err(e)) => {
            return Some(Err(e));
        },
        Some(Ok(p)) => p,
    };
    if has_heading(&para_styles, &heading_styles) && !pieces_fit(&pieces) {
        return None;
    }
    let counts = fib.ccp_text as u64 + fib.ccp_ftn as u64 + fib.ccp_hdd as u64 + fib.ccp_atn as u64
        + fib.ccp_edn as u64 + fib.ccp_txbx as u64;
    if counts > u32::MAX as u64 {
        return None;
    }
    let cp_headings = map_cp_to_heading(pieces.as_slice(), para_styles.as_slice(), &heading_styles);
    let doc = generate_markdown(
        chars.as_slice(),
        fib.ccp_text,
        fib.ccp_ftn,
        fib.ccp_hdd,
        fib.ccp_atn,
        fib.ccp_edn,
        fib.ccp_txbx,
        &cp_headings,
        strip_fields,
    );
    Some(Ok(doc))
}

pub fn parse_doc_with_options(data: &[u8], strip_fields: bool) -> (r: Result<Document, DocError>)
    requires
        spec_parse_doc(data@, strip_fields) is Some,
    ensures
        spec_parse_doc(data@, strip_fields) == Some(doc_result_view(r)),
        data@.len() < 512 ==> (r matches Err(e) && e@ == DocErrorView::OpenFailed),
{
    match try_parse_doc_with_options(data, strip_fields) {
        Some(r) => r,
        None => {
            proof {
                assert(false);
            }
            Err(DocError::OpenFailed)
        },
    }
}

pub fn parse_doc(data: &[u8]) -> (r: Result<Document, DocError>)
    requires
        spec_parse_doc(data@, true) is Some,
    ensures
        spec_parse_doc(data@, true) == Some(doc_result_view(r)),
        data@.len() < 512 ==> (r matches Err(e) && e@ == DocErrorView::OpenFailed),
{
    parse_doc_with_options(data, true)
}

/// `parse_doc` on every input: `None` exactly where its precondition fails.
pub fn try_parse_doc(data: &[u8]) -> (r: Option<Result<Document, DocError>>)
    ensures
        match r {
            Some(res) => spec_parse_doc(data@, true) == Some(doc_result_view(res)),
            None => spec_parse_doc(data@, true) is None,
        },
        data@.len() < 512 ==> (r matches Some(Err(e)) && e@ == DocErrorView::OpenFailed),
{
    try_parse_doc_with_options(data, true)
}

} // verus!
