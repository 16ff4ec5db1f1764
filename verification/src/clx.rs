//! The piece table: where each run of characters is stored, and how.

use vstd::prelude::*;
use crate::bytes::{le16, le32, read_u16, read_u32};
use crate::error::{DocError, DocErrorView};

verus! {

pub struct PieceDescriptor {
    pub cp_start: u32,
    pub cp_end: u32,
    pub fc: u32,
    pub compressed: bool,
}

/// The views of a vector of pieces.
pub open spec fn pieces_view(v: Seq<PieceDescriptor>) -> Seq<PieceView> {
    v.map_values(|p: PieceDescriptor| p@)
}

/// A piece as the contracts see it.
pub struct PieceView {
    pub cp_start: u32,
    pub cp_end: u32,
    pub fc: u32,
    pub compressed: bool,
}

impl View for PieceDescriptor {
    type V = PieceView;

    open spec fn view(&self) -> PieceView {
        PieceView {
            cp_start: self.cp_start,
            cp_end: self.cp_end,
            fc: self.fc,
            compressed: self.compressed,
        }
    }
}

/// Skips the `Prc` blocks of a CLX from `pos`: where its `Pcdt` starts (the
/// byte after its marker, or the end of the CLX when the blocks run up to or
/// past it), or why the CLX is malformed.
pub open spec fn spec_clx_scan(clx: Seq<u8>, pos: int) -> Result<int, DocErrorView>
    decreases clx.len() - pos,
{
    if pos < 0 || pos >= clx.len() {
        Ok(pos)
    } else if clx[pos] == 1 {
        if pos + 3 > clx.len() {
            Err(DocErrorView::TruncatedPrcData)
        } else if pos + 3 + le16(clx, pos + 1) as int >= clx.len() {
            Ok(clx.len() as int)
        } else {
            spec_clx_scan(clx, pos + 3 + le16(clx, pos + 1) as int)
        }
    } else if clx[pos] == 2 {
        Ok(pos + 1)
    } else {
        Err(DocErrorView::BadClxMarker { marker: clx[pos] })
    }
}

/// Piece `i` of a `PlcPcd` that holds `n` pieces.
pub open spec fn spec_piece(plc: Seq<u8>, n: int, i: int) -> PieceView {
    let fc_raw = le32(plc, (n + 1) * 4 + i * 8 + 2);
    PieceView {
        cp_start: le32(plc, i * 4),
        cp_end: le32(plc, (i + 1) * 4),
        fc: fc_raw & 0x3FFF_FFFFu32,
        compressed: fc_raw & 0x4000_0000u32 != 0,
    }
}

/// The pieces of a `PlcPcd`: `(n + 1)` CPs and then `n` 8-byte PCDs.
pub open spec fn spec_plc_pieces(plc: Seq<u8>) -> Seq<PieceView> {
    let n = (plc.len() - 4) / 12;
    Seq::new(n as nat, |i: int| spec_piece(plc, n, i))
}

/// The piece table of the CLX at `fc_clx`: `None` where the `Pcdt` announces
/// a `PlcPcd` shorter than 4 bytes or longer than what follows, so that
/// reading it panics.
pub open spec fn spec_parse_clx(table: Seq<u8>, fc_clx: u32, lcb_clx: u32) -> Option<
    Result<Seq<PieceView>, DocErrorView>,
> {
    let start = fc_clx as int;
    let end = start + lcb_clx as int;
    if end > table.len() {
        Some(Err(DocErrorView::ClxOutOfRange))
    } else {
        let clx = table.subrange(start, end);
        match spec_clx_scan(clx, 0) {
            Err(e) => Some(Err(e)),
            Ok(pos) => if pos + 4 > clx.len() {
                Some(Err(DocErrorView::TruncatedPcdt))
            } else {
                let lcb = le32(clx, pos) as int;
                let p = pos + 4;
                if p + lcb > clx.len() || lcb < 4 {
                    None
                } else {
                    Some(Ok(spec_plc_pieces(clx.subrange(p, p + lcb))))
                }
            },
        }
    }
}

/// The view of a piece table result.
pub open spec fn pieces_result_view(r: Result<Vec<PieceDescriptor>, DocError>) -> Result<
    Seq<PieceView>,
    DocErrorView,
> {
    match r {
        Ok(v) => Ok(pieces_view(v@)),
        Err(e) => Err(e@),
    }
}

fn scan_clx(table: &[u8], start: usize, end: usize) -> (r: Result<usize, DocError>)
    requires
        start <= end <= table@.len(),
    ensures
        match r {
            Ok(p) => spec_clx_scan(table@.subrange(start as int, end as int), 0) == Ok::<
                int,
                DocErrorView,
            >(p - start),
            Err(e) => spec_clx_scan(table@.subrange(start as int, end as int), 0) == Err::<
                int,
                DocErrorView,
            >(e@),
        },
        match r {
            Ok(p) => start <= p <= end,
            Err(_) => true,
        },
{
    let ghost clx = table@.subrange(start as int, end as int);
    let mut pos: usize = start;
    while pos < end
        invariant
            start <= pos <= end,
            start <= end <= table@.len(),
            clx == table@.subrange(start as int, end as int),
            spec_clx_scan(clx, 0) == spec_clx_scan(clx, pos - start),
        decreases end - pos,
    {
        let marker = table[pos];
        assert(clx[pos - start] == marker);
        if marker == 0x01 {
            if end - pos < 3 {
                return Err(DocError::TruncatedPrcData);
            }
            let cb = read_u16(table, pos + 1) as usize;
            assert(le16(clx, pos - start + 1) == cb) by {
                assert(clx[pos - start + 1] == table@[pos + 1]);
                assert(clx[pos - start + 2] == table@[pos + 2]);
            }
            if end - pos - 3 < cb {
                return Ok(end);
            }
            pos = pos + 3 + cb;
        } else if marker == 0x02 {
            return Ok(pos + 1);
        } else {
            return Err(DocError::BadClxMarker { marker });
        }
    }
    Ok(pos)
}

/// `parse_clx` on every input: `None` exactly where its precondition fails.
pub fn try_parse_clx(table: &[u8], fc_clx: u32, lcb_clx: u32) -> (r: Option<
    Result<Vec<PieceDescriptor>, DocError>,
>)
    ensures
        match r {
            Some(res) => spec_parse_clx(table@, fc_clx, lcb_clx) == Some(pieces_result_view(res)),
            None => spec_parse_clx(table@, fc_clx, lcb_clx) is None,
        },
{
    let len = table.len();
    if fc_clx as u64 + lcb_clx as u64 > len as u64 {
        return Some(Err(DocError::ClxOutOfRange));
    }
    let start = fc_clx as usize;
    let end = start + lcb_clx as usize;
    let ghost clx = table@.subrange(start as int, end as int);
    // Skip RgPrc entries (type 0x01), find Pcdt (type 0x02)
    let pos = match scan_clx(table, start, end) {
        Ok(p) => p,
        Err(e) => {
            return Some(Err(e));
        },
    };
    // Pcdt: 4 bytes lcb, then PlcPcd
    if pos >= end || end - pos < 4 {
        proof {
            if pos < end {
                assert(pos - start + 4 > clx.len());
            }
        }
        return Some(Err(DocError::TruncatedPcdt));
    }
    let lcb = read_u32(table, pos) as usize;
    assert(le32(clx, pos - start) == lcb) by {
        assert(clx[pos - start] == table@[pos as int]);
        assert(clx[pos - start + 1] == table@[pos + 1]);
        assert(clx[pos - start + 2] == table@[pos + 2]);
        assert(clx[pos - start + 3] == table@[pos + 3]);
    }
    let p = pos + 4;
    if end - p < lcb || lcb < 4 {
        return None;
    }
    let ghost plc = table@.subrange(p as int, (p + lcb) as int);
    assert(plc =~= clx.subrange(p - start, p - start + lcb));
    // PlcPcd: (n+1) CPs (4 bytes each) followed by n PCDs (8 bytes each)
    let n = (lcb - 4) / 12;
    let cp_array_end = (n + 1) * 4;
    let mut pieces: Vec<PieceDescriptor> = Vec::new();
    let mut i: usize = 0;
    while i < n
        invariant
            i <= n,
            len == table@.len(),
            n == (lcb - 4) / 12,
            cp_array_end == (n + 1) * 4,
            p + lcb <= table@.len(),
            plc == table@.subrange(p as int, (p + lcb) as int),
            pieces_view(pieces@) =~= spec_plc_pieces(plc).take(i as int),
        decreases n - i,
    {
        let cp_start = read_u32(table, p + i * 4);
        let cp_end = read_u32(table, p + (i + 1) * 4);
        let pcd_off = cp_array_end + i * 8;
        // PCD: 2 bytes flags, 4 bytes fc_compressed, 2 bytes prm
        let fc_raw = read_u32(table, p + pcd_off + 2);
        proof {
            let a = i * 4;
            let b = (i + 1) * 4;
            let c = pcd_off + 2;
            assert(plc[a] == table@[p + a] && plc[a + 1] == table@[p + a + 1] && plc[a + 2]
                == table@[p + a + 2] && plc[a + 3] == table@[p + a + 3]);
            assert(plc[b] == table@[p + b] && plc[b + 1] == table@[p + b + 1] && plc[b + 2]
                == table@[p + b + 2] && plc[b + 3] == table@[p + b + 3]);
            assert(plc[c] == table@[p + c] && plc[c + 1] == table@[p + c + 1] && plc[c + 2]
                == table@[p + c + 2] && plc[c + 3] == table@[p + c + 3]);
        }
        let compressed = (fc_raw & 0x4000_0000) != 0;
        let fc = fc_raw & 0x3FFF_FFFF;
        let ghost before = pieces@;
        pieces.push(PieceDescriptor { cp_start, cp_end, fc, compressed });
        assert(pieces_view(pieces@) =~= pieces_view(before).push(spec_piece(plc, n as int, i as int)));
        i = i + 1;
    }
    assert(plc.len() == lcb);
    assert(spec_plc_pieces(plc).take(n as int) =~= spec_plc_pieces(plc));
    assert(spec_parse_clx(table@, fc_clx, lcb_clx) == Some(
        Ok::<Seq<PieceView>, DocErrorView>(spec_plc_pieces(plc)),
    ));
    Some(Ok(pieces))
}

pub fn parse_clx(table: &[u8], fc_clx: u32, lcb_clx: u32) -> (r: Result<
    Vec<PieceDescriptor>,
    DocError,
>)
    requires
        spec_parse_clx(table@, fc_clx, lcb_clx) is Some,
    ensures
        spec_parse_clx(table@, fc_clx, lcb_clx) == Some(pieces_result_view(r)),
{
    match try_parse_clx(table, fc_clx, lcb_clx) {
        Some(r) => r,
        None => {
            proof {
                assert(false);
            }
            Err(DocError::ClxOutOfRange)
        },
    }
}

} // verus!
