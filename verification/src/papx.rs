//! Paragraph properties: which style each paragraph uses, and where the
//! heading paragraphs start in the character stream.

use vstd::prelude::*;
use std::collections::HashMap;
use crate::bytes::{le16, le32, read_u16, read_u32};
use crate::clx::{PieceDescriptor, PieceView, pieces_view};
use crate::error::{DocError, DocErrorView};

verus! {

broadcast use vstd::std_specs::hash::group_hash_axioms;

pub struct ParagraphStyle {
    pub fc_start: u32,
    pub fc_end: u32,
    pub istd: u16,
}

/// Run `j` of a 512-byte `PapxFkp` page holding `cpara` runs: its FC range
/// and style, when its `PapxInFkp` can be located in the page.
pub open spec fn papx_run(page: Seq<u8>, cpara: int, j: int) -> Option<ParagraphStyle> {
    let bx = (cpara + 1) * 4 + j * 13;
    if bx >= 511 {
        None
    } else {
        let b = page[bx] as int * 2;
        if page[bx] == 0 || b >= 511 {
            None
        } else {
            let cb = page[b];
            if cb == 0 && b + 1 >= 511 {
                None
            } else {
                let gs = if cb == 0 {
                    b + 2
                } else {
                    b + 1
                };
                if gs + 2 > 512 {
                    None
                } else {
                    Some(
                        ParagraphStyle {
                            fc_start: le32(page, j * 4),
                            fc_end: le32(page, (j + 1) * 4),
                            istd: le16(page, gs),
                        },
                    )
                }
            }
        }
    }
}

/// The paragraph runs among the first `k` of a page.
pub open spec fn page_runs(page: Seq<u8>, cpara: int, k: nat) -> Seq<ParagraphStyle>
    decreases k,
{
    if k == 0 {
        seq![]
    } else {
        let prev = page_runs(page, cpara, (k - 1) as nat);
        match papx_run(page, cpara, k - 1) {
            Some(r) => prev.push(r),
            None => prev,
        }
    }
}

/// Page `i` of a `PlcBtePapx` holding `n` page numbers, when it lies inside
/// the `WordDocument` stream.
pub open spec fn papx_page(plcf: Seq<u8>, wd: Seq<u8>, n: int, i: int) -> Option<Seq<u8>> {
    let pn = le32(plcf, (n + 1) * 4 + i * 4) as int;
    let off = pn * 512;
    if off + 512 > wd.len() {
        None
    } else {
        Some(wd.subrange(off, off + 512))
    }
}

/// The runs of every page: its last byte counts them.
pub open spec fn page_all_runs(page: Seq<u8>) -> Seq<ParagraphStyle> {
    page_runs(page, page[511] as int, page[511] as nat)
}

/// The runs of the first `k` pages, in page order.
pub open spec fn papx_runs(plcf: Seq<u8>, wd: Seq<u8>, n: int, k: nat) -> Seq<ParagraphStyle>
    decreases k,
{
    if k == 0 {
        seq![]
    } else {
        papx_runs(plcf, wd, n, (k - 1) as nat) + match papx_page(plcf, wd, n, k - 1) {
            Some(page) => page_all_runs(page),
            None => seq![],
        }
    }
}

/// Every page read counts fewer than 128 runs, so that its FC array stays
/// inside the page.
pub open spec fn papx_pages_fit(plcf: Seq<u8>, wd: Seq<u8>, n: int) -> bool {
    forall|i: int|
        0 <= i < n ==> match #[trigger] papx_page(plcf, wd, n, i) {
            Some(page) => page[511] < 128,
            None => true,
        }
}

/// Where a stable insertion by `fc_start` puts `x`: before the first element
/// from `j` on that starts later.
pub open spec fn style_insert_pos(s: Seq<ParagraphStyle>, x: ParagraphStyle, j: int) -> int
    decreases s.len() - j,
{
    if j < 0 || j >= s.len() {
        s.len() as int
    } else if s[j].fc_start > x.fc_start {
        j
    } else {
        style_insert_pos(s, x, j + 1)
    }
}

/// The runs sorted stably by `fc_start`.
pub open spec fn sort_styles(s: Seq<ParagraphStyle>) -> Seq<ParagraphStyle>
    decreases s.len(),
{
    if s.len() == 0 {
        seq![]
    } else {
        let r = sort_styles(s.drop_last());
        r.insert(style_insert_pos(r, s.last(), 0), s.last())
    }
}

/// The paragraph runs of the `PlcBtePapx` at `fc_plcf`, sorted by their
/// first FC: `None` where it is shorter than 4 bytes or a page counts 128
/// runs or more, so that reading panics.
pub open spec fn spec_parse_papx(table: Seq<u8>, wd: Seq<u8>, fc_plcf: u32, lcb_plcf: u32) -> Option<
    Result<Seq<ParagraphStyle>, DocErrorView>,
> {
    let start = fc_plcf as int;
    let end = start + lcb_plcf as int;
    if end > table.len() {
        Some(Err(DocErrorView::PapxOutOfRange))
    } else if lcb_plcf < 4 {
        None
    } else {
        let plcf = table.subrange(start, end);
        let n = (lcb_plcf as int - 4) / 8;
        if !papx_pages_fit(plcf, wd, n) {
            None
        } else {
            Some(Ok(sort_styles(papx_runs(plcf, wd, n, n as nat))))
        }
    }
}

/// The view of a paragraph style result.
pub open spec fn papx_result_view(r: Result<Vec<ParagraphStyle>, DocError>) -> Result<
    Seq<ParagraphStyle>,
    DocErrorView,
> {
    match r {
        Ok(v) => Ok(v@),
        Err(e) => Err(e@),
    }
}

fn push_page_runs(out: &mut Vec<ParagraphStyle>, wd: &[u8], off: usize)
    requires
        off + 512 <= wd@.len(),
        wd@[off + 511] < 128,
    ensures
        final(out)@ == old(out)@ + page_all_runs(wd@.subrange(off as int, off + 512)),
{
    let ghost page = wd@.subrange(off as int, off + 512);
    let n = wd.len();
    let cpara = wd[off + 511] as usize;
    assert(page[511] == cpara);
    let fc_array_size = (cpara + 1) * 4;
    let mut j: usize = 0;
    while j < cpara
        invariant
            j <= cpara < 128,
            n == wd@.len(),
            off + 512 <= n,
            fc_array_size == (cpara + 1) * 4,
            page == wd@.subrange(off as int, off + 512),
            cpara == page[511],
            out@ == old(out)@ + page_runs(page, cpara as int, j as nat),
        decreases cpara - j,
    {
        let fc_start = read_u32(wd, off + j * 4);
        let fc_end = read_u32(wd, off + (j + 1) * 4);
        proof {
            let a = j * 4;
            let b = (j + 1) * 4;
            assert(page[a] == wd@[off + a] && page[a + 1] == wd@[off + a + 1] && page[a + 2]
                == wd@[off + a + 2] && page[a + 3] == wd@[off + a + 3]);
            assert(page[b] == wd@[off + b] && page[b + 1] == wd@[off + b + 1] && page[b + 2]
                == wd@[off + b + 2] && page[b + 3] == wd@[off + b + 3]);
        }
        let bx_off = fc_array_size + j * 13;
        let ghost before = out@;
        if bx_off < 511 {
            let w = wd[off + bx_off] as usize;
            assert(page[bx_off as int] == w);
            let papx_byte_off = w * 2;
            if w != 0 && papx_byte_off < 511 {
                let cb = wd[off + papx_byte_off];
                assert(page[papx_byte_off as int] == cb);
                if !(cb == 0 && papx_byte_off + 1 >= 511) {
                    let grpprl_start = if cb == 0 {
                        papx_byte_off + 2
                    } else {
                        papx_byte_off + 1
                    };
                    if grpprl_start + 2 <= 512 {
                        let istd = read_u16(wd, off + grpprl_start);
                        assert(page[grpprl_start as int] == wd@[off + grpprl_start]);
                        assert(page[grpprl_start + 1] == wd@[off + grpprl_start + 1]);
                        out.push(ParagraphStyle { fc_start, fc_end, istd });
                    }
                }
            }
        }
        assert(out@ =~= old(out)@ + page_runs(page, cpara as int, (j + 1) as nat));
        j = j + 1;
    }
}

/// Whether the page numbered at `pn_off` lies inside the stream, and where.
fn page_offset(table: &[u8], wd: &[u8], pn_off: usize) -> (r: Option<usize>)
    requires
        pn_off + 4 <= table@.len(),
    ensures
        match r {
            Some(off) => off == le32(table@, pn_off as int) as int * 512 && off + 512
                <= wd@.len(),
            None => le32(table@, pn_off as int) as int * 512 + 512 > wd@.len(),
        },
{
    let pn = read_u32(table, pn_off) as u64;
    let page_off = pn * 512;
    if page_off + 512 > wd.len() as u64 {
        None
    } else {
        Some(page_off as usize)
    }
}

/// `parse_papx` on every input: `None` exactly where its precondition fails.
pub fn try_parse_papx(table: &[u8], wd: &[u8], fc_plcf: u32, lcb_plcf: u32) -> (r: Option<
    Result<Vec<ParagraphStyle>, DocError>,
>)
    ensures
        match r {
            Some(res) => spec_parse_papx(table@, wd@, fc_plcf, lcb_plcf) == Some(
                papx_result_view(res),
            ),
            None => spec_parse_papx(table@, wd@, fc_plcf, lcb_plcf) is None,
        },
{
    let len = table.len();
    if fc_plcf as u64 + lcb_plcf as u64 > len as u64 {
        return Some(Err(DocError::PapxOutOfRange));
    }
    if lcb_plcf < 4 {
        return None;
    }
    let start = fc_plcf as usize;
    let end = start + lcb_plcf as usize;
    let ghost plcf = table@.subrange(start as int, end as int);
    // PlcBtePapx: (n+1) FCs (4 bytes) + n PnBtePapx (4 bytes each)
    let n = (lcb_plcf as usize - 4) / 8;
    let mut results: Vec<ParagraphStyle> = Vec::new();
    let mut i: usize = 0;
    while i < n
        invariant
            i <= n,
            n == (lcb_plcf - 4) / 8,
            start == fc_plcf,
            end == fc_plcf + lcb_plcf,
            end <= table@.len(),
            len == table@.len(),
            plcf == table@.subrange(start as int, end as int),
            forall|k: int| 0 <= k < i ==> match #[trigger] papx_page(plcf, wd@, n as int, k) {
                Some(page) => page[511] < 128,
                None => true,
            },
            results@ == papx_runs(plcf, wd@, n as int, i as nat),
        decreases n - i,
    {
        let pn_off = start + (n + 1) * 4 + i * 4;
        proof {
            let a = (n + 1) * 4 + i * 4;
            assert(plcf[a] == table@[pn_off as int] && plcf[a + 1] == table@[pn_off + 1]
                && plcf[a + 2] == table@[pn_off + 2] && plcf[a + 3] == table@[pn_off + 3]);
        }
        let ghost before = results@;
        match page_offset(table, wd, pn_off) {
            None => {
                assert(papx_page(plcf, wd@, n as int, i as int) is None);
                assert(results@ =~= papx_runs(plcf, wd@, n as int, (i + 1) as nat));
            },
            Some(off) => {
                let ghost page = wd@.subrange(off as int, off + 512);
                assert(papx_page(plcf, wd@, n as int, i as int) == Some(page));
                if wd[off + 511] >= 128 {
                    assert(page[511] >= 128);
                    assert(!papx_pages_fit(plcf, wd@, n as int));
                    return None;
                }
                push_page_runs(&mut results, wd, off);
                assert(results@ =~= papx_runs(plcf, wd@, n as int, (i + 1) as nat));
            },
        }
        i = i + 1;
    }
    let sorted = sort_by_fc(&results);
    Some(Ok(sorted))
}

fn copy_style(p: &ParagraphStyle) -> (r: ParagraphStyle)
    ensures
        r == *p,
{
    ParagraphStyle { fc_start: p.fc_start, fc_end: p.fc_end, istd: p.istd }
}

fn sort_by_fc(v: &Vec<ParagraphStyle>) -> (r: Vec<ParagraphStyle>)
    ensures
        r@ == sort_styles(v@),
{
    let mut sorted: Vec<ParagraphStyle> = Vec::new();
    let mut i: usize = 0;
    while i < v.len()
        invariant
            i <= v@.len(),
            sorted@ == sort_styles(v@.take(i as int)),
        decreases v@.len() - i,
    {
        assert(v@.take(i + 1).drop_last() =~= v@.take(i as int));
        let x = copy_style(&v[i]);
        let ghost r = sorted@;
        let mut j: usize = 0;
        while j < sorted.len() && sorted[j].fc_start <= x.fc_start
            invariant
                j <= sorted@.len(),
                r == sorted@,
                style_insert_pos(r, x, 0) == style_insert_pos(r, x, j as int),
            decreases sorted@.len() - j,
        {
            j = j + 1;
        }
        sorted.insert(j, x);
        i = i + 1;
    }
    assert(v@.take(i as int) =~= v@);
    sorted
}

/// Parse PlcBtePapx to get paragraph FC ranges and their style indices.
pub fn parse_papx(table: &[u8], wd: &[u8], fc_plcf: u32, lcb_plcf: u32) -> (r: Result<
    Vec<ParagraphStyle>,
    DocError,
>)
    requires
        spec_parse_papx(table@, wd@, fc_plcf, lcb_plcf) is Some,
    ensures
        spec_parse_papx(table@, wd@, fc_plcf, lcb_plcf) == Some(papx_result_view(r)),
{
    match try_parse_papx(table, wd, fc_plcf, lcb_plcf) {
        Some(r) => r,
        None => {
            proof {
                assert(false);
            }
            Err(DocError::PapxOutOfRange)
        },
    }
}

// ---------------------------------------------------------------------------
// From FC to CP

/// Where a piece's bytes start.
pub open spec fn piece_fc_start(p: PieceView) -> int {
    if p.compressed {
        (p.fc / 2) as int
    } else {
        p.fc as int
    }
}

/// Where a piece's bytes end.
pub open spec fn piece_fc_end(p: PieceView) -> int {
    piece_fc_start(p) + (p.cp_end as int - p.cp_start as int) * if p.compressed {
        1int
    } else {
        2int
    }
}

/// The piece's arithmetic stays within `u32`: it does not end before it
/// starts, and its byte range ends below `u32::MAX`.
pub open spec fn piece_arith_ok(p: PieceView) -> bool {
    p.cp_start <= p.cp_end && piece_fc_end(p) <= u32::MAX
}

/// The CP of the paragraph starting at byte `ps_fc` of `WordDocument`,
/// when that byte lies in the piece's text: one byte per character in an
/// 8-bit piece, two in a Unicode one.
pub open spec fn piece_cp_of(p: PieceView, ps_fc: u32) -> Option<u32> {
    if ps_fc >= piece_fc_start(p) && ps_fc < piece_fc_end(p) {
        let off = if p.compressed {
            ps_fc - piece_fc_start(p)
        } else {
            (ps_fc - piece_fc_start(p)) / 2
        };
        Some((p.cp_start as int + off) as u32)
    } else {
        None
    }
}

/// `m` with the paragraph at FC `ps_fc` marked as heading `level` in each
/// of the first `k` pieces that holds it.
pub open spec fn insert_piece_cps(
    m: Map<u32, u8>,
    pieces: Seq<PieceView>,
    ps_fc: u32,
    level: u8,
    k: nat,
) -> Map<u32, u8>
    decreases k,
{
    if k == 0 {
        m
    } else {
        let prev = insert_piece_cps(m, pieces, ps_fc, level, (k - 1) as nat);
        match piece_cp_of(pieces[k - 1], ps_fc) {
            Some(cp) => prev.insert(cp, level),
            None => prev,
        }
    }
}

/// The heading levels by CP that the first `k` paragraph runs give.
pub open spec fn spec_heading_map(
    pieces: Seq<PieceView>,
    styles: Seq<ParagraphStyle>,
    headings: Map<u16, u8>,
    k: nat,
) -> Map<u32, u8>
    decreases k,
{
    if k == 0 {
        Map::empty()
    } else {
        let m = spec_heading_map(pieces, styles, headings, (k - 1) as nat);
        let ps = styles[k - 1];
        if headings.contains_key(ps.istd) {
            insert_piece_cps(m, pieces, ps.fc_start, headings[ps.istd], pieces.len())
        } else {
            m
        }
    }
}

/// Some paragraph run uses a heading style.
pub open spec fn any_heading(styles: Seq<ParagraphStyle>, headings: Map<u16, u8>) -> bool {
    exists|i: int| 0 <= i < styles.len() && headings.contains_key(#[trigger] styles[i].istd)
}

/// The arithmetic of every piece stays within `u32`.
pub open spec fn pieces_arith_ok(pieces: Seq<PieceView>) -> bool {
    forall|j: int| 0 <= j < pieces.len() ==> piece_arith_ok(#[trigger] pieces[j])
}

fn insert_cps(
    m: &mut HashMap<u32, u8>,
    pieces: &[PieceDescriptor],
    ps_fc: u32,
    level: u8,
)
    requires
        pieces_arith_ok(pieces_view(pieces@)),
    ensures
        final(m)@ == insert_piece_cps(
            old(m)@,
            pieces_view(pieces@),
            ps_fc,
            level,
            pieces@.len(),
        ),
{
    let ghost pv = pieces_view(pieces@);
    let mut k: usize = 0;
    while k < pieces.len()
        invariant
            k <= pieces@.len(),
            pv == pieces_view(pieces@),
            pieces_arith_ok(pv),
            m@ == insert_piece_cps(old(m)@, pv, ps_fc, level, k as nat),
        decreases pieces@.len() - k,
    {
        let piece = &pieces[k];
        assert(pv[k as int] == piece@);
        assert(piece_arith_ok(pv[k as int]));
        let piece_char_count = piece.cp_end - piece.cp_start;
        if piece.compressed {
            // ANSI: one byte per character, fc/2 is the byte offset
            let piece_fc_start = piece.fc / 2;
            let piece_fc_end = piece_fc_start + piece_char_count;
            // Paragraph FCs are byte offsets into WordDocument
            if ps_fc >= piece_fc_start && ps_fc < piece_fc_end {
                let cp = piece.cp_start + (ps_fc - piece_fc_start);
                m.insert(cp, level);
            }
        } else {
            // UTF-16: two bytes per character
            let piece_fc_start = piece.fc;
            let piece_fc_end = piece_fc_start + piece_char_count * 2;
            if ps_fc >= piece_fc_start && ps_fc < piece_fc_end {
                let cp = piece.cp_start + (ps_fc - piece_fc_start) / 2;
                m.insert(cp, level);
            }
        }
        k = k + 1;
    }
}

/// Map character positions to heading levels using paragraph styles and piece table.
/// Returns a map from CP of paragraph start to heading level.
pub fn map_cp_to_heading(
    pieces: &[PieceDescriptor],
    para_styles: &[ParagraphStyle],
    heading_styles: &HashMap<u16, u8>,
) -> (r: HashMap<u32, u8>)
    requires
        any_heading(para_styles@, heading_styles@) ==> pieces_arith_ok(pieces_view(pieces@)),
    ensures
        r@ == spec_heading_map(
            pieces_view(pieces@),
            para_styles@,
            heading_styles@,
            para_styles@.len(),
        ),
{
    let mut cp_headings: HashMap<u32, u8> = HashMap::new();
    let mut i: usize = 0;
    while i < para_styles.len()
        invariant
            i <= para_styles@.len(),
            any_heading(para_styles@, heading_styles@) ==> pieces_arith_ok(pieces_view(pieces@)),
            cp_headings@ == spec_heading_map(
                pieces_view(pieces@),
                para_styles@,
                heading_styles@,
                i as nat,
            ),
        decreases para_styles@.len() - i,
    {
        let ps = &para_styles[i];
        match heading_styles.get(&ps.istd) {
            Some(level) => {
                assert(heading_styles@.contains_key(para_styles@[i as int].istd));
                insert_cps(&mut cp_headings, pieces, ps.fc_start, *level);
            },
            None => {},
        }
        i = i + 1;
    }
    cp_headings
}

} // verus!
