//! The File Information Block: counts of characters per document part and
//! the positions of the tables this converter reads.

use vstd::prelude::*;
use crate::bytes::{le16, le32, read_u16, read_u32};
use crate::error::{DocError, DocErrorView};

verus! {

pub struct Fib {
    pub ccp_text: u32,
    pub ccp_ftn: u32,
    pub ccp_hdd: u32,
    pub ccp_atn: u32,
    pub ccp_edn: u32,
    pub ccp_txbx: u32,
    pub fc_clx: u32,
    pub lcb_clx: u32,
    pub fc_stshf: u32,
    pub lcb_stshf: u32,
    pub fc_plcf_bte_papx: u32,
    pub lcb_plcf_bte_papx: u32,
}

/// Where `FibRgLw97` starts: after `FibBase`, `csw`, `FibRgW97` and `cslw`.
pub open spec fn rg_lw_start(wd: Seq<u8>) -> int {
    34 + le16(wd, 32) as int * 2 + 2
}

/// Where `FibRgFcLcb97` starts: after `FibRgLw97` and `cbRgFcLcb`.
pub open spec fn rg_fc_start(wd: Seq<u8>) -> int {
    rg_lw_start(wd) + le16(wd, rg_lw_start(wd) - 2) as int * 4 + 2
}

/// Every field the FIB parser reads lies inside the stream.
pub open spec fn fib_in_range(wd: Seq<u8>) -> bool {
    rg_lw_start(wd) + 40 <= wd.len() && rg_fc_start(wd) + 272 <= wd.len()
}

/// The FIB fields read from a `WordDocument` stream: `None` where the
/// stream announces blocks that run past its end, so that reading panics.
pub open spec fn spec_parse_fib(wd: Seq<u8>) -> Option<Result<Fib, DocErrorView>> {
    if wd.len() < 898 {
        Some(Err(DocErrorView::FibTooShort))
    } else if le16(wd, 0) != 0xA5ECu16 {
        Some(Err(DocErrorView::BadWIdent { w_ident: le16(wd, 0) }))
    } else if !fib_in_range(wd) {
        None
    } else {
        let lw = rg_lw_start(wd);
        let fc = rg_fc_start(wd);
        Some(
            Ok(
                Fib {
                    ccp_text: le32(wd, lw + 12),
                    ccp_ftn: le32(wd, lw + 16),
                    ccp_hdd: le32(wd, lw + 20),
                    ccp_atn: le32(wd, lw + 28),
                    ccp_edn: le32(wd, lw + 32),
                    ccp_txbx: le32(wd, lw + 36),
                    fc_clx: le32(wd, fc + 264),
                    lcb_clx: le32(wd, fc + 268),
                    fc_stshf: le32(wd, fc + 8),
                    lcb_stshf: le32(wd, fc + 12),
                    fc_plcf_bte_papx: le32(wd, fc + 104),
                    lcb_plcf_bte_papx: le32(wd, fc + 108),
                },
            ),
        )
    }
}

/// The view of a FIB result.
pub open spec fn fib_result_view(r: Result<Fib, DocError>) -> Result<Fib, DocErrorView> {
    match r {
        Ok(f) => Ok(f),
        Err(e) => Err(e@),
    }
}

/// `parse_fib` on every stream: `None` exactly where `parse_fib`'s
/// precondition fails.
pub fn try_parse_fib(wd: &[u8]) -> (r: Option<Result<Fib, DocError>>)
    ensures
        match r {
            Some(res) => spec_parse_fib(wd@) == Some(fib_result_view(res)),
            None => spec_parse_fib(wd@) is None,
        },
{
    let len = wd.len();
    if len < 898 {
        return Some(Err(DocError::FibTooShort));
    }
    let w_ident = read_u16(wd, 0);
    if w_ident != 0xA5EC {
        return Some(Err(DocError::BadWIdent { w_ident }));
    }
    // FibBase is 32 bytes at offset 0; csw at 32; FibRgW97 is csw shorts.
    let csw = read_u16(wd, 32) as usize;
    let rg_w_end = 34 + csw * 2;
    if rg_w_end + 2 + 40 > len {
        return None;
    }
    let cslw = read_u16(wd, rg_w_end) as usize;
    let rg_lw_start = rg_w_end + 2;
    let rg_lw_end = rg_lw_start + cslw * 4;
    let rg_fc_start = rg_lw_end + 2;
    if rg_fc_start + 272 > len {
        return None;
    }
    let ccp_text = read_u32(wd, rg_lw_start + 12);
    let ccp_ftn = read_u32(wd, rg_lw_start + 16);
    let ccp_hdd = read_u32(wd, rg_lw_start + 20);
    // offset 24 = ccpMcr (skipped)
    let ccp_atn = read_u32(wd, rg_lw_start + 28);
    let ccp_edn = read_u32(wd, rg_lw_start + 32);
    let ccp_txbx = read_u32(wd, rg_lw_start + 36);
    // FibRgFcLcb97: pairs of fc and lcb, 8 bytes each
    let fc_stshf = read_u32(wd, rg_fc_start + 8);
    let lcb_stshf = read_u32(wd, rg_fc_start + 12);
    let fc_plcf_bte_papx = read_u32(wd, rg_fc_start + 104);
    let lcb_plcf_bte_papx = read_u32(wd, rg_fc_start + 108);
    let fc_clx = read_u32(wd, rg_fc_start + 264);
    let lcb_clx = read_u32(wd, rg_fc_start + 268);
    Some(
        Ok(
            Fib {
                ccp_text,
                ccp_ftn,
                ccp_hdd,
                ccp_atn,
                ccp_edn,
                ccp_txbx,
                fc_clx,
                lcb_clx,
                fc_stshf,
                lcb_stshf,
                fc_plcf_bte_papx,
                lcb_plcf_bte_papx,
            },
        ),
    )
}

pub fn parse_fib(wd: &[u8]) -> (r: Result<Fib, DocError>)
    requires
        spec_parse_fib(wd@) is Some,
    ensures
        spec_parse_fib(wd@) == Some(fib_result_view(r)),
{
    match try_parse_fib(wd) {
        Some(r) => r,
        None => {
            proof {
                assert(false);
            }
            Err(DocError::FibTooShort)
        },
    }
}

} // verus!
