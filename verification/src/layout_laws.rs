//! Properties stated directly over the bytes of the file formats: where each
//! field the converter reads lies, written out from the format's layout.

use vstd::prelude::*;
use crate::fib::spec_parse_fib;
use crate::markdown::spec_generate_markdown;
use crate::cfb_recover::{
    CfbModel, RawEntryView, next_in, spec_chain, spec_gather_mini, spec_gather_sectors,
    spec_read_entry,
    spec_sector_offset,
};

verus! {

/// The 16-bit little-endian number at `off`, byte by byte.
pub open spec fn u16_bytes(s: Seq<u8>, off: int) -> int {
    s[off] as int + s[off + 1] as int * 256
}

/// The 32-bit little-endian number at `off`, byte by byte.
pub open spec fn u32_bytes(s: Seq<u8>, off: int) -> int {
    s[off] as int + s[off + 1] as int * 256 + s[off + 2] as int * 65536 + s[off + 3] as int
        * 16777216
}

// ---------------------------------------------------------------------------
// The FIB

/// Where `FibRgLw97` starts: `FibBase` is 32 bytes, then `csw` (2 bytes),
/// `csw` 16-bit words of `FibRgW97`, then `cslw` (2 bytes).
pub open spec fn fib_lw_at(wd: Seq<u8>) -> int {
    32 + 2 + 2 * u16_bytes(wd, 32) + 2
}

/// Where `FibRgFcLcb97` starts: after `cslw` 32-bit words of `FibRgLw97`
/// and `cbRgFcLcb` (2 bytes).
pub open spec fn fib_fc_at(wd: Seq<u8>) -> int {
    fib_lw_at(wd) + 4 * u16_bytes(wd, fib_lw_at(wd) - 2) + 2
}

/// The stream is long enough for a FIB, opens with `wIdent` 0xA5EC, and
/// holds the fields read at the places `csw` and `cslw` put them.
pub open spec fn fib_readable(wd: Seq<u8>) -> bool {
    &&& wd.len() >= 898
    &&& wd[0] == 0xEC && wd[1] == 0xA5
    &&& fib_lw_at(wd) + 40 <= wd.len()
    &&& fib_fc_at(wd) + 272 <= wd.len()
}

/// The FIB is read where its counts put it: the character counts from
/// `FibRgLw97`, whose place moves with `csw`, and the table positions from
/// `FibRgFcLcb97`, whose place moves with `cslw` too; and it is read
/// exactly when the stream holds those fields.
pub proof fn law_fib_fields_follow_the_counts(wd: Seq<u8>)
    ensures
        (spec_parse_fib(wd) matches Some(Ok(_))) <==> fib_readable(wd),
        match spec_parse_fib(wd) {
            Some(Ok(f)) => {
                let lw = fib_lw_at(wd);
                let fc = fib_fc_at(wd);
                &&& f.ccp_text == u32_bytes(wd, lw + 12)
                &&& f.ccp_ftn == u32_bytes(wd, lw + 16)
                &&& f.ccp_hdd == u32_bytes(wd, lw + 20)
                &&& f.ccp_atn == u32_bytes(wd, lw + 28)
                &&& f.ccp_edn == u32_bytes(wd, lw + 32)
                &&& f.ccp_txbx == u32_bytes(wd, lw + 36)
                &&& f.fc_stshf == u32_bytes(wd, fc + 8)
                &&& f.lcb_stshf == u32_bytes(wd, fc + 12)
                &&& f.fc_plcf_bte_papx == u32_bytes(wd, fc + 104)
                &&& f.lcb_plcf_bte_papx == u32_bytes(wd, fc + 108)
                &&& f.fc_clx == u32_bytes(wd, fc + 264)
                &&& f.lcb_clx == u32_bytes(wd, fc + 268)
            },
            _ => true,
        },
{
    if wd.len() >= 898 {
        assert((crate::bytes::le16(wd, 0) == 0xA5ECu16) <==> (wd[0] == 0xEC && wd[1] == 0xA5));
    }
}

// ---------------------------------------------------------------------------
// The textboxes

/// The textboxes come from the textbox part of the character stream, which
/// follows the body, the footnotes, the headers, the comments and the
/// endnotes: characters before `ccp_text + ccp_ftn + ccp_hdd + ccp_atn +
/// ccp_edn` never change them.
pub proof fn law_textboxes_follow_every_other_part(
    c1: Seq<char>,
    c2: Seq<char>,
    ccp_text: u32,
    ccp_ftn: u32,
    ccp_hdd: u32,
    ccp_atn: u32,
    ccp_edn: u32,
    ccp_txbx: u32,
    headings: Map<u32, u8>,
    strip_fields: bool,
)
    requires
        c1.len() == c2.len(),
        forall|i: int|
            ccp_text + ccp_ftn + ccp_hdd + ccp_atn + ccp_edn <= i < c1.len() ==> c1[i] == c2[i],
    ensures
        spec_generate_markdown(
            c1,
            ccp_text,
            ccp_ftn,
            ccp_hdd,
            ccp_atn,
            ccp_edn,
            ccp_txbx,
            headings,
            strip_fields,
        ).1 == spec_generate_markdown(
            c2,
            ccp_text,
            ccp_ftn,
            ccp_hdd,
            ccp_atn,
            ccp_edn,
            ccp_txbx,
            headings,
            strip_fields,
        ).1,
{
    let s = crate::markdown::txbx_start(ccp_text, ccp_ftn, ccp_hdd, ccp_atn, ccp_edn);
    let e = crate::markdown::min_u32((s + ccp_txbx) as u32, c1.len() as u32) as int;
    if s < e {
        assert(c1.subrange(s, e) =~= c2.subrange(s, e));
    }
}

/// Without textbox characters there is no textbox.
pub proof fn law_no_textbox_characters_no_textboxes(
    chars: Seq<char>,
    ccp_text: u32,
    ccp_ftn: u32,
    ccp_hdd: u32,
    ccp_atn: u32,
    ccp_edn: u32,
    headings: Map<u32, u8>,
    strip_fields: bool,
)
    requires
        ccp_text + ccp_ftn + ccp_hdd + ccp_atn + ccp_edn <= u32::MAX,
    ensures
        spec_generate_markdown(
            chars,
            ccp_text,
            ccp_ftn,
            ccp_hdd,
            ccp_atn,
            ccp_edn,
            0,
            headings,
            strip_fields,
        ).1.len() == 0,
{
}

// ---------------------------------------------------------------------------
// Streams read by the fallback reader

/// Sector `k` of the FAT chain that starts at `s`: `s`, `fat[s]`,
/// `fat[fat[s]]`, and so on (end of chain once a sector lies past the FAT).
pub open spec fn fat_walk(fat: Seq<u32>, s: u32, k: nat) -> u32
    decreases k,
{
    if k == 0 {
        s
    } else {
        let prev = fat_walk(fat, s, (k - 1) as nat);
        if (prev as int) < fat.len() {
            fat[prev as int]
        } else {
            u32::MAX
        }
    }
}

proof fn lemma_chain_walk(fat: Seq<u32>, id: u32, max: int, count: nat, s: u32, k0: nat)
    requires
        id == fat_walk(fat, s, k0),
    ensures
        forall|t: int|
            0 <= t < spec_chain(fat, id, max, count).len() ==> #[trigger] spec_chain(
                fat,
                id,
                max,
                count,
            )[t] == fat_walk(fat, s, (k0 + t) as nat),
    decreases fat.len() + 1 - count,
{
    if id <= crate::cfb_recover::max_reg_sect() && count < max && count <= fat.len() {
        let next = next_in(fat, id);
        assert(next == fat_walk(fat, s, k0 + 1));
        lemma_chain_walk(fat, next, max, count + 1, s, k0 + 1);
        let c = spec_chain(fat, id, max, count);
        let rest = spec_chain(fat, next, max, count + 1);
        assert(c == seq![id] + rest);
        assert forall|t: int| 0 <= t < c.len() implies #[trigger] c[t] == fat_walk(
            fat,
            s,
            (k0 + t) as nat,
        ) by {
            if t > 0 {
                assert(c[t] == rest[t - 1]);
            }
        }
    }
}

proof fn lemma_gather_bytes(data: Seq<u8>, ss: nat, ids: Seq<u32>, p: int)
    requires
        ss > 0,
        0 <= p < spec_gather_sectors(data, ss, ids).len(),
    ensures
        p / (ss as int) < ids.len(),
        spec_gather_sectors(data, ss, ids)[p] == data[(ids[p / (ss as int)] as int + 1) * ss + p
            % (ss as int)],
    decreases ids.len(),
{
    let off = spec_sector_offset(data.len() as int, ss as int, ids[0])->Some_0;
    let rest = spec_gather_sectors(data, ss, ids.drop_first());
    let sz = ss as int;
    if p < sz {
        assert(p / sz == 0 && p % sz == p) by (nonlinear_arith)
            requires
                0 <= p < sz,
        ;
    } else {
        assert((p - sz) / sz == p / sz - 1 && (p - sz) % sz == p % sz) by (nonlinear_arith)
            requires
                sz <= p,
                sz > 0,
        ;
        lemma_gather_bytes(data, ss, ids.drop_first(), p - sz);
        assert(ids.drop_first()[(p - sz) / sz] == ids[p / sz]);
    }
}

/// A stream at least as large as the mini cutoff is read, by the fallback
/// reader, from the sectors of its FAT chain: byte `p` of it is byte
/// `p % sector_size` of sector `p / sector_size` of the chain from its start
/// sector, sector `id` lying at byte `(id + 1) * sector_size`.
pub proof fn law_large_stream_follows_the_fat(m: CfbModel, e: RawEntryView)
    requires
        e.size >= m.mini_cutoff,
        m.sector_size > 0,
    ensures
        forall|p: int|
            0 <= p < spec_read_entry(m, e).len() ==> #[trigger] spec_read_entry(m, e)[p]
                == m.data[(fat_walk(m.fat, e.start_sector, (p / (m.sector_size as int)) as nat)
                as int + 1) * m.sector_size + p % (m.sector_size as int)],
{
    let ss = m.sector_size;
    let max = crate::cfb_recover::spec_sector_count(e.size, ss) as int;
    let ids = spec_chain(m.fat, e.start_sector, max, 0);
    lemma_chain_walk(m.fat, e.start_sector, max, 0, e.start_sector, 0);
    let g = spec_gather_sectors(m.data, ss, ids);
    let r = spec_read_entry(m, e);
    assert forall|p: int| 0 <= p < r.len() implies #[trigger] r[p] == m.data[(fat_walk(
        m.fat,
        e.start_sector,
        (p / (ss as int)) as nat,
    ) as int + 1) * ss + p % (ss as int)] by {
        assert(r[p] == g[p]);
        lemma_gather_bytes(m.data, ss, ids, p);
        let t = p / (ss as int);
        assert(ids[t] == fat_walk(m.fat, e.start_sector, (0 + t) as nat));
    }
}

proof fn lemma_gather_mini_bytes(stream: Seq<u8>, ms: nat, ids: Seq<u32>, p: int)
    requires
        ms > 0,
        0 <= p < spec_gather_mini(stream, ms, ids).len(),
    ensures
        p / (ms as int) < ids.len(),
        spec_gather_mini(stream, ms, ids)[p] == stream[ids[p / (ms as int)] as int * ms + p % (
        ms as int)],
    decreases ids.len(),
{
    let sz = ms as int;
    if p < sz {
        assert(p / sz == 0 && p % sz == p) by (nonlinear_arith)
            requires
                0 <= p < sz,
        ;
    } else {
        assert((p - sz) / sz == p / sz - 1 && (p - sz) % sz == p % sz) by (nonlinear_arith)
            requires
                sz <= p,
                sz > 0,
        ;
        lemma_gather_mini_bytes(stream, ms, ids.drop_first(), p - sz);
        assert(ids.drop_first()[(p - sz) / sz] == ids[p / sz]);
    }
}

/// A stream below the mini cutoff is read from the mini stream, along its
/// mini-FAT chain: byte `p` of it is byte `p % mini_sector_size` of mini
/// sector `p / mini_sector_size` of the chain, mini sector `id` lying at
/// byte `id * mini_sector_size` of the mini stream.
pub proof fn law_small_stream_follows_the_mini_fat(m: CfbModel, e: RawEntryView)
    requires
        e.size < m.mini_cutoff,
        m.mini_sector_size > 0,
    ensures
        forall|p: int|
            0 <= p < spec_read_entry(m, e).len() ==> #[trigger] spec_read_entry(m, e)[p]
                == m.mini_stream[fat_walk(
                m.mini_fat,
                e.start_sector,
                (p / (m.mini_sector_size as int)) as nat,
            ) as int * m.mini_sector_size + p % (m.mini_sector_size as int)],
{
    let ms = m.mini_sector_size;
    let max = crate::cfb_recover::spec_sector_count(e.size, ms) as int;
    let ids = spec_chain(m.mini_fat, e.start_sector, max, 0);
    lemma_chain_walk(m.mini_fat, e.start_sector, max, 0, e.start_sector, 0);
    let g = spec_gather_mini(m.mini_stream, ms, ids);
    let r = spec_read_entry(m, e);
    assert forall|p: int| 0 <= p < r.len() implies #[trigger] r[p] == m.mini_stream[fat_walk(
        m.mini_fat,
        e.start_sector,
        (p / (ms as int)) as nat,
    ) as int * ms + p % (ms as int)] by {
        assert(r[p] == g[p]);
        lemma_gather_mini_bytes(m.mini_stream, ms, ids, p);
        let t = p / (ms as int);
        assert(ids[t] == fat_walk(m.mini_fat, e.start_sector, (0 + t) as nat));
    }
}

/// The body and the fields come from the first `ccp_text` characters:
/// characters after them never change either.
pub proof fn law_body_is_the_first_part(
    c1: Seq<char>,
    c2: Seq<char>,
    ccp_text: u32,
    ccp_ftn: u32,
    ccp_hdd: u32,
    ccp_atn: u32,
    ccp_edn: u32,
    ccp_txbx: u32,
    headings: Map<u32, u8>,
    strip_fields: bool,
)
    requires
        c1.len() == c2.len(),
        forall|i: int| 0 <= i < ccp_text && i < c1.len() ==> c1[i] == c2[i],
    ensures
        ({
            let d1 = spec_generate_markdown(
                c1,
                ccp_text,
                ccp_ftn,
                ccp_hdd,
                ccp_atn,
                ccp_edn,
                ccp_txbx,
                headings,
                strip_fields,
            );
            let d2 = spec_generate_markdown(
                c2,
                ccp_text,
                ccp_ftn,
                ccp_hdd,
                ccp_atn,
                ccp_edn,
                ccp_txbx,
                headings,
                strip_fields,
            );
            d1.0 == d2.0 && d1.2 == d2.2
        }),
{
    let n = crate::markdown::min_u32(ccp_text, c1.len() as u32) as int;
    assert(c1.take(n) =~= c2.take(n));
}

} // verus!
