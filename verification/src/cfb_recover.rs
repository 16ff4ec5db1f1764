//! Minimal, tolerant read-only OLE2/CFB reader, used as a fallback.
//!
//! The `cfb` crate resolves a stream name by descending the red-black tree
//! formed by the sibling pointers of the directory entries. Some `.doc`
//! writers emit directory trees whose sibling ordering does not follow the
//! MS-CFB collation rules: every entry is still reachable, but a binary
//! search walks the wrong way and misses it.
//!
//! This module reads the FAT / mini-FAT by hand and looks entries up with a
//! linear scan, ignoring the tree structure entirely.

use vstd::prelude::*;
use crate::bytes::{le16, le32, le16_or_zero, le32_or_zero, read_u16, read_u32, read_u16_or_zero, read_u32_or_zero};
use crate::chartext::{ws_cc_pred, trim_by, trim_chars, chars_of, string_from_chars};
use crate::text::char_from_u32;
use crate::error::{DocError, DocErrorView};

verus! {

/// Highest sector number that refers to real data.
pub open spec fn max_reg_sect() -> u32 {
    0xFFFF_FFFAu32
}

/// Directory entry object type of a stream.
pub open spec fn obj_stream() -> u8 {
    2u8
}

/// Directory entry object type of the root storage.
pub open spec fn obj_root() -> u8 {
    5u8
}

// ---------------------------------------------------------------------------
// Directory entries

/// A directory entry as the contracts see it.
pub struct RawEntryView {
    pub name: Seq<char>,
    pub obj_type: u8,
    pub size: u64,
    pub start_sector: u32,
}

/// A directory entry, as stored in the container (no hierarchy).
pub struct RawEntry {
    pub name: String,
    pub obj_type: u8,
    pub size: u64,
    start_sector: u32,
}

impl View for RawEntry {
    type V = RawEntryView;

    closed spec fn view(&self) -> RawEntryView {
        RawEntryView {
            name: self.name@,
            obj_type: self.obj_type,
            size: self.size,
            start_sector: self.start_sector,
        }
    }
}

impl RawEntry {
    /// The entry holds a stream.
    pub fn is_stream(&self) -> (r: bool)
        ensures
            r == (self@.obj_type == obj_stream()),
    {
        self.obj_type == 2
    }
}

/// The views of a vector of entries.
pub open spec fn entries_view(v: Seq<RawEntry>) -> Seq<RawEntryView> {
    v.map_values(|e: RawEntry| e@)
}

/// UTF-16 decoding with every unpaired surrogate replaced by U+FFFD
/// (`String::from_utf16_lossy`): a high surrogate followed by a low one is
/// one character; any other surrogate is U+FFFD; any other unit is itself.
pub open spec fn spec_utf16_lossy(units: Seq<u16>) -> Seq<char>
    decreases units.len(),
{
    if units.len() == 0 {
        seq![]
    } else {
        let a = units[0];
        if a < 0xD800 || a > 0xDFFF {
            seq![(a as u32) as char] + spec_utf16_lossy(units.drop_first())
        } else if a <= 0xDBFF && units.len() >= 2 && 0xDC00 <= units[1] && units[1] <= 0xDFFF {
            seq![
                ((0x10000 + (a as int - 0xD800) * 0x400 + (units[1] as int - 0xDC00)) as u32) as char,
            ] + spec_utf16_lossy(units.skip(2))
        } else {
            seq!['\u{FFFD}'] + spec_utf16_lossy(units.drop_first())
        }
    }
}

/// The character of a code unit or pair that is a scalar value.
fn scalar_char(u: u32) -> (c: char)
    requires
        crate::text::is_scalar(u),
    ensures
        c == (u as char),
{
    match char_from_u32(u) {
        Some(c) => c,
        None => '\u{FFFD}',
    }
}

/// UTF-16 decoding, as `String::from_utf16_lossy` does it.
fn utf16_lossy(units: &[u16]) -> (r: String)
    ensures
        r@ == spec_utf16_lossy(units@),
{
    let mut out: Vec<char> = Vec::new();
    let mut i: usize = 0;
    assert(units@.skip(0) =~= units@);
    assert(out@ + spec_utf16_lossy(units@) =~= spec_utf16_lossy(units@));
    while i < units.len()
        invariant
            i <= units@.len(),
            out@ + spec_utf16_lossy(units@.skip(i as int)) == spec_utf16_lossy(units@),
        decreases units@.len() - i,
    {
        let ghost rest = units@.skip(i as int);
        assert(rest[0] == units@[i as int]);
        assert(rest.drop_first() =~= units@.skip(i + 1));
        let a = units[i];
        if a < 0xD800 || a > 0xDFFF {
            let c = scalar_char(a as u32);
            proof {
                assert(spec_utf16_lossy(rest) == seq![c] + spec_utf16_lossy(rest.drop_first()));
                assert(out@.push(c) + spec_utf16_lossy(units@.skip(i + 1)) =~= out@ + (seq![c]
                    + spec_utf16_lossy(units@.skip(i + 1))));
            }
            out.push(c);
            i = i + 1;
        } else if a <= 0xDBFF && i + 1 < units.len() && 0xDC00 <= units[i + 1] && units[i + 1]
            <= 0xDFFF {
            let b = units[i + 1];
            assert(rest[1] == b);
            assert(rest.skip(2) =~= units@.skip(i + 2));
            let code: u32 = 0x10000 + (a as u32 - 0xD800) * 0x400 + (b as u32 - 0xDC00);
            let c = scalar_char(code);
            proof {
                assert(spec_utf16_lossy(rest) == seq![c] + spec_utf16_lossy(rest.skip(2)));
                assert(out@.push(c) + spec_utf16_lossy(units@.skip(i + 2)) =~= out@ + (seq![c]
                    + spec_utf16_lossy(units@.skip(i + 2))));
            }
            out.push(c);
            i = i + 2;
        } else {
            let c = '\u{FFFD}';
            proof {
                assert(spec_utf16_lossy(rest) == seq![c] + spec_utf16_lossy(rest.drop_first()));
                assert(out@.push(c) + spec_utf16_lossy(units@.skip(i + 1)) =~= out@ + (seq![c]
                    + spec_utf16_lossy(units@.skip(i + 1))));
            }
            out.push(c);
            i = i + 1;
        }
    }
    assert(units@.skip(i as int) =~= seq![]);
    assert(out@ + seq![] =~= out@);
    string_from_chars(out.as_slice())
}

/// `cbName`, capped at the 64 bytes the name field holds.
pub open spec fn dir_name_len(raw: Seq<u8>) -> int {
    let n = le16(raw, 64) as int;
    if n < 64 {
        n
    } else {
        64
    }
}

/// The number of UTF-16 code units of the name, without the terminating NUL.
pub open spec fn name_unit_count(raw: Seq<u8>) -> nat {
    let n = dir_name_len(raw);
    if n >= 2 {
        ((n - 2) / 2) as nat
    } else {
        0
    }
}

/// The name's code units.
pub open spec fn name_units(raw: Seq<u8>) -> Seq<u16> {
    Seq::new(name_unit_count(raw), |k: int| le16(raw, 2 * k))
}

/// A stream's size: the low dword, and the high dword too in version 4
/// containers.
pub open spec fn entry_size(raw: Seq<u8>, allow_64bit_size: bool) -> u64 {
    if allow_64bit_size {
        (le32(raw, 120) as int + le32(raw, 124) as int * 0x1_0000_0000) as u64
    } else {
        le32(raw, 120) as u64
    }
}

/// A 128-byte directory entry, kept when it is a stream or the root.
pub open spec fn spec_parse_dir_entry(raw: Seq<u8>, allow_64bit_size: bool) -> Option<
    RawEntryView,
> {
    let t = raw[66];
    if t != obj_stream() && t != obj_root() {
        None
    } else {
        Some(
            RawEntryView {
                name: spec_utf16_lossy(name_units(raw)),
                obj_type: t,
                size: entry_size(raw, allow_64bit_size),
                start_sector: le32(raw, 116),
            },
        )
    }
}

fn parse_dir_entry(dir: &[u8], base: usize, allow_64bit_size: bool) -> (r: Option<RawEntry>)
    requires
        base + 128 <= dir@.len(),
    ensures
        match r {
            Some(e) => spec_parse_dir_entry(dir@.subrange(base as int, base + 128), allow_64bit_size)
                == Some(e@),
            None => spec_parse_dir_entry(
                dir@.subrange(base as int, base + 128),
                allow_64bit_size,
            ) is None,
        },
{
    let ghost raw = dir@.subrange(base as int, base + 128);
    let dir_len = dir.len();
    let obj_type = dir[base + 66];
    assert(raw[66] == obj_type);
    if obj_type != 2 && obj_type != 5 {
        return None;
    }
    let cb = read_u16(dir, base + 64);
    assert(le16(raw, 64) == cb) by {
        assert(raw[64] == dir@[base + 64]);
        assert(raw[65] == dir@[base + 65]);
    }
    let name_len: usize = if (cb as usize) < 64 {
        cb as usize
    } else {
        64
    };
    let count: usize = if name_len >= 2 {
        (name_len - 2) / 2
    } else {
        0
    };
    let mut units: Vec<u16> = Vec::new();
    let mut k: usize = 0;
    while k < count
        invariant
            k <= count,
            count == name_unit_count(raw),
            count <= 31,
            base + 128 <= dir@.len(),
            dir_len == dir@.len(),
            raw == dir@.subrange(base as int, base + 128),
            units@ =~= name_units(raw).take(k as int),
        decreases count - k,
    {
        let u = read_u16(dir, base + 2 * k);
        assert(le16(raw, 2 * k) == u) by {
            assert(raw[2 * k] == dir@[base + 2 * k]);
            assert(raw[2 * k + 1] == dir@[base + 2 * k + 1]);
        }
        units.push(u);
        k = k + 1;
    }
    assert(units@ =~= name_units(raw));
    let name = utf16_lossy(units.as_slice());
    let lo = read_u32(dir, base + 120);
    assert(le32(raw, 120) == lo) by {
        assert(raw[120] == dir@[base + 120]);
        assert(raw[121] == dir@[base + 121]);
        assert(raw[122] == dir@[base + 122]);
        assert(raw[123] == dir@[base + 123]);
    }
    let size: u64 = if allow_64bit_size {
        let hi = read_u32(dir, base + 124);
        assert(le32(raw, 124) == hi) by {
            assert(raw[124] == dir@[base + 124]);
            assert(raw[125] == dir@[base + 125]);
            assert(raw[126] == dir@[base + 126]);
            assert(raw[127] == dir@[base + 127]);
        }
        lo as u64 + (hi as u64) * 0x1_0000_0000u64
    } else {
        lo as u64
    };
    let start_sector = read_u32(dir, base + 116);
    assert(le32(raw, 116) == start_sector) by {
        assert(raw[116] == dir@[base + 116]);
        assert(raw[117] == dir@[base + 117]);
        assert(raw[118] == dir@[base + 118]);
        assert(raw[119] == dir@[base + 119]);
    }
    Some(RawEntry { name, obj_type, size, start_sector })
}

/// The entries among the first `n` 128-byte chunks of the directory.
pub open spec fn spec_dir_entries(dir: Seq<u8>, allow_64bit_size: bool, n: nat) -> Seq<
    RawEntryView,
>
    decreases n,
{
    if n == 0 {
        seq![]
    } else {
        let prev = spec_dir_entries(dir, allow_64bit_size, (n - 1) as nat);
        match spec_parse_dir_entry(dir.subrange(128 * (n - 1), 128 * n as int), allow_64bit_size) {
            Some(e) => prev.push(e),
            None => prev,
        }
    }
}

fn dir_entries(dir: &[u8], allow_64bit_size: bool) -> (r: Vec<RawEntry>)
    ensures
        entries_view(r@) == spec_dir_entries(dir@, allow_64bit_size, (dir@.len() / 128) as nat),
{
    let dir_len = dir.len();
    let n = dir_len / 128;
    let mut out: Vec<RawEntry> = Vec::new();
    let mut k: usize = 0;
    assert(entries_view(out@) =~= seq![]);
    while k < n
        invariant
            k <= n,
            dir_len == dir@.len(),
            n == dir@.len() / 128,
            entries_view(out@) == spec_dir_entries(dir@, allow_64bit_size, k as nat),
        decreases n - k,
    {
        let ghost before = out@;
        match parse_dir_entry(dir, 128 * k, allow_64bit_size) {
            Some(e) => {
                out.push(e);
                assert(entries_view(out@) =~= entries_view(before).push(e@));
            },
            None => {},
        }
        k = k + 1;
    }
    out
}

// ---------------------------------------------------------------------------
// Sectors and chains

/// Where sector `id` starts: one header-sized sector, then `id` sectors.
pub open spec fn spec_sector_offset(len: int, sector_size: int, id: u32) -> Option<int> {
    let off = (id as int + 1) * sector_size;
    if off + sector_size <= len {
        Some(off)
    } else {
        None
    }
}

fn sector_offset(data: &[u8], sector_size: usize, id: u32) -> (r: Option<usize>)
    requires
        sector_size <= 16777216,
    ensures
        match r {
            Some(o) => spec_sector_offset(data@.len() as int, sector_size as int, id) == Some(
                o as int,
            ),
            None => spec_sector_offset(data@.len() as int, sector_size as int, id) is None,
        },
{
    let ss = sector_size as u64;
    let idp = id as u64 + 1;
    assert(idp * ss <= 4294967296 * 16777216) by (nonlinear_arith)
        requires
            idp <= 4294967296,
            ss <= 16777216,
    ;
    let off: u64 = idp * ss;
    if off + ss <= data.len() as u64 {
        Some(off as usize)
    } else {
        None
    }
}

/// The sector that follows `id` in a FAT, or end of chain past its end.
pub open spec fn next_in(fat: Seq<u32>, id: u32) -> u32 {
    if (id as int) < fat.len() {
        fat[id as int]
    } else {
        u32::MAX
    }
}

/// The chain of sectors from `id`, at most `max` long and never longer
/// than one more than the FAT, `count` sectors having been taken already.
pub open spec fn spec_chain(fat: Seq<u32>, id: u32, max: int, count: nat) -> Seq<u32>
    decreases fat.len() + 1 - count,
{
    if id <= max_reg_sect() && count < max && count <= fat.len() {
        seq![id] + spec_chain(fat, next_in(fat, id), max, count + 1)
    } else {
        seq![]
    }
}

proof fn lemma_chain_len(fat: Seq<u32>, id: u32, max: int, count: nat)
    ensures
        spec_chain(fat, id, max, count).len() <= fat.len() + 1 - count || spec_chain(
            fat,
            id,
            max,
            count,
        ).len() == 0,
    decreases fat.len() + 1 - count,
{
    if id <= max_reg_sect() && count < max && count <= fat.len() {
        lemma_chain_len(fat, next_in(fat, id), max, count + 1);
    }
}

fn chain(fat: &Vec<u32>, start: u32, max_sectors: usize) -> (r: Vec<u32>)
    ensures
        r@ == spec_chain(fat@, start, max_sectors as int, 0),
{
    let mut sectors: Vec<u32> = Vec::new();
    let mut id = start;
    while id <= 0xFFFF_FFFA && sectors.len() < max_sectors && sectors.len() <= fat.len()
        invariant
            sectors@.len() <= fat@.len() + 1,
            spec_chain(fat@, start, max_sectors as int, 0) == sectors@ + spec_chain(
                fat@,
                id,
                max_sectors as int,
                sectors@.len(),
            ),
        decreases fat@.len() + 1 - sectors@.len(),
    {
        let ghost before = sectors@;
        sectors.push(id);
        let next = if (id as usize) < fat.len() {
            fat[id as usize]
        } else {
            u32::MAX
        };
        assert(spec_chain(fat@, id, max_sectors as int, before.len()) == seq![id] + spec_chain(
            fat@,
            next,
            max_sectors as int,
            before.len() + 1,
        ));
        assert(sectors@ + spec_chain(fat@, next, max_sectors as int, sectors@.len()) =~= before
            + spec_chain(fat@, id, max_sectors as int, before.len()));
        id = next;
    }
    assert(spec_chain(fat@, id, max_sectors as int, sectors@.len()) =~= seq![]);
    assert(sectors@ + seq![] =~= sectors@);
    sectors
}

/// The most sectors a stream of `size` bytes can span (`usize::MAX` for
/// "read to the end of the chain").
pub open spec fn spec_sector_count(size: u64, sector_size: nat) -> usize {
    if size == u64::MAX {
        usize::MAX
    } else {
        ((size / (sector_size as u64)) as int + if size % (sector_size as u64) != 0 {
            1int
        } else {
            0int
        }) as usize
    }
}

fn sector_count(size: u64, sector_size: usize) -> (r: usize)
    requires
        0 < sector_size <= 16777216,
    ensures
        r == spec_sector_count(size, sector_size as nat),
{
    if size == u64::MAX {
        usize::MAX
    } else {
        let ss = sector_size as u64;
        let q = size / ss;
        let extra: u64 = if size % ss != 0 {
            1
        } else {
            0
        };
        assert(q <= size);
        (q + extra) as usize
    }
}

/// A buffer cut down to `size` bytes, unless `size` means "everything".
pub open spec fn spec_truncate_to(buf: Seq<u8>, size: u64) -> Seq<u8> {
    if size != u64::MAX && (size as int) < buf.len() {
        buf.take(size as int)
    } else {
        buf
    }
}

fn truncate_to(buf: Vec<u8>, size: u64) -> (r: Vec<u8>)
    ensures
        r@ == spec_truncate_to(buf@, size),
{
    let mut buf = buf;
    if size != u64::MAX && size < buf.len() as u64 {
        buf.truncate(size as usize);
    }
    buf
}

/// The bytes of the sectors `ids`, up to the first sector past the data.
pub open spec fn spec_gather_sectors(data: Seq<u8>, sector_size: nat, ids: Seq<u32>) -> Seq<u8>
    decreases ids.len(),
{
    if ids.len() == 0 {
        seq![]
    } else {
        match spec_sector_offset(data.len() as int, sector_size as int, ids[0]) {
            Some(off) => data.subrange(off, off + sector_size) + spec_gather_sectors(
                data,
                sector_size,
                ids.drop_first(),
            ),
            None => seq![],
        }
    }
}

/// The bytes of the mini sectors `ids` of the mini stream, up to the first
/// one past its end.
pub open spec fn spec_gather_mini(stream: Seq<u8>, mini_size: nat, ids: Seq<u32>) -> Seq<u8>
    decreases ids.len(),
{
    if ids.len() == 0 {
        seq![]
    } else {
        let off = ids[0] as int * mini_size;
        if off + mini_size <= stream.len() {
            stream.subrange(off, off + mini_size) + spec_gather_mini(
                stream,
                mini_size,
                ids.drop_first(),
            )
        } else {
            seq![]
        }
    }
}

/// The bytes of the stream that starts at FAT sector `start`, `size` long
/// (`u64::MAX`: the whole chain).
pub open spec fn spec_fat_chain_bytes(
    data: Seq<u8>,
    sector_size: nat,
    fat: Seq<u32>,
    start: u32,
    size: u64,
) -> Seq<u8> {
    spec_truncate_to(
        spec_gather_sectors(
            data,
            sector_size,
            spec_chain(fat, start, spec_sector_count(size, sector_size) as int, 0),
        ),
        size,
    )
}

/// The bytes of the small stream that starts at mini sector `start`.
pub open spec fn spec_mini_chain_bytes(
    stream: Seq<u8>,
    mini_size: nat,
    mini_fat: Seq<u32>,
    start: u32,
    size: u64,
) -> Seq<u8> {
    spec_truncate_to(
        spec_gather_mini(
            stream,
            mini_size,
            spec_chain(mini_fat, start, spec_sector_count(size, mini_size) as int, 0),
        ),
        size,
    )
}

fn push_range(out: &mut Vec<u8>, data: &[u8], from: usize, to: usize)
    requires
        from <= to <= data@.len(),
    ensures
        final(out)@ == old(out)@ + data@.subrange(from as int, to as int),
{
    let mut i = from;
    while i < to
        invariant
            from <= i <= to <= data@.len(),
            out@ == old(out)@ + data@.subrange(from as int, i as int),
        decreases to - i,
    {
        out.push(data[i]);
        i = i + 1;
        assert(data@.subrange(from as int, i as int) =~= data@.subrange(from as int, i - 1).push(
            data@[i - 1],
        ));
    }
}

fn gather_sectors(data: &[u8], sector_size: usize, ids: &Vec<u32>) -> (out: Vec<u8>)
    requires
        sector_size <= 16777216,
    ensures
        out@ == spec_gather_sectors(data@, sector_size as nat, ids@),
{
    let mut out: Vec<u8> = Vec::new();
    let mut k: usize = 0;
    let mut stopped = false;
    let data_len = data.len();
    assert(ids@.skip(0) =~= ids@);
    while k < ids.len() && !stopped
        invariant
            k <= ids@.len(),
            data_len == data@.len(),
            sector_size <= 16777216,
            !stopped ==> spec_gather_sectors(data@, sector_size as nat, ids@) == out@
                + spec_gather_sectors(data@, sector_size as nat, ids@.skip(k as int)),
            stopped ==> spec_gather_sectors(data@, sector_size as nat, ids@) == out@,
        decreases ids@.len() - k,
    {
        let ghost rest = ids@.skip(k as int);
        assert(rest[0] == ids@[k as int]);
        assert(rest.drop_first() =~= ids@.skip(k + 1));
        match sector_offset(data, sector_size, ids[k]) {
            Some(off) => {
                let ghost before = out@;
                push_range(&mut out, data, off, off + sector_size);
                assert(before + spec_gather_sectors(data@, sector_size as nat, rest) =~= out@
                    + spec_gather_sectors(data@, sector_size as nat, ids@.skip(k + 1)));
            },
            None => {
                stopped = true;
                assert(out@ + seq![] =~= out@);
            },
        }
        k = k + 1;
    }
    if !stopped {
        assert(ids@.skip(k as int) =~= seq![]);
        assert(out@ + seq![] =~= out@);
    }
    out
}

fn gather_mini(stream: &Vec<u8>, mini_size: usize, ids: &Vec<u32>) -> (out: Vec<u8>)
    requires
        mini_size <= 16777216,
    ensures
        out@ == spec_gather_mini(stream@, mini_size as nat, ids@),
{
    let mut out: Vec<u8> = Vec::new();
    let mut k: usize = 0;
    let mut stopped = false;
    assert(ids@.skip(0) =~= ids@);
    while k < ids.len() && !stopped
        invariant
            k <= ids@.len(),
            mini_size <= 16777216,
            !stopped ==> spec_gather_mini(stream@, mini_size as nat, ids@) == out@
                + spec_gather_mini(stream@, mini_size as nat, ids@.skip(k as int)),
            stopped ==> spec_gather_mini(stream@, mini_size as nat, ids@) == out@,
        decreases ids@.len() - k,
    {
        let ghost rest = ids@.skip(k as int);
        assert(rest[0] == ids@[k as int]);
        assert(rest.drop_first() =~= ids@.skip(k + 1));
        let id = ids[k] as u64;
        let ms = mini_size as u64;
        assert(id * ms <= 4294967296 * 16777216) by (nonlinear_arith)
            requires
                id <= 4294967296,
                ms <= 16777216,
        ;
        let off = id * ms;
        if off + ms <= stream.len() as u64 {
            let ghost before = out@;
            push_range(&mut out, stream.as_slice(), off as usize, (off + ms) as usize);
            assert(before + spec_gather_mini(stream@, mini_size as nat, rest) =~= out@
                + spec_gather_mini(stream@, mini_size as nat, ids@.skip(k + 1)));
        } else {
            stopped = true;
            assert(out@ + seq![] =~= out@);
        }
        k = k + 1;
    }
    if !stopped {
        assert(ids@.skip(k as int) =~= seq![]);
        assert(out@ + seq![] =~= out@);
    }
    out
}

fn read_fat_chain(data: &[u8], sector_size: usize, fat: &Vec<u32>, start: u32, size: u64) -> (r:
    Vec<u8>)
    requires
        0 < sector_size <= 16777216,
    ensures
        r@ == spec_fat_chain_bytes(data@, sector_size as nat, fat@, start, size),
{
    let max_sectors = sector_count(size, sector_size);
    let ids = chain(fat, start, max_sectors);
    let out = gather_sectors(data, sector_size, &ids);
    truncate_to(out, size)
}

fn read_mini_chain(stream: &Vec<u8>, mini_size: usize, mini_fat: &Vec<u32>, start: u32, size: u64) -> (r:
    Vec<u8>)
    requires
        0 < mini_size <= 16777216,
    ensures
        r@ == spec_mini_chain_bytes(stream@, mini_size as nat, mini_fat@, start, size),
{
    let max_sectors = sector_count(size, mini_size);
    let ids = chain(mini_fat, start, max_sectors);
    let out = gather_mini(stream, mini_size, &ids);
    truncate_to(out, size)
}


// ---------------------------------------------------------------------------
// Header and FAT

/// `2` to the power `n`.
pub open spec fn pow2s(n: nat) -> nat
    decreases n,
{
    if n == 0 {
        1
    } else {
        2 * pow2s((n - 1) as nat)
    }
}

proof fn lemma_pow2s_mono(a: nat, b: nat)
    requires
        a <= b,
    ensures
        pow2s(a) <= pow2s(b),
    decreases b,
{
    if a < b {
        lemma_pow2s_mono(a, (b - 1) as nat);
    }
}

proof fn lemma_pow2s_bounds(n: nat)
    requires
        n <= 24,
    ensures
        n >= 2 ==> 4 <= pow2s(n),
        n >= 9 ==> 512 <= pow2s(n),
        pow2s(n) <= 16777216,
{
    reveal_with_fuel(pow2s, 25);
    lemma_pow2s_mono(n, 24);
    if n >= 2 {
        lemma_pow2s_mono(2, n);
    }
    if n >= 9 {
        lemma_pow2s_mono(9, n);
    }
}

fn pow2_usize(n: u16) -> (r: usize)
    requires
        n <= 24,
    ensures
        r == pow2s(n as nat),
{
    let mut r: usize = 1;
    let mut i: u16 = 0;
    while i < n
        invariant
            i <= n <= 24,
            r == pow2s(i as nat),
        decreases n - i,
    {
        proof {
            lemma_pow2s_bounds(i as nat);
        }
        r = r * 2;
        i = i + 1;
    }
    r
}

/// The eight-byte OLE2 signature.
pub open spec fn has_signature(d: Seq<u8>) -> bool {
    &&& d.len() >= 8
    &&& d[0] == 0xD0u8
    &&& d[1] == 0xCFu8
    &&& d[2] == 0x11u8
    &&& d[3] == 0xE0u8
    &&& d[4] == 0xA1u8
    &&& d[5] == 0xB1u8
    &&& d[6] == 0x1Au8
    &&& d[7] == 0xE1u8
}

fn check_signature(data: &[u8]) -> (r: bool)
    requires
        data@.len() >= 8,
    ensures
        r == has_signature(data@),
{
    data[0] == 0xD0 && data[1] == 0xCF && data[2] == 0x11 && data[3] == 0xE0 && data[4] == 0xA1
        && data[5] == 0xB1 && data[6] == 0x1A && data[7] == 0xE1
}

/// The mini stream cutoff: the header's value, 4096 when it is zero.
pub open spec fn hdr_mini_cutoff(d: Seq<u8>) -> u64 {
    if le32_or_zero(d, 56) == 0 {
        4096
    } else {
        le32_or_zero(d, 56) as u64
    }
}

/// The FAT sector numbers among the first `n` DIFAT entries of the header.
pub open spec fn header_fat_ids(d: Seq<u8>, n: nat) -> Seq<u32>
    decreases n,
{
    if n == 0 {
        seq![]
    } else {
        let prev = header_fat_ids(d, (n - 1) as nat);
        let id = le32_or_zero(d, 76 + 4 * (n - 1));
        if id <= max_reg_sect() {
            prev.push(id)
        } else {
            prev
        }
    }
}

/// The FAT sector numbers among the first `n` entries of a DIFAT sector.
pub open spec fn sector_fat_ids(d: Seq<u8>, off: int, n: nat) -> Seq<u32>
    decreases n,
{
    if n == 0 {
        seq![]
    } else {
        let prev = sector_fat_ids(d, off, (n - 1) as nat);
        let id = le32_or_zero(d, off + 4 * (n - 1));
        if id <= max_reg_sect() {
            prev.push(id)
        } else {
            prev
        }
    }
}

/// The FAT sector numbers listed by the DIFAT sector chain from `difat`,
/// `visited` sectors having been read and at most `total + 1` read in all.
pub open spec fn spec_difat_walk(d: Seq<u8>, ss: nat, difat: u32, visited: nat, total: nat) -> Seq<
    u32,
>
    decreases total + 1 - visited,
{
    if difat <= max_reg_sect() && visited <= total {
        match spec_sector_offset(d.len() as int, ss as int, difat) {
            Some(off) => {
                let per = ss / 4;
                sector_fat_ids(d, off, (per - 1) as nat) + spec_difat_walk(
                    d,
                    ss,
                    le32_or_zero(d, off + (per - 1) * 4),
                    visited + 1,
                    total,
                )
            },
            None => seq![],
        }
    } else {
        seq![]
    }
}

/// All FAT sector numbers: the header's DIFAT, then the DIFAT chain.
pub open spec fn spec_fat_sector_ids(d: Seq<u8>, ss: nat) -> Seq<u32> {
    header_fat_ids(d, 109) + spec_difat_walk(d, ss, le32_or_zero(d, 68), 0, (d.len() / ss) as nat)
}

/// The FAT entries one FAT sector contributes: its words, or end-of-chain
/// markers when the sector lies past the data, so that indices stay aligned.
pub open spec fn sector_words(d: Seq<u8>, ss: nat, id: u32) -> Seq<u32> {
    match spec_sector_offset(d.len() as int, ss as int, id) {
        Some(off) => Seq::new(ss / 4, |k: int| le32_or_zero(d, off + 4 * k)),
        None => Seq::new(ss / 4, |k: int| u32::MAX),
    }
}

/// The FAT assembled from its sectors.
pub open spec fn spec_build_fat(d: Seq<u8>, ss: nat, ids: Seq<u32>) -> Seq<u32>
    decreases ids.len(),
{
    if ids.len() == 0 {
        seq![]
    } else {
        spec_build_fat(d, ss, ids.drop_last()) + sector_words(d, ss, ids.last())
    }
}

/// The mini FAT read from its bytes, four bytes per entry.
pub open spec fn spec_words(bytes: Seq<u8>) -> Seq<u32> {
    Seq::new(bytes.len() / 4, |k: int| le32(bytes, 4 * k))
}

/// The first root entry.
pub open spec fn spec_first_root(entries: Seq<RawEntryView>) -> Option<RawEntryView>
    decreases entries.len(),
{
    if entries.len() == 0 {
        None
    } else if entries[0].obj_type == obj_root() {
        Some(entries[0])
    } else {
        spec_first_root(entries.drop_first())
    }
}

fn push_fat_ids(out: &mut Vec<u32>, data: &[u8], off: usize, n: usize)
    requires
        off + 4 * n <= usize::MAX,
    ensures
        final(out)@ == old(out)@ + sector_fat_ids(data@, off as int, n as nat),
{
    let mut i: usize = 0;
    assert(sector_fat_ids(data@, off as int, 0) =~= seq![]);
    while i < n
        invariant
            i <= n,
            off + 4 * n <= usize::MAX,
            out@ == old(out)@ + sector_fat_ids(data@, off as int, i as nat),
        decreases n - i,
    {
        let id = read_u32_or_zero(data, off + 4 * i);
        if id <= 0xFFFF_FFFA {
            out.push(id);
        }
        i = i + 1;
        assert(out@ =~= old(out)@ + sector_fat_ids(data@, off as int, i as nat));
    }
}

fn fat_sector_ids(data: &[u8], sector_size: usize) -> (r: Vec<u32>)
    requires
        512 <= sector_size <= 16777216,
        data@.len() >= 512,
    ensures
        r@ == spec_fat_sector_ids(data@, sector_size as nat),
{
    let mut ids: Vec<u32> = Vec::new();
    let mut i: usize = 0;
    while i < 109
        invariant
            i <= 109,
            ids@ == header_fat_ids(data@, i as nat),
        decreases 109 - i,
    {
        let id = read_u32_or_zero(data, 76 + 4 * i);
        if id <= 0xFFFF_FFFA {
            ids.push(id);
        }
        i = i + 1;
    }
    let ghost head = ids@;
    let total = data.len() / sector_size;
    let per_sector = sector_size / 4;
    let mut difat = read_u32_or_zero(data, 68);
    let mut visited: usize = 0;
    let ghost first = difat;
    let mut stopped = false;
    let data_len = data.len();
    assert(total < usize::MAX) by (nonlinear_arith)
        requires
            total == data_len / sector_size,
            sector_size >= 512,
            data_len <= usize::MAX,
    ;
    while difat <= 0xFFFF_FFFA && visited <= total && !stopped
        invariant
            512 <= sector_size <= 16777216,
            total < usize::MAX,
            data_len == data@.len(),
            total == data@.len() / (sector_size as nat),
            per_sector == sector_size / 4,
            visited <= total + 1,
            !stopped ==> head + spec_difat_walk(data@, sector_size as nat, first, 0, total as nat)
                == ids@ + spec_difat_walk(
                data@,
                sector_size as nat,
                difat,
                visited as nat,
                total as nat,
            ),
            stopped ==> head + spec_difat_walk(data@, sector_size as nat, first, 0, total as nat)
                == ids@,
        decreases total + 1 - visited,
    {
        let ghost before = ids@;
        let ghost d = difat;
        let ghost v = visited;
        visited = visited + 1;
        match sector_offset(data, sector_size, difat) {
            None => {
                stopped = true;
                assert(ids@ + seq![] =~= ids@);
            },
            Some(off) => {
                push_fat_ids(&mut ids, data, off, per_sector - 1);
                difat = read_u32_or_zero(data, off + (per_sector - 1) * 4);
                assert(before + spec_difat_walk(data@, sector_size as nat, d, v as nat, total as nat)
                    =~= ids@ + spec_difat_walk(
                    data@,
                    sector_size as nat,
                    difat,
                    visited as nat,
                    total as nat,
                ));
            },
        }
    }
    if !stopped {
        assert(ids@ + seq![] =~= ids@);
    }
    ids
}

fn build_fat(data: &[u8], sector_size: usize, ids: &Vec<u32>) -> (r: Vec<u32>)
    requires
        512 <= sector_size <= 16777216,
    ensures
        r@ == spec_build_fat(data@, sector_size as nat, ids@),
{
    let per_sector = sector_size / 4;
    let data_len = data.len();
    let mut fat: Vec<u32> = Vec::new();
    let mut k: usize = 0;
    while k < ids.len()
        invariant
            k <= ids@.len(),
            512 <= sector_size <= 16777216,
            per_sector == sector_size / 4,
            data_len == data@.len(),
            fat@ == spec_build_fat(data@, sector_size as nat, ids@.take(k as int)),
        decreases ids@.len() - k,
    {
        assert(ids@.take(k + 1).drop_last() =~= ids@.take(k as int));
        let ghost before = fat@;
        let id = ids[k];
        match sector_offset(data, sector_size, id) {
            None => {
                let mut i: usize = 0;
                while i < per_sector
                    invariant
                        i <= per_sector,
                        fat@ =~= before + Seq::new(i as nat, |j: int| u32::MAX),
                    decreases per_sector - i,
                {
                    fat.push(u32::MAX);
                    i = i + 1;
                }
            },
            Some(off) => {
                let mut i: usize = 0;
                while i < per_sector
                    invariant
                        i <= per_sector,
                        per_sector == sector_size / 4,
                        data_len == data@.len(),
                        off + sector_size <= data@.len(),
                        fat@ =~= before + Seq::new(
                            i as nat,
                            |j: int| le32_or_zero(data@, off + 4 * j),
                        ),
                    decreases per_sector - i,
                {
                    let w = read_u32_or_zero(data, off + 4 * i);
                    fat.push(w);
                    i = i + 1;
                }
            },
        }
        assert(fat@ =~= spec_build_fat(data@, sector_size as nat, ids@.take(k + 1)));
        k = k + 1;
    }
    assert(ids@.take(k as int) =~= ids@);
    fat
}

fn words_of(bytes: &Vec<u8>) -> (r: Vec<u32>)
    ensures
        r@ == spec_words(bytes@),
{
    let bytes_len = bytes.len();
    let n = bytes_len / 4;
    let mut out: Vec<u32> = Vec::new();
    let mut k: usize = 0;
    while k < n
        invariant
            k <= n,
            bytes_len == bytes@.len(),
            n == bytes@.len() / 4,
            out@ =~= spec_words(bytes@).take(k as int),
        decreases n - k,
    {
        out.push(read_u32(bytes.as_slice(), 4 * k));
        k = k + 1;
    }
    out
}

fn first_root(entries: &Vec<RawEntry>) -> (r: Option<(u32, u64)>)
    ensures
        match spec_first_root(entries_view(entries@)) {
            Some(e) => r == Some((e.start_sector, e.size)),
            None => r is None,
        },
{
    let mut i: usize = 0;
    assert(entries_view(entries@).skip(0) =~= entries_view(entries@));
    while i < entries.len()
        invariant
            i <= entries@.len(),
            spec_first_root(entries_view(entries@)) == spec_first_root(
                entries_view(entries@).skip(i as int),
            ),
        decreases entries@.len() - i,
    {
        let ghost rest = entries_view(entries@).skip(i as int);
        assert(rest[0] == entries@[i as int]@);
        assert(rest.drop_first() =~= entries_view(entries@).skip(i + 1));
        if entries[i].obj_type == 5 {
            assert(entries@[i as int]@.obj_type == entries[i as int].obj_type);
            return Some((entries[i].start_sector, entries[i].size));
        }
        i = i + 1;
    }
    assert(entries_view(entries@).skip(i as int) =~= seq![]);
    None
}

// ---------------------------------------------------------------------------
// The container

/// What the fallback reader knows of a container.
pub struct CfbModel {
    pub data: Seq<u8>,
    pub sector_size: nat,
    pub mini_sector_size: nat,
    pub mini_cutoff: u64,
    pub fat: Seq<u32>,
    pub mini_fat: Seq<u32>,
    pub mini_stream: Seq<u8>,
    pub entries: Seq<RawEntryView>,
}

/// How the fallback reader makes sense of `d`, or why it cannot.
pub open spec fn spec_raw_parse(d: Seq<u8>) -> Result<CfbModel, DocErrorView> {
    if d.len() < 512 {
        Err(DocErrorView::TooSmall { len: d.len() as usize })
    } else if !has_signature(d) {
        Err(DocErrorView::BadSignature)
    } else {
        let shift = le16_or_zero(d, 30);
        let mshift = le16_or_zero(d, 32);
        if !(9 <= shift && shift <= 24) {
            Err(DocErrorView::BadSectorShift { shift })
        } else if !(2 <= mshift && mshift <= shift) {
            Err(DocErrorView::BadMiniShift { shift: mshift })
        } else {
            let ss = pow2s(shift as nat);
            let fat = spec_build_fat(d, ss, spec_fat_sector_ids(d, ss));
            if fat.len() == 0 {
                Err(DocErrorView::NoFat)
            } else {
                let dir = spec_fat_chain_bytes(d, ss, fat, le32_or_zero(d, 48), u64::MAX);
                if dir.len() < 128 {
                    Err(DocErrorView::NoDirectory)
                } else {
                    let entries = spec_dir_entries(
                        dir,
                        le16_or_zero(d, 26) >= 4,
                        (dir.len() / 128) as nat,
                    );
                    let mini_fat = spec_words(
                        spec_fat_chain_bytes(d, ss, fat, le32_or_zero(d, 60), u64::MAX),
                    );
                    let mini_stream = match spec_first_root(entries) {
                        Some(root) => spec_fat_chain_bytes(
                            d,
                            ss,
                            fat,
                            root.start_sector,
                            root.size,
                        ),
                        None => seq![],
                    };
                    Ok(
                        CfbModel {
                            data: d,
                            sector_size: ss,
                            mini_sector_size: pow2s(mshift as nat),
                            mini_cutoff: hdr_mini_cutoff(d),
                            fat,
                            mini_fat,
                            mini_stream,
                            entries,
                        },
                    )
                }
            }
        }
    }
}

/// The contents of a directory entry's stream: from the mini stream when it
/// is below the cutoff, from the FAT otherwise.
pub open spec fn spec_read_entry(m: CfbModel, e: RawEntryView) -> Seq<u8> {
    if e.size < m.mini_cutoff {
        spec_mini_chain_bytes(m.mini_stream, m.mini_sector_size, m.mini_fat, e.start_sector, e.size)
    } else {
        spec_fat_chain_bytes(m.data, m.sector_size, m.fat, e.start_sector, e.size)
    }
}

/// `char::to_ascii_lowercase`, as a code point.
pub open spec fn ascii_lower(c: char) -> u32 {
    if 'A' <= c && c <= 'Z' {
        (c as u32 + 32) as u32
    } else {
        c as u32
    }
}

/// `str::eq_ignore_ascii_case`.
pub open spec fn eq_ignore_ascii_case(a: Seq<char>, b: Seq<char>) -> bool {
    a.len() == b.len() && forall|i: int| 0 <= i < a.len() ==> ascii_lower(a[i]) == ascii_lower(b[i])
}

/// Names match when, trimmed of whitespace and control characters at both
/// ends, they are equal up to ASCII case.
pub open spec fn spec_name_matches(entry_name: Seq<char>, wanted: Seq<char>) -> bool {
    eq_ignore_ascii_case(trim_by(entry_name, ws_cc_pred()), trim_by(wanted, ws_cc_pred()))
}

/// The first stream entry from index `i` on whose name matches.
pub open spec fn spec_find_stream_from(entries: Seq<RawEntryView>, name: Seq<char>, i: int) -> Option<
    int,
>
    decreases entries.len() - i,
{
    if i < 0 || i >= entries.len() {
        None
    } else if entries[i].obj_type == obj_stream() && spec_name_matches(entries[i].name, name) {
        Some(i)
    } else {
        spec_find_stream_from(entries, name, i + 1)
    }
}

/// A stream read by name: the first matching stream entry, in directory order.
pub open spec fn spec_read_by_name(m: CfbModel, name: Seq<char>) -> Option<Seq<u8>> {
    match spec_find_stream_from(m.entries, name, 0) {
        Some(i) => Some(spec_read_entry(m, m.entries[i])),
        None => None,
    }
}

/// The streams of a directory, as `(name, size)` pairs in directory order.
pub open spec fn spec_stream_list(entries: Seq<RawEntryView>) -> crate::error::ListingView
    decreases entries.len(),
{
    if entries.len() == 0 {
        seq![]
    } else {
        let prev = spec_stream_list(entries.drop_last());
        let e = entries.last();
        if e.obj_type == obj_stream() {
            prev.push((e.name, e.size))
        } else {
            prev
        }
    }
}

fn ascii_lower_exec(c: char) -> (r: u32)
    ensures
        r == ascii_lower(c),
{
    if 'A' <= c && c <= 'Z' {
        c as u32 + 32
    } else {
        c as u32
    }
}

/// Directory entry names are compared case-insensitively per MS-CFB; some
/// writers also leave stray whitespace or control characters around them.
pub fn name_matches(entry_name: &str, wanted: &str) -> (r: bool)
    ensures
        r == spec_name_matches(entry_name@, wanted@),
{
    let a0 = chars_of(entry_name);
    let b0 = chars_of(wanted);
    let a = trim_chars(a0.as_slice(), true);
    let b = trim_chars(b0.as_slice(), true);
    if a.len() != b.len() {
        return false;
    }
    let mut i: usize = 0;
    while i < a.len()
        invariant
            i <= a@.len(),
            a@.len() == b@.len(),
            a@ == trim_by(entry_name@, ws_cc_pred()),
            b@ == trim_by(wanted@, ws_cc_pred()),
            forall|k: int| 0 <= k < i ==> ascii_lower(a@[k]) == ascii_lower(b@[k]),
        decreases a@.len() - i,
    {
        if ascii_lower_exec(a[i]) != ascii_lower_exec(b[i]) {
            assert(!eq_ignore_ascii_case(a@, b@));
            return false;
        }
        i = i + 1;
    }
    true
}

pub struct RawCfb<'a> {
    data: &'a [u8],
    sector_size: usize,
    mini_sector_size: usize,
    mini_cutoff: u64,
    fat: Vec<u32>,
    mini_fat: Vec<u32>,
    mini_stream: Vec<u8>,
    entries: Vec<RawEntry>,
}

impl<'a> View for RawCfb<'a> {
    type V = CfbModel;

    closed spec fn view(&self) -> CfbModel {
        CfbModel {
            data: self.data@,
            sector_size: self.sector_size as nat,
            mini_sector_size: self.mini_sector_size as nat,
            mini_cutoff: self.mini_cutoff,
            fat: self.fat@,
            mini_fat: self.mini_fat@,
            mini_stream: self.mini_stream@,
            entries: entries_view(self.entries@),
        }
    }
}

impl<'a> RawCfb<'a> {
    #[verifier::type_invariant]
    closed spec fn sizes_ok(self) -> bool {
        &&& 4 <= self.mini_sector_size <= self.sector_size
        &&& 512 <= self.sector_size <= 16777216
    }

    pub fn parse(data: &'a [u8]) -> (r: Result<RawCfb<'a>, DocError>)
        ensures
            match r {
                Ok(c) => spec_raw_parse(data@) == Ok::<CfbModel, DocErrorView>(c@),
                Err(e) => spec_raw_parse(data@) == Err::<CfbModel, DocErrorView>(e@),
            },
    {
        if data.len() < 512 {
            return Err(DocError::TooSmall { len: data.len() });
        }
        if !check_signature(data) {
            return Err(DocError::BadSignature);
        }
        let sector_shift = read_u16_or_zero(data, 30);
        if !(9 <= sector_shift && sector_shift <= 24) {
            return Err(DocError::BadSectorShift { shift: sector_shift });
        }
        let mini_shift = read_u16_or_zero(data, 32);
        if !(2 <= mini_shift && mini_shift <= sector_shift) {
            return Err(DocError::BadMiniShift { shift: mini_shift });
        }
        proof {
            lemma_pow2s_bounds(sector_shift as nat);
            lemma_pow2s_bounds(mini_shift as nat);
            lemma_pow2s_mono(mini_shift as nat, sector_shift as nat);
        }
        let sector_size = pow2_usize(sector_shift);
        let mini_sector_size = pow2_usize(mini_shift);
        let cutoff_raw = read_u32_or_zero(data, 56);
        let mini_cutoff: u64 = if cutoff_raw == 0 {
            4096
        } else {
            cutoff_raw as u64
        };
        let first_dir_sector = read_u32_or_zero(data, 48);
        let first_mini_fat = read_u32_or_zero(data, 60);

        let fat_sectors = fat_sector_ids(data, sector_size);
        let fat = build_fat(data, sector_size, &fat_sectors);
        if fat.len() == 0 {
            return Err(DocError::NoFat);
        }
        let dir_bytes = read_fat_chain(data, sector_size, &fat, first_dir_sector, u64::MAX);
        if dir_bytes.len() < 128 {
            return Err(DocError::NoDirectory);
        }
        let allow_64bit_size = read_u16_or_zero(data, 26) >= 4;
        let entries = dir_entries(dir_bytes.as_slice(), allow_64bit_size);
        let mini_fat_bytes = read_fat_chain(data, sector_size, &fat, first_mini_fat, u64::MAX);
        let mini_fat = words_of(&mini_fat_bytes);
        let mini_stream = match first_root(&entries) {
            Some((start, size)) => read_fat_chain(data, sector_size, &fat, start, size),
            None => Vec::new(),
        };
        let cfb = RawCfb {
            data,
            sector_size,
            mini_sector_size,
            mini_cutoff,
            fat,
            mini_fat,
            mini_stream,
            entries,
        };
        Ok(cfb)
    }

    /// Streams present in the container, as `(name, size)` pairs.
    pub fn stream_list(&self) -> (r: Vec<(String, u64)>)
        ensures
            crate::error::listing_view(r@) == spec_stream_list(self@.entries),
    {
        let mut out: Vec<(String, u64)> = Vec::new();
        let mut i: usize = 0;
        assert(crate::error::listing_view(out@) =~= seq![]);
        while i < self.entries.len()
            invariant
                i <= self.entries@.len(),
                crate::error::listing_view(out@) == spec_stream_list(
                    entries_view(self.entries@).take(i as int),
                ),
            decreases self.entries@.len() - i,
        {
            assert(entries_view(self.entries@).take(i + 1).drop_last() =~= entries_view(
                self.entries@,
            ).take(i as int));
            let ghost before = out@;
            let e = &self.entries[i];
            if e.is_stream() {
                out.push((e.name.clone(), e.size));
                assert(crate::error::listing_view(out@) =~= crate::error::listing_view(before).push(
                    (e@.name, e@.size),
                ));
            }
            i = i + 1;
        }
        assert(entries_view(self.entries@).take(i as int) =~= entries_view(self.entries@));
        out
    }

    /// Read a stream by name, comparing names case-insensitively and ignoring
    /// where the entry sits in the directory tree.
    pub fn read_by_name(&self, name: &str) -> (r: Option<Vec<u8>>)
        ensures
            match r {
                Some(v) => spec_read_by_name(self@, name@) == Some(v@),
                None => spec_read_by_name(self@, name@) is None,
            },
    {
        proof {
            use_type_invariant(self);
        }
        let mut i: usize = 0;
        while i < self.entries.len()
            invariant
                i <= self.entries@.len(),
                spec_find_stream_from(self@.entries, name@, 0) == spec_find_stream_from(
                    self@.entries,
                    name@,
                    i as int,
                ),
            decreases self.entries@.len() - i,
        {
            let e = &self.entries[i];
            if e.is_stream() && name_matches(e.name.as_str(), name) {
                return Some(self.read_entry(e));
            }
            i = i + 1;
        }
        None
    }

    fn read_entry(&self, entry: &RawEntry) -> (r: Vec<u8>)
        ensures
            r@ == spec_read_entry(self@, entry@),
    {
        proof {
            use_type_invariant(self);
        }
        if entry.size < self.mini_cutoff {
            read_mini_chain(
                &self.mini_stream,
                self.mini_sector_size,
                &self.mini_fat,
                entry.start_sector,
                entry.size,
            )
        } else {
            read_fat_chain(self.data, self.sector_size, &self.fat, entry.start_sector, entry.size)
        }
    }
}

} // verus!
