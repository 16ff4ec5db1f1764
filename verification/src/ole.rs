//! Opening the OLE2 container and finding the Word streams in it.

use vstd::prelude::*;
use std::io::Read;
use crate::bytes::{le16, read_u16};
use crate::cfb_recover::{
    RawCfb, CfbModel, name_matches, spec_name_matches, spec_raw_parse, spec_read_by_name,
    spec_stream_list,
};
use crate::chartext::{chars_of, decimal, hex4, push_all, push_decimal, push_hex4, push_str, string_from_chars};
use crate::error::{
    DocError, DocErrorView, ListingView, listing_view, push_streams, spec_format_streams,
};
use crate::fields::seqs_view;

verus! {

// ---------------------------------------------------------------------------
// The `cfb` crate

/// A directory entry as `cfb` walks it: `(path, name, size, is a stream)`.
pub type WalkEntryView = (Seq<char>, Seq<char>, u64, bool);

/// The views of a walk.
pub open spec fn walk_view(v: Seq<(String, String, u64, bool)>) -> Seq<WalkEntryView> {
    v.map_values(|e: (String, String, u64, bool)| (e.0@, e.1@, e.2, e.3))
}

/// What `cfb::CompoundFile::open` followed by `walk` gives for the bytes of
/// a container: `None` when `open` fails, else every entry in preorder.
pub uninterp spec fn spec_cfb_walk(data: Seq<u8>) -> Option<Seq<WalkEntryView>>;

/// What `cfb::CompoundFile::open`, `open_stream` and `read_to_end` give for
/// a stream path: `None` when any of them fails, else the stream's bytes.
pub uninterp spec fn spec_cfb_read(data: Seq<u8>, path: Seq<char>) -> Option<Seq<u8>>;

/// Opens the container with `cfb::CompoundFile::open` and lists its entries
/// with `walk`, each as its path, name, `len` and `is_stream`. The contract
/// names the result `spec_cfb_walk` of the bytes; of `open` it states only
/// that input shorter than the 512-byte header is refused.
#[verifier::external_body]
fn cfb_walk(data: &[u8]) -> (r: Option<Vec<(String, String, u64, bool)>>)
    ensures
        match r {
            Some(v) => spec_cfb_walk(data@) == Some(walk_view(v@)),
            None => spec_cfb_walk(data@) is None,
        },
        data@.len() < 512 ==> r is None,
{
    let cfb = cfb::CompoundFile::open(std::io::Cursor::new(data)).ok()?;
    Some(
        cfb.walk().map(
            |e| (e.path().to_string_lossy().into_owned(), e.name().to_string(), e.len(), e.is_stream()),
        ).collect(),
    )
}

/// Opens the container with `cfb::CompoundFile::open`, the stream at `path`
/// with `open_stream`, and reads it with `read_to_end`. The contract names
/// the result `spec_cfb_read` of the bytes and the path; it states only that
/// input shorter than the 512-byte header is refused at `open`.
#[verifier::external_body]
fn cfb_read_stream(data: &[u8], path: &str) -> (r: Option<Vec<u8>>)
    ensures
        match r {
            Some(v) => spec_cfb_read(data@, path@) == Some(v@),
            None => spec_cfb_read(data@, path@) is None,
        },
        data@.len() < 512 ==> r is None,
{
    let mut cfb = cfb::CompoundFile::open(std::io::Cursor::new(data)).ok()?;
    let mut stream = cfb.open_stream(path).ok()?;
    let mut buf = Vec::new();
    stream.read_to_end(&mut buf).ok()?;
    Some(buf)
}

// ---------------------------------------------------------------------------
// Locating streams

/// The number of `/` in a path.
pub open spec fn slash_count(p: Seq<char>) -> nat
    decreases p.len(),
{
    if p.len() == 0 {
        0
    } else {
        slash_count(p.drop_last()) + if p.last() == '/' {
            1nat
        } else {
            0nat
        }
    }
}

/// The UTF-8 length of a character.
pub open spec fn utf8_char_len(c: char) -> nat {
    if (c as u32) < 0x80 {
        1
    } else if (c as u32) < 0x800 {
        2
    } else if (c as u32) < 0x10000 {
        3
    } else {
        4
    }
}

/// The UTF-8 length of a string (`str::len`).
pub open spec fn utf8_len(p: Seq<char>) -> nat
    decreases p.len(),
{
    if p.len() == 0 {
        0
    } else {
        utf8_len(p.drop_last()) + utf8_char_len(p.last())
    }
}

/// `a` sorts strictly after `b`: deeper, or as deep and longer.
pub open spec fn path_after(a: Seq<char>, b: Seq<char>) -> bool {
    slash_count(a) > slash_count(b) || (slash_count(a) == slash_count(b) && utf8_len(a)
        > utf8_len(b))
}

/// Where a stable insertion puts `x`: before the first element from `j` on
/// that sorts after it.
pub open spec fn insert_pos_from(s: Seq<Seq<char>>, x: Seq<char>, j: int) -> int
    decreases s.len() - j,
{
    if j < 0 || j >= s.len() {
        s.len() as int
    } else if path_after(s[j], x) {
        j
    } else {
        insert_pos_from(s, x, j + 1)
    }
}

/// Paths sorted, stably, by depth and then length (shallowest first).
pub open spec fn sort_paths(s: Seq<Seq<char>>) -> Seq<Seq<char>>
    decreases s.len(),
{
    if s.len() == 0 {
        seq![]
    } else {
        let r = sort_paths(s.drop_last());
        r.insert(insert_pos_from(r, s.last(), 0), s.last())
    }
}

/// The paths of the streams whose name matches `name`, in walk order.
pub open spec fn matching_paths(es: Seq<WalkEntryView>, name: Seq<char>) -> Seq<Seq<char>>
    decreases es.len(),
{
    if es.len() == 0 {
        seq![]
    } else {
        let prev = matching_paths(es.drop_last(), name);
        let e = es.last();
        if e.3 && spec_name_matches(e.1, name) {
            prev.push(e.0)
        } else {
            prev
        }
    }
}

/// The first of the paths that `cfb` can read.
pub open spec fn spec_read_first(data: Seq<u8>, paths: Seq<Seq<char>>) -> Option<Seq<u8>>
    decreases paths.len(),
{
    if paths.len() == 0 {
        None
    } else {
        match spec_cfb_read(data, paths[0]) {
            Some(b) => Some(b),
            None => spec_read_first(data, paths.drop_first()),
        }
    }
}

/// A top-level stream through `cfb`: `/name`, else the shallowest matching
/// stream anywhere in the tree.
pub open spec fn spec_cfb_lookup(data: Seq<u8>, es: Seq<WalkEntryView>, name: Seq<char>) -> Option<
    Seq<u8>,
> {
    match spec_cfb_read(data, seq!['/'] + name) {
        Some(b) => Some(b),
        None => spec_read_first(data, sort_paths(matching_paths(es, name))),
    }
}

/// A stream by name: through `cfb` when it opened the container, else
/// through the fallback reader; and whether only the fallback found it.
pub open spec fn spec_container_read(data: Seq<u8>, name: Seq<char>) -> (Option<Seq<u8>>, bool) {
    let via_cfb = match spec_cfb_walk(data) {
        Some(es) => spec_cfb_lookup(data, es, name),
        None => None,
    };
    match via_cfb {
        Some(b) => (Some(b), false),
        None => match spec_raw_parse(data) {
            Ok(m) => match spec_read_by_name(m, name) {
                Some(b) => (Some(b), true),
                None => (None, false),
            },
            Err(_) => (None, false),
        },
    }
}

/// The streams `cfb` lists, as `(path, size)`.
pub open spec fn spec_cfb_stream_list(es: Seq<WalkEntryView>) -> ListingView
    decreases es.len(),
{
    if es.len() == 0 {
        seq![]
    } else {
        let prev = spec_cfb_stream_list(es.drop_last());
        let e = es.last();
        if e.3 {
            prev.push((e.0, e.2))
        } else {
            prev
        }
    }
}

/// The streams of the container: those `cfb` lists, or, when it lists none,
/// those the fallback reader finds.
pub open spec fn spec_container_streams(data: Seq<u8>) -> ListingView {
    let via_cfb = match spec_cfb_walk(data) {
        Some(es) => spec_cfb_stream_list(es),
        None => seq![],
    };
    if via_cfb.len() > 0 {
        via_cfb
    } else {
        match spec_raw_parse(data) {
            Ok(m) => spec_stream_list(m.entries),
            Err(_) => seq![],
        }
    }
}

/// The container opens when `cfb` or the fallback reader accepts it.
pub open spec fn container_opens(data: Seq<u8>) -> bool {
    spec_cfb_walk(data) is Some || spec_raw_parse(data) is Ok
}

/// An OLE2 container, opened as leniently as possible.
struct Container<'a> {
    data: &'a [u8],
    cfb: Option<Vec<(String, String, u64, bool)>>,
    raw: Option<RawCfb<'a>>,
    raw_tried: bool,
    /// Set when a stream could only be found with the fallback reader.
    used_recovery: bool,
}

impl<'a> Container<'a> {
    spec fn wf(&self) -> bool {
        &&& match self.cfb {
            Some(v) => spec_cfb_walk(self.data@) == Some(walk_view(v@)),
            None => spec_cfb_walk(self.data@) is None,
        }
        &&& self.raw_tried ==> match self.raw {
            Some(r) => spec_raw_parse(self.data@) == Ok::<CfbModel, DocErrorView>(r@),
            None => spec_raw_parse(self.data@) is Err,
        }
    }

    fn open(data: &'a [u8]) -> (r: Result<Container<'a>, DocError>)
        ensures
            match r {
                Ok(c) => container_opens(data@) && c.wf() && c.data@ == data@ && !c.used_recovery,
                Err(e) => !container_opens(data@) && e@ == DocErrorView::OpenFailed,
            },
            data@.len() < 512 ==> r is Err,
    {
        match cfb_walk(data) {
            Some(v) => Ok(
                Container { data, cfb: Some(v), raw: None, raw_tried: false, used_recovery: false },
            ),
            None => {
                match RawCfb::parse(data) {
                    Ok(raw) => Ok(
                        Container {
                            data,
                            cfb: None,
                            raw: Some(raw),
                            raw_tried: true,
                            used_recovery: false,
                        },
                    ),
                    Err(_) => Err(DocError::OpenFailed),
                }
            },
        }
    }

    fn ensure_raw(&mut self)
        requires
            old(self).wf(),
        ensures
            final(self).wf(),
            final(self).raw_tried,
            final(self).data == old(self).data,
            final(self).cfb == old(self).cfb,
            final(self).used_recovery == old(self).used_recovery,
    {
        if !self.raw_tried {
            self.raw_tried = true;
            self.raw = match RawCfb::parse(self.data) {
                Ok(r) => Some(r),
                Err(_) => None,
            };
        }
    }

    /// Read a top-level stream by name, falling back to a directory walk and
    /// then to the tolerant reader.
    fn read(&mut self, name: &str) -> (r: Option<Vec<u8>>)
        requires
            old(self).wf(),
        ensures
            final(self).wf(),
            final(self).data == old(self).data,
            final(self).cfb == old(self).cfb,
            final(self).used_recovery == (old(self).used_recovery || spec_container_read(
                old(self).data@,
                name@,
            ).1),
            match r {
                Some(v) => spec_container_read(old(self).data@, name@).0 == Some(v@),
                None => spec_container_read(old(self).data@, name@).0 is None,
            },
    {
        let found = match &self.cfb {
            Some(entries) => cfb_lookup(self.data, entries, name),
            None => None,
        };
        match found {
            Some(buf) => {
                return Some(buf);
            },
            None => {},
        }
        self.ensure_raw();
        let from_raw = match &self.raw {
            Some(raw) => raw.read_by_name(name),
            None => None,
        };
        match from_raw {
            Some(buf) => {
                self.used_recovery = true;
                Some(buf)
            },
            None => None,
        }
    }

    fn stream_list(&mut self) -> (r: Vec<(String, u64)>)
        requires
            old(self).wf(),
        ensures
            final(self).wf(),
            final(self).data == old(self).data,
            final(self).cfb == old(self).cfb,
            final(self).used_recovery == old(self).used_recovery,
            listing_view(r@) == spec_container_streams(old(self).data@),
    {
        match &self.cfb {
            Some(entries) => {
                let streams = cfb_stream_list(entries);
                if streams.len() > 0 {
                    return streams;
                }
            },
            None => {},
        }
        self.ensure_raw();
        match &self.raw {
            Some(raw) => raw.stream_list(),
            None => {
                let v: Vec<(String, u64)> = Vec::new();
                assert(listing_view(v@) =~= seq![]);
                v
            },
        }
    }
}

fn cfb_stream_list(entries: &Vec<(String, String, u64, bool)>) -> (r: Vec<(String, u64)>)
    ensures
        listing_view(r@) == spec_cfb_stream_list(walk_view(entries@)),
{
    let mut out: Vec<(String, u64)> = Vec::new();
    let mut i: usize = 0;
    assert(listing_view(out@) =~= seq![]);
    while i < entries.len()
        invariant
            i <= entries@.len(),
            listing_view(out@) == spec_cfb_stream_list(walk_view(entries@).take(i as int)),
        decreases entries@.len() - i,
    {
        assert(walk_view(entries@).take(i + 1).drop_last() =~= walk_view(entries@).take(i as int));
        let ghost before = out@;
        if entries[i].3 {
            out.push((entries[i].0.clone(), entries[i].2));
            assert(listing_view(out@) =~= listing_view(before).push(
                (entries@[i as int].0@, entries@[i as int].2),
            ));
        }
        i = i + 1;
    }
    assert(walk_view(entries@).take(i as int) =~= walk_view(entries@));
    out
}

fn count_slashes(p: &Vec<char>) -> (r: u64)
    ensures
        r == slash_count(p@),
{
    let mut n: u64 = 0;
    let mut i: usize = 0;
    while i < p.len()
        invariant
            i <= p@.len(),
            n == slash_count(p@.take(i as int)),
            n <= i,
        decreases p@.len() - i,
    {
        assert(p@.take(i + 1).drop_last() =~= p@.take(i as int));
        if p[i] == '/' {
            n = n + 1;
        }
        i = i + 1;
    }
    assert(p@.take(i as int) =~= p@);
    n
}

fn utf8_length(p: &Vec<char>) -> (r: u128)
    ensures
        r == utf8_len(p@),
{
    let mut n: u128 = 0;
    let mut i: usize = 0;
    while i < p.len()
        invariant
            i <= p@.len(),
            n == utf8_len(p@.take(i as int)),
            n <= 4 * i,
        decreases p@.len() - i,
    {
        assert(p@.take(i + 1).drop_last() =~= p@.take(i as int));
        let c = p[i];
        let code = c as u32;
        let w: u128 = if code < 0x80 {
            1
        } else if code < 0x800 {
            2
        } else if code < 0x10000 {
            3
        } else {
            4
        };
        n = n + w;
        i = i + 1;
    }
    assert(p@.take(i as int) =~= p@);
    n
}

fn sorts_after(a: &Vec<char>, b: &Vec<char>) -> (r: bool)
    ensures
        r == path_after(a@, b@),
{
    let sa = count_slashes(a);
    let sb = count_slashes(b);
    sa > sb || (sa == sb && utf8_length(a) > utf8_length(b))
}

fn copy_chars(v: &Vec<char>) -> (r: Vec<char>)
    ensures
        r@ == v@,
{
    let mut out: Vec<char> = Vec::new();
    push_all(&mut out, v.as_slice());
    out
}

fn sorted_paths(paths: &Vec<Vec<char>>) -> (r: Vec<Vec<char>>)
    ensures
        seqs_view(r@) == sort_paths(seqs_view(paths@)),
{
    let mut sorted: Vec<Vec<char>> = Vec::new();
    let mut i: usize = 0;
    assert(seqs_view(sorted@) =~= seq![]);
    while i < paths.len()
        invariant
            i <= paths@.len(),
            seqs_view(sorted@) == sort_paths(seqs_view(paths@).take(i as int)),
        decreases paths@.len() - i,
    {
        let ghost pre = seqs_view(paths@).take(i as int);
        assert(seqs_view(paths@).take(i + 1).drop_last() =~= pre);
        let x = copy_chars(&paths[i]);
        let ghost r = seqs_view(sorted@);
        let mut j: usize = 0;
        while j < sorted.len() && !sorts_after(&sorted[j], &x)
            invariant
                j <= sorted@.len(),
                r == seqs_view(sorted@),
                insert_pos_from(r, x@, 0) == insert_pos_from(r, x@, j as int),
            decreases sorted@.len() - j,
        {
            j = j + 1;
        }
        let ghost before = sorted@;
        sorted.insert(j, x);
        assert(seqs_view(sorted@) =~= r.insert(j as int, x@));
        i = i + 1;
    }
    assert(seqs_view(paths@).take(i as int) =~= seqs_view(paths@));
    sorted
}

fn matching_path_list(entries: &Vec<(String, String, u64, bool)>, name: &str) -> (r: Vec<
    Vec<char>,
>)
    ensures
        seqs_view(r@) == matching_paths(walk_view(entries@), name@),
{
    let mut out: Vec<Vec<char>> = Vec::new();
    let mut i: usize = 0;
    assert(seqs_view(out@) =~= seq![]);
    while i < entries.len()
        invariant
            i <= entries@.len(),
            seqs_view(out@) == matching_paths(walk_view(entries@).take(i as int), name@),
        decreases entries@.len() - i,
    {
        assert(walk_view(entries@).take(i + 1).drop_last() =~= walk_view(entries@).take(i as int));
        let ghost before = out@;
        if entries[i].3 && name_matches(entries[i].1.as_str(), name) {
            let p = chars_of(entries[i].0.as_str());
            out.push(p);
            assert(seqs_view(out@) =~= seqs_view(before).push(entries@[i as int].0@));
        }
        i = i + 1;
    }
    assert(walk_view(entries@).take(i as int) =~= walk_view(entries@));
    out
}

fn cfb_lookup(data: &[u8], entries: &Vec<(String, String, u64, bool)>, name: &str) -> (r: Option<
    Vec<u8>,
>)
    ensures
        match r {
            Some(v) => spec_cfb_lookup(data@, walk_view(entries@), name@) == Some(v@),
            None => spec_cfb_lookup(data@, walk_view(entries@), name@) is None,
        },
{
    let mut top: Vec<char> = Vec::new();
    top.push('/');
    push_str(&mut top, name);
    let top_path = string_from_chars(top.as_slice());
    assert(top_path@ =~= seq!['/'] + name@);
    match cfb_read_stream(data, top_path.as_str()) {
        Some(buf) => {
            assert(spec_cfb_read(data@, seq!['/'] + name@) == Some(buf@));
            return Some(buf);
        },
        None => {},
    }
    let paths = sorted_paths(&matching_path_list(entries, name));
    let ghost ps = seqs_view(paths@);
    assert(spec_cfb_lookup(data@, walk_view(entries@), name@) == spec_read_first(data@, ps));
    let mut k: usize = 0;
    assert(ps.skip(0) =~= ps);
    while k < paths.len()
        invariant
            k <= paths@.len(),
            ps == seqs_view(paths@),
            spec_cfb_lookup(data@, walk_view(entries@), name@) == spec_read_first(data@, ps),
            spec_read_first(data@, ps) == spec_read_first(data@, ps.skip(k as int)),
        decreases paths@.len() - k,
    {
        let ghost rest = ps.skip(k as int);
        assert(rest[0] == paths@[k as int]@);
        assert(rest.drop_first() =~= ps.skip(k + 1));
        let path = string_from_chars(paths[k].as_slice());
        assert(path@ == rest[0]);
        match cfb_read_stream(data, path.as_str()) {
            Some(buf) => {
                return Some(buf);
            },
            None => {},
        }
        k = k + 1;
    }
    assert(ps.skip(k as int) =~= seq![]);
    None
}

// ---------------------------------------------------------------------------
// The FIB header

/// The first bytes of the FIB, which tell us the Word version and where the
/// table stream lives.
#[derive(Clone, Copy, Debug)]
pub struct FibHeader {
    pub w_ident: u16,
    pub n_fib: u16,
    pub flags: u16,
}

/// The FIB header of a `WordDocument` stream, when it is long enough.
pub open spec fn spec_fib_header(wd: Seq<u8>) -> Option<FibHeader> {
    if wd.len() < 12 {
        None
    } else {
        Some(FibHeader { w_ident: le16(wd, 0), n_fib: le16(wd, 2), flags: le16(wd, 10) })
    }
}

/// `fComplex`, bit 2 of the flags.
pub open spec fn spec_f_complex(h: FibHeader) -> bool {
    h.flags & 4u16 != 0
}

/// `fEncrypted`, bit 8 of the flags.
pub open spec fn spec_f_encrypted(h: FibHeader) -> bool {
    h.flags & 256u16 != 0
}

/// `fWhichTblStm`, bit 9 of the flags.
pub open spec fn spec_which_table(h: FibHeader) -> u16 {
    (h.flags >> 9u16) & 1u16
}

/// The table stream the FIB asks for.
pub open spec fn spec_table_name(h: FibHeader) -> Seq<char> {
    if spec_which_table(h) == 1 {
        "1Table"@
    } else {
        "0Table"@
    }
}

/// The other table stream.
pub open spec fn spec_other_table_name(h: FibHeader) -> Seq<char> {
    if spec_which_table(h) == 1 {
        "0Table"@
    } else {
        "1Table"@
    }
}

/// A Word 6.0/95 file.
pub open spec fn spec_is_word6(h: FibHeader) -> bool {
    h.w_ident == 0xA5DB || h.w_ident == 0xA5DC || h.n_fib < 193
}

/// The Word version an `nFib` belongs to.
pub open spec fn spec_version_name(n_fib: u16) -> Seq<char> {
    if n_fib <= 100 {
        "Word 2.0 or earlier"@
    } else if n_fib <= 192 {
        "Word 6.0/95"@
    } else if n_fib <= 216 {
        "Word 97"@
    } else if n_fib <= 256 {
        "Word 2000"@
    } else if n_fib <= 267 {
        "Word 2002"@
    } else if n_fib <= 269 {
        "Word 2003"@
    } else {
        "Word 2007 or later"@
    }
}

impl FibHeader {
    fn parse(wd: &[u8]) -> (r: Option<FibHeader>)
        ensures
            r == spec_fib_header(wd@),
    {
        if wd.len() < 12 {
            return None;
        }
        Some(
            FibHeader {
                w_ident: read_u16(wd, 0),
                n_fib: read_u16(wd, 2),
                flags: read_u16(wd, 10),
            },
        )
    }

    pub fn f_complex(&self) -> (r: bool)
        ensures
            r == spec_f_complex(*self),
    {
        self.flags & 4 != 0
    }

    pub fn f_encrypted(&self) -> (r: bool)
        ensures
            r == spec_f_encrypted(*self),
    {
        self.flags & 256 != 0
    }

    /// `fWhichTblStm`: 1 → the document uses `1Table`, 0 → `0Table`.
    pub fn which_table(&self) -> (r: u16)
        ensures
            r == spec_which_table(*self),
    {
        (self.flags >> 9) & 1
    }

    pub fn table_name(&self) -> (r: &'static str)
        ensures
            r@ == spec_table_name(*self),
    {
        if self.which_table() == 1 {
            "1Table"
        } else {
            "0Table"
        }
    }

    /// True for Word 6.0/95 files, which keep the tables inside the
    /// WordDocument stream instead of a separate table stream.
    pub fn is_word6(&self) -> (r: bool)
        ensures
            r == spec_is_word6(*self),
    {
        self.w_ident == 0xA5DB || self.w_ident == 0xA5DC || self.n_fib < 193
    }

    pub fn version_name(&self) -> (r: &'static str)
        ensures
            r@ == spec_version_name(self.n_fib),
    {
        let n = self.n_fib;
        if n <= 100 {
            "Word 2.0 or earlier"
        } else if n <= 192 {
            "Word 6.0/95"
        } else if n <= 216 {
            "Word 97"
        } else if n <= 256 {
            "Word 2000"
        } else if n <= 267 {
            "Word 2002"
        } else if n <= 269 {
            "Word 2003"
        } else {
            "Word 2007 or later"
        }
    }
}

// ---------------------------------------------------------------------------
// Reading the Word streams

#[derive(Debug)]
pub struct OleStreams {
    pub word_document: Vec<u8>,
    pub table: Vec<u8>,
}

impl View for OleStreams {
    type V = (Seq<u8>, Seq<u8>);

    open spec fn view(&self) -> (Seq<u8>, Seq<u8>) {
        (self.word_document@, self.table@)
    }
}

/// The `WordDocument` stream and the table stream of a container, or why
/// they cannot be had.
pub open spec fn spec_read_ole_streams(d: Seq<u8>) -> Result<(Seq<u8>, Seq<u8>), DocErrorView> {
    if !container_opens(d) {
        Err(DocErrorView::OpenFailed)
    } else {
        match spec_container_read(d, "WordDocument"@).0 {
            None => Err(DocErrorView::NoWordDocument { streams: spec_container_streams(d) }),
            Some(wd) => match spec_fib_header(wd) {
                None => Err(DocErrorView::WordDocumentTooShort { len: wd.len() as usize }),
                Some(fib) => if spec_f_encrypted(fib) {
                    Err(DocErrorView::Encrypted)
                } else {
                    let table = match spec_container_read(d, spec_table_name(fib)).0 {
                        Some(t) => Some(t),
                        None => spec_container_read(d, spec_other_table_name(fib)).0,
                    };
                    match table {
                        Some(t) => Ok((wd, t)),
                        None => if spec_is_word6(fib) {
                            Err(DocErrorView::Word6 { w_ident: fib.w_ident, n_fib: fib.n_fib })
                        } else {
                            Err(
                                DocErrorView::NoTableStream {
                                    prefers_one_table: spec_which_table(fib) == 1,
                                    streams: spec_container_streams(d),
                                },
                            )
                        },
                    }
                },
            },
        }
    }
}

pub fn read_ole_streams(data: &[u8]) -> (r: Result<OleStreams, DocError>)
    ensures
        match r {
            Ok(s) => spec_read_ole_streams(data@) == Ok::<(Seq<u8>, Seq<u8>), DocErrorView>(s@),
            Err(e) => spec_read_ole_streams(data@) == Err::<(Seq<u8>, Seq<u8>), DocErrorView>(e@),
        },
        data@.len() < 512 ==> (r matches Err(e) && e@ == DocErrorView::OpenFailed),
{
    let mut container = match Container::open(data) {
        Ok(c) => c,
        Err(e) => {
            return Err(e);
        },
    };
    let word_document = match container.read("WordDocument") {
        Some(wd) => wd,
        None => {
            let streams = container.stream_list();
            return Err(DocError::NoWordDocument { streams });
        },
    };
    let fib = match FibHeader::parse(word_document.as_slice()) {
        Some(f) => f,
        None => {
            return Err(DocError::WordDocumentTooShort { len: word_document.len() });
        },
    };
    if fib.f_encrypted() {
        return Err(DocError::Encrypted);
    }
    // fWhichTblStm says which table stream to use, but some writers set it
    // wrongly, so try the other one before giving up.
    let prefers_one_table = fib.which_table() == 1;
    let preferred = fib.table_name();
    let fallback = if prefers_one_table {
        "0Table"
    } else {
        "1Table"
    };
    let first = container.read(preferred);
    let table = match first {
        Some(t) => Some(t),
        None => container.read(fallback),
    };
    match table {
        Some(table) => Ok(OleStreams { word_document, table }),
        None => {
            if fib.is_word6() {
                Err(DocError::Word6 { w_ident: fib.w_ident, n_fib: fib.n_fib })
            } else {
                let streams = container.stream_list();
                Err(DocError::NoTableStream { prefers_one_table, streams })
            }
        },
    }
}

// ---------------------------------------------------------------------------
// Inspection

/// Diagnostic view of a `.doc` file: container layout and FIB header, with no
/// document content, so it is safe to paste into a bug report.
pub struct Inspection {
    pub streams: Vec<(String, u64)>,
    pub fib: Option<FibHeader>,
    pub notes: Vec<String>,
}

/// An inspection as the contracts see it.
pub struct InspectionView {
    pub streams: ListingView,
    pub fib: Option<FibHeader>,
    pub notes: Seq<Seq<char>>,
}

/// The views of a vector of strings.
pub open spec fn strings_view(v: Seq<String>) -> Seq<Seq<char>> {
    v.map_values(|s: String| s@)
}

impl View for Inspection {
    type V = InspectionView;

    open spec fn view(&self) -> InspectionView {
        InspectionView {
            streams: listing_view(self.streams@),
            fib: self.fib,
            notes: strings_view(self.notes@),
        }
    }
}

/// The note on a table stream that the FIB asks for and that is missing.
pub open spec fn missing_table_note(table: Seq<char>) -> Seq<char> {
    "the "@ + table + " stream requested by the FIB is missing"@
}

/// The notes on the FIB header, after those on the container.
pub open spec fn fib_notes(d: Seq<u8>, wd: Option<Seq<u8>>) -> Seq<Seq<char>> {
    match wd {
        Some(w) => match spec_fib_header(w) {
            Some(fib) => {
                let enc = if spec_f_encrypted(fib) {
                    seq!["the document is encrypted (fEncrypted)"@]
                } else {
                    seq![]
                };
                let ver = if spec_is_word6(fib) {
                    seq!["Word 6.0/95 format: unword only supports Word 97 and later"@]
                } else if spec_container_read(d, spec_table_name(fib)).0 is None {
                    seq![missing_table_note(spec_table_name(fib))]
                } else {
                    seq![]
                };
                enc + ver
            },
            None => seq![],
        },
        None => seq!["no WordDocument stream in this container"@],
    }
}

/// Whether inspecting needed the fallback reader to find a stream.
pub open spec fn inspect_recovered(d: Seq<u8>) -> bool {
    let (wd, rec) = spec_container_read(d, "WordDocument"@);
    rec || match wd {
        Some(w) => match spec_fib_header(w) {
            Some(fib) => !spec_is_word6(fib) && spec_container_read(d, spec_table_name(fib)).1,
            None => false,
        },
        None => false,
    }
}

/// The inspection report of a container, or why it cannot be opened.
pub open spec fn spec_inspect(d: Seq<u8>) -> Result<InspectionView, DocErrorView> {
    if !container_opens(d) {
        Err(DocErrorView::OpenFailed)
    } else {
        let wd = spec_container_read(d, "WordDocument"@).0;
        let damaged = if spec_cfb_walk(d) is None {
            seq!["the container header is damaged; it was read with the fallback reader"@]
        } else {
            seq![]
        };
        let unsorted = if inspect_recovered(d) {
            seq![
                "the directory tree is not sorted as MS-CFB requires; streams were located by scanning it linearly"@,
            ]
        } else {
            seq![]
        };
        Ok(
            InspectionView {
                streams: spec_container_streams(d),
                fib: match wd {
                    Some(w) => spec_fib_header(w),
                    None => None,
                },
                notes: damaged + fib_notes(d, wd) + unsorted,
            },
        )
    }
}

fn push_note(notes: &mut Vec<String>, text: &str)
    ensures
        strings_view(final(notes)@) == strings_view(old(notes)@).push(text@),
{
    let cs = chars_of(text);
    let s = string_from_chars(cs.as_slice());
    notes.push(s);
    assert(strings_view(final(notes)@) =~= strings_view(old(notes)@).push(text@));
}

/// The view of an optional byte vector.
pub open spec fn opt_bytes_view(v: Option<Vec<u8>>) -> Option<Seq<u8>> {
    match v {
        Some(w) => Some(w@),
        None => None,
    }
}

fn push_fib_notes(container: &mut Container, wd: &Option<Vec<u8>>, notes: &mut Vec<String>)
    requires
        old(container).wf(),
    ensures
        final(container).wf(),
        final(container).data == old(container).data,
        final(container).cfb == old(container).cfb,
        final(container).used_recovery == (old(container).used_recovery || match opt_bytes_view(*wd) {
            Some(w) => match spec_fib_header(w) {
                Some(fib) => !spec_is_word6(fib) && spec_container_read(
                    old(container).data@,
                    spec_table_name(fib),
                ).1,
                None => false,
            },
            None => false,
        }),
        strings_view(final(notes)@) == strings_view(old(notes)@) + fib_notes(
            old(container).data@,
            opt_bytes_view(*wd),
        ),
{
    let fib = match wd {
        Some(w) => FibHeader::parse(w.as_slice()),
        None => None,
    };
    match fib {
        Some(f) => {
            if f.f_encrypted() {
                push_note(notes, "the document is encrypted (fEncrypted)");
            }
            if f.is_word6() {
                push_note(notes, "Word 6.0/95 format: unword only supports Word 97 and later");
            } else {
                let table = f.table_name();
                let t = container.read(table);
                if t.is_none() {
                    let mut text: Vec<char> = Vec::new();
                    push_str(&mut text, "the ");
                    push_str(&mut text, table);
                    push_str(&mut text, " stream requested by the FIB is missing");
                    let ghost before = notes@;
                    notes.push(string_from_chars(text.as_slice()));
                    assert(strings_view(notes@) =~= strings_view(before).push(
                        missing_table_note(table@),
                    ));
                }
            }
        },
        None => {
            if wd.is_none() {
                push_note(notes, "no WordDocument stream in this container");
            }
        },
    }
    assert(strings_view(final(notes)@) =~= strings_view(old(notes)@) + fib_notes(
        old(container).data@,
        opt_bytes_view(*wd),
    ));
}

pub fn inspect(data: &[u8]) -> (r: Result<Inspection, DocError>)
    ensures
        match r {
            Ok(i) => spec_inspect(data@) == Ok::<InspectionView, DocErrorView>(i@),
            Err(e) => spec_inspect(data@) == Err::<InspectionView, DocErrorView>(e@),
        },
        data@.len() < 512 ==> (r matches Err(e) && e@ == DocErrorView::OpenFailed),
{
    let mut container = match Container::open(data) {
        Ok(c) => c,
        Err(e) => {
            return Err(e);
        },
    };
    let mut notes: Vec<String> = Vec::new();
    assert(strings_view(notes@) =~= seq![]);
    if container.cfb.is_none() {
        push_note(&mut notes, "the container header is damaged; it was read with the fallback reader");
    }
    let ghost n0 = strings_view(notes@);
    let streams = container.stream_list();
    let word_document = container.read("WordDocument");
    let fib = match &word_document {
        Some(wd) => FibHeader::parse(wd.as_slice()),
        None => None,
    };
    assert(fib == match opt_bytes_view(word_document) {
        Some(w) => spec_fib_header(w),
        None => None,
    });
    push_fib_notes(&mut container, &word_document, &mut notes);
    assert(container.used_recovery == inspect_recovered(data@));
    let ghost n1 = strings_view(notes@);
    if container.used_recovery {
        push_note(
            &mut notes,
            "the directory tree is not sorted as MS-CFB requires; streams were located by scanning it linearly",
        );
    }
    let ghost damaged = if spec_cfb_walk(data@) is None {
        seq!["the container header is damaged; it was read with the fallback reader"@]
    } else {
        seq![]
    };
    assert(n0 == damaged);
    let ghost unsorted = if inspect_recovered(data@) {
        seq![
            "the directory tree is not sorted as MS-CFB requires; streams were located by scanning it linearly"@,
        ]
    } else {
        seq![]
    };
    assert(strings_view(notes@) =~= n1 + unsorted);
    assert(strings_view(notes@) =~= damaged + fib_notes(data@, opt_bytes_view(word_document))
        + unsorted);
    Ok(Inspection { streams, fib, notes })
}

/// The report's first FIB line.
pub open spec fn fib_line1(fib: FibHeader) -> Seq<char> {
    "FIB: wIdent="@ + hex4(fib.w_ident) + " nFib="@ + decimal(fib.n_fib as nat) + " ("@
        + spec_version_name(fib.n_fib) + ")\n"@
}

/// The report's second FIB line.
pub open spec fn fib_line2(fib: FibHeader) -> Seq<char> {
    "     flags="@ + hex4(fib.flags) + " fComplex="@ + bool_text(spec_f_complex(fib))
        + " fEncrypted="@ + bool_text(spec_f_encrypted(fib)) + " fWhichTblStm="@ + decimal(
        spec_which_table(fib) as nat,
    ) + " (expects "@ + spec_table_name(fib) + ")\n"@
}

/// The report's FIB lines.
pub open spec fn fib_lines(fib: Option<FibHeader>) -> Seq<char> {
    match fib {
        Some(f) => fib_line1(f) + fib_line2(f),
        None => "FIB: unreadable\n"@,
    }
}

/// The inspection report as the command line prints it.
pub open spec fn spec_render_inspection(v: InspectionView) -> Seq<char> {
    "Streams:\n"@ + spec_format_streams(v.streams) + "\n"@ + fib_lines(v.fib) + note_lines(v.notes)
}

fn push_fib_line1(out: &mut Vec<char>, fib: FibHeader)
    ensures
        final(out)@ == old(out)@ + fib_line1(fib),
{
    push_str(out, "FIB: wIdent=");
    push_hex4(out, fib.w_ident);
    push_str(out, " nFib=");
    push_decimal(out, fib.n_fib as u64);
    push_str(out, " (");
    push_str(out, fib.version_name());
    push_str(out, ")\n");
    assert(final(out)@ =~= old(out)@ + fib_line1(fib));
}

fn push_fib_line2(out: &mut Vec<char>, fib: FibHeader)
    ensures
        final(out)@ == old(out)@ + fib_line2(fib),
{
    push_str(out, "     flags=");
    push_hex4(out, fib.flags);
    push_str(out, " fComplex=");
    push_bool(out, fib.f_complex());
    push_str(out, " fEncrypted=");
    push_bool(out, fib.f_encrypted());
    push_str(out, " fWhichTblStm=");
    push_decimal(out, fib.which_table() as u64);
    push_str(out, " (expects ");
    push_str(out, fib.table_name());
    push_str(out, ")\n");
    assert(final(out)@ =~= old(out)@ + fib_line2(fib));
}

/// `true` or `false`, as `{}` prints a `bool`.
pub open spec fn bool_text(b: bool) -> Seq<char> {
    if b {
        "true"@
    } else {
        "false"@
    }
}

/// One `note: ...` line per note.
pub open spec fn note_lines(notes: Seq<Seq<char>>) -> Seq<char>
    decreases notes.len(),
{
    if notes.len() == 0 {
        seq![]
    } else {
        note_lines(notes.drop_last()) + "note: "@ + notes.last() + "\n"@
    }
}

fn push_bool(out: &mut Vec<char>, b: bool)
    ensures
        final(out)@ == old(out)@ + bool_text(b),
{
    if b {
        push_str(out, "true");
    } else {
        push_str(out, "false");
    }
}

impl Inspection {
    /// The report, as `Display` prints it.
    pub fn render(&self) -> (r: String)
        ensures
            r@ == spec_render_inspection(self@),
    {
        let mut out: Vec<char> = Vec::new();
        push_str(&mut out, "Streams:\n");
        push_streams(&mut out, &self.streams);
        push_str(&mut out, "\n");
        let ghost head = out@;
        match self.fib {
            Some(fib) => {
                push_fib_line1(&mut out, fib);
                push_fib_line2(&mut out, fib);
            },
            None => {
                push_str(&mut out, "FIB: unreadable\n");
            },
        }
        assert(out@ =~= head + fib_lines(self.fib));
        let ghost mid = out@;
        let mut i: usize = 0;
        while i < self.notes.len()
            invariant
                i <= self.notes@.len(),
                out@ == mid + note_lines(strings_view(self.notes@).take(i as int)),
            decreases self.notes@.len() - i,
        {
            assert(strings_view(self.notes@).take(i + 1).drop_last() =~= strings_view(
                self.notes@,
            ).take(i as int));
            push_str(&mut out, "note: ");
            push_str(&mut out, self.notes[i].as_str());
            push_str(&mut out, "\n");
            i = i + 1;
        }
        assert(strings_view(self.notes@).take(i as int) =~= strings_view(self.notes@));
        assert(out@ =~= spec_render_inspection(self@));
        string_from_chars(out.as_slice())
    }
}

} // verus!
