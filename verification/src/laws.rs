//! Properties that hold of every input, over the specifications the
//! functions of this crate are proved to meet.

use vstd::prelude::*;
use crate::chartext::{is_ws, trim_by, trim_end_by, trim_start_by, trim_ws, ws_pred};
use crate::cfb_recover::{
    CfbModel, RawEntryView, entry_size, name_units, obj_stream, spec_dir_entries,
    spec_fat_chain_bytes, spec_find_stream_from, spec_name_matches, spec_parse_dir_entry,
    spec_raw_parse, spec_read_by_name, spec_read_entry, spec_stream_list, spec_utf16_lossy,
};
use crate::papx::{
    ParagraphStyle, insert_piece_cps, page_all_runs, piece_cp_of, page_runs, papx_page, papx_run, papx_runs,
    sort_styles, spec_heading_map, spec_parse_papx, style_insert_pos,
};
use crate::clx::{PieceView, spec_clx_scan, spec_parse_clx};
use crate::text::{spec_extract_text, spec_text_prefix, starts_with_bom};
use crate::styles::{heading_level, lemma_walk_count_grows, spec_parse_stsh, stsh_walk};
use crate::bytes::{le16, le16_or_zero, le32, le32_or_zero};
use crate::error::ListingView;
use crate::layout_laws::{u16_bytes, u32_bytes};
use crate::error::DocErrorView;
use crate::ole::{
    container_opens, fib_notes, inspect_recovered, spec_cfb_walk, spec_container_read,
    spec_container_streams, spec_fib_header, spec_inspect,
    spec_other_table_name, spec_read_ole_streams, spec_table_name,
};
use crate::markdown::{
    box_state, close_box, drop_controls, hashes, heading_prefix, is_doc_control, paragraph_out,
    render_state, spec_clean_text, spec_generate_markdown, spec_render_paragraphs,
};
use crate::fields::{
    FrameView, all_seen, ascii_upper, close_token, code_tokens, field_of, is_ascii_text,
    spec_parse_field_code, spec_upper, token_or_empty, token_state, is_field_end, is_field_mark, scan_state, spec_extract_fields,
    spec_strip_field_codes, strip_keeps, strip_state,
};

verus! {

// ---------------------------------------------------------------------------
// Trimming

/// `trim_start_by` drops a prefix of characters that all satisfy `p`, and
/// what remains does not start with one.
pub proof fn lemma_trim_start_shape(s: Seq<char>, p: spec_fn(char) -> bool) -> (k: int)
    ensures
        0 <= k <= s.len(),
        trim_start_by(s, p) == s.subrange(k, s.len() as int),
        k < s.len() ==> !p(s[k]),
    decreases s.len(),
{
    if s.len() > 0 && p(s[0]) {
        let k1 = lemma_trim_start_shape(s.drop_first(), p);
        assert(s.drop_first().subrange(k1, s.drop_first().len() as int) =~= s.subrange(
            k1 + 1,
            s.len() as int,
        ));
        k1 + 1
    } else {
        assert(s.subrange(0, s.len() as int) =~= s);
        0
    }
}

/// `trim_end_by` drops a suffix of characters that all satisfy `p`, and
/// what remains does not end with one.
pub proof fn lemma_trim_end_shape(s: Seq<char>, p: spec_fn(char) -> bool) -> (k: int)
    ensures
        0 <= k <= s.len(),
        trim_end_by(s, p) == s.subrange(0, k),
        k > 0 ==> !p(s[k - 1]),
    decreases s.len(),
{
    if s.len() > 0 && p(s.last()) {
        let k1 = lemma_trim_end_shape(s.drop_last(), p);
        assert(s.drop_last().subrange(0, k1) =~= s.subrange(0, k1));
        k1
    } else {
        assert(s.subrange(0, s.len() as int) =~= s);
        s.len() as int
    }
}

/// Trimming a trimmed string changes nothing.
pub proof fn lemma_trim_idempotent(s: Seq<char>, p: spec_fn(char) -> bool)
    ensures
        trim_by(trim_by(s, p), p) == trim_by(s, p),
{
    let t = trim_start_by(s, p);
    let k = lemma_trim_start_shape(s, p);
    let u = trim_end_by(t, p);
    let j = lemma_trim_end_shape(t, p);
    if u.len() > 0 {
        assert(u[0] == t[0]);
        assert(t[0] == s[k]);
        assert(!p(u[0]));
        assert(u.last() == t[j - 1]);
    }
    let k2 = lemma_trim_start_shape(u, p);
    assert(k2 == 0);
    assert(trim_start_by(u, p) =~= u);
    let j2 = lemma_trim_end_shape(u, p);
    assert(j2 == u.len());
    assert(trim_end_by(u, p) =~= u);
}

/// Every character of a trimmed string is a character of the untrimmed one:
/// a property that all of `s` has, all of its trimmed form has.
pub proof fn lemma_trim_keeps_property(s: Seq<char>, p: spec_fn(char) -> bool, q: spec_fn(char) -> bool)
    requires
        forall|i: int| 0 <= i < s.len() ==> q(#[trigger] s[i]),
    ensures
        forall|i: int| 0 <= i < trim_by(s, p).len() ==> q(#[trigger] trim_by(s, p)[i]),
{
    let t = trim_start_by(s, p);
    let k = lemma_trim_start_shape(s, p);
    assert forall|i: int| 0 <= i < t.len() implies q(#[trigger] t[i]) by {
        assert(t[i] == s[k + i]);
    }
    let j = lemma_trim_end_shape(t, p);
    assert forall|i: int| 0 <= i < trim_by(s, p).len() implies q(#[trigger] trim_by(s, p)[i]) by {
        assert(trim_by(s, p)[i] == t[i]);
    }
}

// ---------------------------------------------------------------------------
// Fields

/// Stripped text holds no field marker.
pub proof fn law_strip_removes_markers(s: Seq<char>)
    ensures
        forall|i: int|
            0 <= i < spec_strip_field_codes(s).len() ==> !is_field_mark(
                #[trigger] spec_strip_field_codes(s)[i],
            ),
    decreases s.len(),
{
    if s.len() > 0 {
        let p = s.drop_last();
        law_strip_removes_markers(p);
        let prev = spec_strip_field_codes(p);
        assert forall|i: int| 0 <= i < spec_strip_field_codes(s).len() implies !is_field_mark(
            #[trigger] spec_strip_field_codes(s)[i],
        ) by {
            if i < prev.len() {
                assert(spec_strip_field_codes(s)[i] == prev[i]);
            }
        }
    }
}

proof fn lemma_no_mark_state(s: Seq<char>)
    requires
        forall|i: int| 0 <= i < s.len() ==> !is_field_mark(#[trigger] s[i]),
    ensures
        strip_state(s) == Seq::<bool>::empty(),
        spec_strip_field_codes(s) == s,
    decreases s.len(),
{
    if s.len() > 0 {
        let p = s.drop_last();
        assert forall|i: int| 0 <= i < p.len() implies !is_field_mark(#[trigger] p[i]) by {
            assert(p[i] == s[i]);
        }
        lemma_no_mark_state(p);
        assert(!is_field_mark(s[s.len() - 1]));
        assert(all_seen(Seq::<bool>::empty()));
        assert(p.push(s.last()) =~= s);
    }
}

/// Text without field markers comes out of stripping unchanged.
pub proof fn law_strip_identity_without_fields(s: Seq<char>)
    requires
        forall|i: int| 0 <= i < s.len() ==> !is_field_mark(#[trigger] s[i]),
    ensures
        spec_strip_field_codes(s) == s,
{
    lemma_no_mark_state(s);
}

/// Stripping twice strips no more than once.
pub proof fn law_strip_idempotent(s: Seq<char>)
    ensures
        spec_strip_field_codes(spec_strip_field_codes(s)) == spec_strip_field_codes(s),
{
    law_strip_removes_markers(s);
    lemma_no_mark_state(spec_strip_field_codes(s));
}

/// Every field value is trimmed: trimming it again changes nothing.
pub proof fn law_field_values_trimmed(s: Seq<char>)
    ensures
        forall|k: int|
            0 <= k < spec_extract_fields(s).len() ==> trim_ws(
                (#[trigger] spec_extract_fields(s)[k]).2,
            ) == spec_extract_fields(s)[k].2,
    decreases s.len(),
{
    if s.len() > 0 {
        let p = s.drop_last();
        law_field_values_trimmed(p);
        let st = scan_state(p);
        let c = s.last();
        assert forall|k: int|
            0 <= k < spec_extract_fields(s).len() implies trim_ws(
                (#[trigger] spec_extract_fields(s)[k]).2,
            ) == spec_extract_fields(s)[k].2 by {
            if k < st.1.len() {
                assert(spec_extract_fields(s)[k] == st.1[k]);
                assert(spec_extract_fields(p)[k] == st.1[k]);
            } else {
                let f = st.0.last();
                assert(spec_extract_fields(s)[k] == field_of(f));
                lemma_trim_idempotent(f.1, ws_pred());
            }
        }
    }
}


// ---------------------------------------------------------------------------
// Markdown

/// Neither a control character Word leaves in text nor a field marker.
pub open spec fn is_plain(c: char) -> bool {
    !is_doc_control(c) && !is_field_mark(c)
}

/// Every character of `s` is plain.
pub open spec fn all_plain(s: Seq<char>) -> bool {
    forall|i: int| 0 <= i < s.len() ==> is_plain(#[trigger] s[i])
}

proof fn lemma_drop_controls_plain(s: Seq<char>)
    requires
        forall|i: int| 0 <= i < s.len() ==> !is_field_mark(#[trigger] s[i]),
    ensures
        all_plain(drop_controls(s)),
    decreases s.len(),
{
    if s.len() > 0 {
        let p = s.drop_last();
        assert forall|i: int| 0 <= i < p.len() implies !is_field_mark(#[trigger] p[i]) by {
            assert(p[i] == s[i]);
        }
        lemma_drop_controls_plain(p);
        let d = drop_controls(s);
        let dp = drop_controls(p);
        assert forall|i: int| 0 <= i < d.len() implies is_plain(#[trigger] d[i]) by {
            if i < dp.len() {
                assert(d[i] == dp[i]);
            } else {
                assert(d[i] == s.last());
            }
        }
    }
}

proof fn lemma_clean_text_plain(s: Seq<char>)
    ensures
        all_plain(spec_clean_text(s, true)),
{
    law_strip_removes_markers(s);
    lemma_drop_controls_plain(spec_strip_field_codes(s));
    lemma_trim_keeps_property(
        drop_controls(spec_strip_field_codes(s)),
        ws_pred(),
        |c: char| is_plain(c),
    );
}

proof fn lemma_concat_plain(a: Seq<char>, b: Seq<char>)
    requires
        all_plain(a),
        all_plain(b),
    ensures
        all_plain(a + b),
{
    assert forall|i: int| 0 <= i < (a + b).len() implies is_plain(#[trigger] (a + b)[i]) by {
        if i < a.len() {
            assert((a + b)[i] == a[i]);
        } else {
            assert((a + b)[i] == b[i - a.len()]);
        }
    }
}

proof fn lemma_literals_plain()
    ensures
        all_plain("\n\n"@),
        all_plain("---\n\n"@),
{
    reveal_strlit("\n\n");
    reveal_strlit("---\n\n");
}

proof fn lemma_paragraph_plain(
    chars: Seq<char>,
    start: int,
    end: int,
    headings: Map<u32, u8>,
)
    ensures
        all_plain(paragraph_out(chars, start, end, headings, true)),
        paragraph_out(chars, start, end, headings, true).len() == 0 || ends_blank(
            paragraph_out(chars, start, end, headings, true),
        ),
{
    let t = spec_clean_text(chars.subrange(start, end), true);
    lemma_clean_text_plain(chars.subrange(start, end));
    lemma_literals_plain();
    reveal_strlit("\n\n");
    if t.len() > 0 {
        let h = heading_prefix(headings, start as u32);
        assert(all_plain(h)) by {
            if headings.contains_key(start as u32) {
                let hs = hashes(headings[start as u32] as nat);
                assert(all_plain(hs));
                assert(all_plain(seq![' ']));
                lemma_concat_plain(hs, seq![' ']);
            }
        }
        lemma_concat_plain(h, t);
        lemma_concat_plain(h + t, "\n\n"@);
    }
}

/// The text ends with a blank line.
pub open spec fn ends_blank(s: Seq<char>) -> bool {
    s.len() >= 2 && s[s.len() - 2] == '\n' && s[s.len() - 1] == '\n'
}

proof fn lemma_append_blank(a: Seq<char>, b: Seq<char>)
    requires
        a.len() == 0 || ends_blank(a),
        b.len() == 0 || ends_blank(b),
    ensures
        (a + b).len() == 0 || ends_blank(a + b),
{
    if b.len() > 0 {
        assert((a + b)[(a + b).len() - 1] == b[b.len() - 1]);
        assert((a + b)[(a + b).len() - 2] == b[b.len() - 2]);
    } else {
        assert(a + b =~= a);
    }
}

proof fn lemma_render_state(chars: Seq<char>, headings: Map<u32, u8>, i: nat)
    requires
        i <= chars.len(),
    ensures
        all_plain(render_state(chars, headings, true, i).0),
        render_state(chars, headings, true, i).0.len() == 0 || ends_blank(
            render_state(chars, headings, true, i).0,
        ),
        0 <= render_state(chars, headings, true, i).1 <= i,
    decreases i,
{
    if i > 0 {
        lemma_render_state(chars, headings, (i - 1) as nat);
        let (out, start) = render_state(chars, headings, true, (i - 1) as nat);
        let c = chars[i - 1];
        lemma_literals_plain();
        reveal_strlit("---\n\n");
        if c == '\r' {
            lemma_paragraph_plain(chars, start, i - 1, headings);
            let para = paragraph_out(chars, start, i - 1, headings, true);
            lemma_concat_plain(out, para);
            lemma_append_blank(out, para);
        } else if c == '\u{c}' {
            lemma_paragraph_plain(chars, start, i - 1, headings);
            let para = paragraph_out(chars, start, i - 1, headings, true);
            lemma_concat_plain(out, para);
            lemma_concat_plain(out + para, "---\n\n"@);
            lemma_append_blank(out, para);
            lemma_append_blank(out + para, "---\n\n"@);
        }
    }
}

/// The body text ends with a blank line, unless it is empty: every
/// paragraph and page break is followed by one.
pub proof fn law_body_ends_with_blank_line(chars: Seq<char>, headings: Map<u32, u8>)
    ensures
        spec_render_paragraphs(chars, headings, true).len() == 0 || ends_blank(
            spec_render_paragraphs(chars, headings, true),
        ),
        all_plain(spec_render_paragraphs(chars, headings, true)),
{
    lemma_render_state(chars, headings, chars.len());
    let (out, start) = render_state(chars, headings, true, chars.len());
    if start < chars.len() {
        lemma_paragraph_plain(chars, start, chars.len() as int, headings);
        let para = paragraph_out(chars, start, chars.len() as int, headings, true);
        lemma_concat_plain(out, para);
        lemma_append_blank(out, para);
    }
}

proof fn lemma_box_state(s: Seq<char>)
    requires
        forall|i: int| 0 <= i < s.len() ==> !is_field_mark(#[trigger] s[i]),
    ensures
        all_plain(box_state(s).1),
        forall|k: int|
            0 <= k < box_state(s).0.len() ==> all_plain(#[trigger] box_state(s).0[k]) && (
            #[trigger] box_state(s).0[k]).len() > 0 && trim_ws(box_state(s).0[k])
                == box_state(s).0[k],
    decreases s.len(),
{
    if s.len() > 0 {
        let p = s.drop_last();
        assert forall|i: int| 0 <= i < p.len() implies !is_field_mark(#[trigger] p[i]) by {
            assert(p[i] == s[i]);
        }
        lemma_box_state(p);
        let (boxes, cur) = box_state(p);
        let c = s.last();
        if c == '\r' {
            lemma_close_box(boxes, cur);
        } else if !is_doc_control(c) {
            assert(all_plain(cur.push(c))) by {
                assert forall|i: int| 0 <= i < cur.push(c).len() implies is_plain(
                    #[trigger] cur.push(c)[i],
                ) by {
                    if i < cur.len() {
                        assert(cur.push(c)[i] == cur[i]);
                    }
                }
            }
        }
    }
}

proof fn lemma_close_box(boxes: Seq<Seq<char>>, cur: Seq<char>)
    requires
        all_plain(cur),
        forall|k: int|
            0 <= k < boxes.len() ==> all_plain(#[trigger] boxes[k]) && (#[trigger] boxes[k]).len()
                > 0 && trim_ws(boxes[k]) == boxes[k],
    ensures
        forall|k: int|
            0 <= k < close_box(boxes, cur).len() ==> all_plain(#[trigger] close_box(boxes, cur)[k])
                && (#[trigger] close_box(boxes, cur)[k]).len() > 0 && trim_ws(
                close_box(boxes, cur)[k],
            ) == close_box(boxes, cur)[k],
{
    lemma_trim_keeps_property(cur, ws_pred(), |c: char| is_plain(c));
    lemma_trim_idempotent(cur, ws_pred());
    let r = close_box(boxes, cur);
    assert forall|k: int| 0 <= k < r.len() implies all_plain(#[trigger] r[k]) && (
    #[trigger] r[k]).len() > 0 && trim_ws(r[k]) == r[k] by {
        if k < boxes.len() {
            assert(r[k] == boxes[k]);
        } else {
            assert(r[k] == trim_ws(cur));
        }
    }
}

/// The Markdown of a document, with field codes stripped, holds no control
/// character (`\x01`, `\x07`, `\x08`) and no field marker, in its body or
/// in its textboxes; and every textbox is non-empty and trimmed.
pub proof fn law_markdown_is_plain(
    chars: Seq<char>,
    ccp_text: u32,
    ccp_ftn: u32,
    ccp_hdd: u32,
    ccp_atn: u32,
    ccp_edn: u32,
    ccp_txbx: u32,
    headings: Map<u32, u8>,
)
    ensures
        ({
            let d = spec_generate_markdown(
                chars,
                ccp_text,
                ccp_ftn,
                ccp_hdd,
                ccp_atn,
                ccp_edn,
                ccp_txbx,
                headings,
                true,
            );
            &&& all_plain(d.0)
            &&& forall|k: int|
                0 <= k < d.1.len() ==> all_plain(#[trigger] d.1[k]) && (#[trigger] d.1[k]).len()
                    > 0 && trim_ws(d.1[k]) == d.1[k]
        }),
{
    let d = spec_generate_markdown(
        chars,
        ccp_text,
        ccp_ftn,
        ccp_hdd,
        ccp_atn,
        ccp_edn,
        ccp_txbx,
        headings,
        true,
    );
    let body = chars.take(crate::markdown::min_u32(ccp_text, chars.len() as u32) as int);
    law_body_ends_with_blank_line(body, headings);
    let total = chars.len() as u32;
    let start = crate::markdown::txbx_start(ccp_text, ccp_ftn, ccp_hdd, ccp_atn, ccp_edn);
    let end = crate::markdown::min_u32((start + ccp_txbx) as u32, total) as int;
    if start < end {
        let region = spec_strip_field_codes(chars.subrange(start, end));
        law_strip_removes_markers(chars.subrange(start, end));
        lemma_box_state(region);
        lemma_close_box(box_state(region).0, box_state(region).1);
    }
}

/// No character of `s` is a field marker.
pub open spec fn no_field_marks(s: Seq<char>) -> bool {
    forall|i: int| 0 <= i < s.len() ==> !is_field_mark(#[trigger] s[i])
}

proof fn lemma_sub_no_marks(s: Seq<char>, start: int, end: int)
    requires
        0 <= start <= end <= s.len(),
        no_field_marks(s),
    ensures
        no_field_marks(s.subrange(start, end)),
        spec_strip_field_codes(s.subrange(start, end)) == s.subrange(start, end),
{
    let sub = s.subrange(start, end);
    assert forall|i: int| 0 <= i < sub.len() implies !is_field_mark(#[trigger] sub[i]) by {
        assert(sub[i] == s[start + i]);
    }
    law_strip_identity_without_fields(sub);
}

proof fn lemma_render_state_unstripped(chars: Seq<char>, headings: Map<u32, u8>, i: nat)
    requires
        i <= chars.len(),
        no_field_marks(chars),
    ensures
        render_state(chars, headings, true, i) == render_state(chars, headings, false, i),
        0 <= render_state(chars, headings, true, i).1 <= i,
    decreases i,
{
    if i > 0 {
        lemma_render_state_unstripped(chars, headings, (i - 1) as nat);
        let start = render_state(chars, headings, true, (i - 1) as nat).1;
        lemma_sub_no_marks(chars, start, i - 1);
    }
}

/// Stripping only ever removes field codes: on a character stream without
/// field markers, the document is the same whether they are stripped or
/// not. The fields found never depend on stripping.
pub proof fn law_stripping_needs_field_marks(
    chars: Seq<char>,
    ccp_text: u32,
    ccp_ftn: u32,
    ccp_hdd: u32,
    ccp_atn: u32,
    ccp_edn: u32,
    ccp_txbx: u32,
    headings: Map<u32, u8>,
)
    ensures
        spec_generate_markdown(
            chars,
            ccp_text,
            ccp_ftn,
            ccp_hdd,
            ccp_atn,
            ccp_edn,
            ccp_txbx,
            headings,
            true,
        ).2 == spec_generate_markdown(
            chars,
            ccp_text,
            ccp_ftn,
            ccp_hdd,
            ccp_atn,
            ccp_edn,
            ccp_txbx,
            headings,
            false,
        ).2,
        no_field_marks(chars) ==> spec_generate_markdown(
            chars,
            ccp_text,
            ccp_ftn,
            ccp_hdd,
            ccp_atn,
            ccp_edn,
            ccp_txbx,
            headings,
            true,
        ) == spec_generate_markdown(
            chars,
            ccp_text,
            ccp_ftn,
            ccp_hdd,
            ccp_atn,
            ccp_edn,
            ccp_txbx,
            headings,
            false,
        ),
{
    if no_field_marks(chars) {
        let n = crate::markdown::min_u32(ccp_text, chars.len() as u32) as int;
        let body = chars.take(n);
        lemma_sub_no_marks(chars, 0, n);
        assert(body == chars.subrange(0, n));
        lemma_render_state_unstripped(body, headings, body.len());
        let start = render_state(body, headings, true, body.len()).1;
        if start < body.len() {
            lemma_sub_no_marks(body, start, body.len() as int);
        }
        let total = chars.len() as u32;
        let ts = crate::markdown::txbx_start(ccp_text, ccp_ftn, ccp_hdd, ccp_atn, ccp_edn);
        let te = crate::markdown::min_u32((ts + ccp_txbx) as u32, total) as int;
        if ts < te {
            lemma_sub_no_marks(chars, ts, te);
        }
    }
}


// ---------------------------------------------------------------------------
// Headings

/// Every level in the map is a heading level, 1 to 9.
pub open spec fn levels_in_range<K>(m: Map<K, u8>) -> bool {
    forall|k: K| #[trigger] m.contains_key(k) ==> 1 <= m[k] <= 9
}

proof fn lemma_stsh_walk_levels(stsh: Seq<u8>, pos: int, istd: int, m: Map<u16, u8>)
    requires
        levels_in_range(m),
    ensures
        levels_in_range(stsh_walk(stsh, pos, istd, m).0),
    decreases stsh.len() - pos,
{
    if pos < 0 || pos + 2 > stsh.len() {
    } else {
        let cb = le16(stsh, pos) as int;
        let p2 = pos + 2;
        if cb == 0 {
            lemma_stsh_walk_levels(stsh, p2, istd + 1, m);
        } else if p2 + cb > stsh.len() {
        } else if cb < 4 {
            lemma_stsh_walk_levels(stsh, p2 + cb, istd + 1, m);
        } else {
            let sti = le16(stsh, p2) & 0x0FFFu16;
            let m2 = match heading_level(sti) {
                Some(level) => m.insert(istd as u16, level),
                None => m,
            };
            assert(levels_in_range(m2));
            lemma_stsh_walk_levels(stsh, p2 + cb, istd + 1, m2);
        }
    }
}

/// The style sheet maps style indices to heading levels 1 to 9 only.
pub proof fn law_style_levels_in_range(table: Seq<u8>, fc_stshf: u32, lcb_stshf: u32)
    ensures
        spec_parse_stsh(table, fc_stshf, lcb_stshf) matches Some(Ok(m)) ==> levels_in_range(m),
{
    let start = fc_stshf as int;
    let end = start + lcb_stshf as int;
    if end <= table.len() {
        let stsh = table.subrange(start, end);
        if stsh.len() >= 2 {
            lemma_stsh_walk_levels(stsh, 2 + le16(stsh, 0) as int, 0, Map::empty());
        }
    }
}

proof fn lemma_insert_piece_cps_levels(
    m: Map<u32, u8>,
    pieces: Seq<PieceView>,
    ps_fc: u32,
    level: u8,
    k: nat,
)
    requires
        levels_in_range(m),
        1 <= level <= 9,
    ensures
        levels_in_range(insert_piece_cps(m, pieces, ps_fc, level, k)),
    decreases k,
{
    if k > 0 {
        lemma_insert_piece_cps_levels(m, pieces, ps_fc, level, (k - 1) as nat);
    }
}

/// Heading levels placed on the character stream are levels of the heading
/// styles: when those are 1 to 9, so are these.
pub proof fn law_heading_map_levels(
    pieces: Seq<PieceView>,
    styles: Seq<ParagraphStyle>,
    headings: Map<u16, u8>,
    k: nat,
)
    requires
        levels_in_range(headings),
    ensures
        levels_in_range(spec_heading_map(pieces, styles, headings, k)),
    decreases k,
{
    if k > 0 {
        law_heading_map_levels(pieces, styles, headings, (k - 1) as nat);
        let m = spec_heading_map(pieces, styles, headings, (k - 1) as nat);
        let ps = styles[k - 1];
        if headings.contains_key(ps.istd) {
            lemma_insert_piece_cps_levels(m, pieces, ps.fc_start, headings[ps.istd], pieces.len());
        }
    }
}

// ---------------------------------------------------------------------------
// Paragraph runs

/// The runs are in order of their first FC.
pub open spec fn sorted_by_fc(s: Seq<ParagraphStyle>) -> bool {
    forall|i: int, j: int| 0 <= i < j < s.len() ==> s[i].fc_start <= s[j].fc_start
}

proof fn lemma_insert_pos(s: Seq<ParagraphStyle>, x: ParagraphStyle, j: int)
    requires
        0 <= j <= s.len(),
    ensures
        j <= style_insert_pos(s, x, j) <= s.len(),
        forall|i: int| j <= i < style_insert_pos(s, x, j) ==> s[i].fc_start <= x.fc_start,
        style_insert_pos(s, x, j) < s.len() ==> s[style_insert_pos(s, x, j)].fc_start
            > x.fc_start,
    decreases s.len() - j,
{
    if j < s.len() && s[j].fc_start <= x.fc_start {
        lemma_insert_pos(s, x, j + 1);
    }
}

/// Sorting the runs orders them by their first FC and keeps their number.
pub proof fn law_sort_styles_sorted(s: Seq<ParagraphStyle>)
    ensures
        sorted_by_fc(sort_styles(s)),
        sort_styles(s).len() == s.len(),
    decreases s.len(),
{
    if s.len() > 0 {
        let r = sort_styles(s.drop_last());
        law_sort_styles_sorted(s.drop_last());
        let x = s.last();
        lemma_insert_pos(r, x, 0);
        let pos = style_insert_pos(r, x, 0);
        let t = r.insert(pos, x);
        assert forall|i: int, j: int| 0 <= i < j < t.len() implies t[i].fc_start
            <= t[j].fc_start by {
            if j < pos {
                assert(t[i] == r[i] && t[j] == r[j]);
            } else if j == pos {
                assert(t[j] == x && t[i] == r[i]);
            } else if i < pos {
                assert(t[i] == r[i] && t[j] == r[j - 1]);
                assert(r[pos].fc_start > x.fc_start);
                assert(r[i].fc_start <= x.fc_start);
            } else if i == pos {
                assert(t[i] == x && t[j] == r[j - 1]);
                assert(r[pos].fc_start > x.fc_start);
                assert(r[pos].fc_start <= r[j - 1].fc_start);
            } else {
                assert(t[i] == r[i - 1] && t[j] == r[j - 1]);
            }
        }
    }
}

/// The paragraph runs come out ordered by their first FC.
pub proof fn law_paragraph_runs_sorted(table: Seq<u8>, wd: Seq<u8>, fc_plcf: u32, lcb_plcf: u32)
    ensures
        spec_parse_papx(table, wd, fc_plcf, lcb_plcf) matches Some(Ok(runs)) ==> sorted_by_fc(
            runs,
        ),
{
    let start = fc_plcf as int;
    let end = start + lcb_plcf as int;
    if end <= table.len() && lcb_plcf >= 4 {
        let plcf = table.subrange(start, end);
        let n = (lcb_plcf as int - 4) / 8;
        law_sort_styles_sorted(crate::papx::papx_runs(plcf, wd, n, n as nat));
    }
}

// ---------------------------------------------------------------------------
// The container

/// A stream read from the container is never longer than its directory
/// entry says (the last sector is cut to the size).
pub proof fn law_stream_within_size(m: CfbModel, e: RawEntryView)
    requires
        e.size < u64::MAX,
    ensures
        spec_read_entry(m, e).len() <= e.size,
{
}

/// Every name matches itself.
pub proof fn law_name_matches_reflexive(a: Seq<char>)
    ensures
        spec_name_matches(a, a),
{
}

/// Name matching does not depend on which name is the entry's.
pub proof fn law_name_matches_symmetric(a: Seq<char>, b: Seq<char>)
    ensures
        spec_name_matches(a, b) == spec_name_matches(b, a),
{
}

// ---------------------------------------------------------------------------
// Inspection

/// The two streams have the same FIB header bytes: both too short to hold
/// one, or both long enough and equal in their first 12 bytes.
pub open spec fn same_header_bytes(w1: Seq<u8>, w2: Seq<u8>) -> bool {
    (w1.len() < 12 && w2.len() < 12) || (w1.len() >= 12 && w2.len() >= 12 && w1.take(12)
        == w2.take(12))
}

/// Inspecting reads no document text: what the report says of a
/// `WordDocument` stream, its FIB header and the notes on it, depends on
/// its first 12 bytes alone.
pub proof fn law_inspection_sees_only_the_fib_header(d: Seq<u8>, w1: Seq<u8>, w2: Seq<u8>)
    requires
        same_header_bytes(w1, w2),
    ensures
        spec_fib_header(w1) == spec_fib_header(w2),
        fib_notes(d, Some(w1)) == fib_notes(d, Some(w2)),
{
    if w1.len() >= 12 {
        assert forall|i: int| 0 <= i < 12 implies w1[i] == w2[i] by {
            assert(w1.take(12)[i] == w1[i]);
            assert(w2.take(12)[i] == w2[i]);
        }
    }
}

/// Inspecting and converting see the same container: the one opens where
/// the other does, the FIB header inspected is that of the `WordDocument`
/// stream a conversion reads, and an encrypted document is noted as such.
pub proof fn law_inspection_agrees_with_reading(d: Seq<u8>)
    ensures
        (spec_inspect(d) is Err) <==> (spec_read_ole_streams(d) == Err::<
            (Seq<u8>, Seq<u8>),
            DocErrorView,
        >(DocErrorView::OpenFailed)),
        match (spec_read_ole_streams(d), spec_inspect(d)) {
            (Ok(streams), Ok(v)) => v.fib == spec_fib_header(streams.0),
            (Err(DocErrorView::Encrypted), Ok(v)) => v.notes.contains(
                "the document is encrypted (fEncrypted)"@,
            ),
            _ => true,
        },
{
    if let (Err(DocErrorView::Encrypted), Ok(v)) = (spec_read_ole_streams(d), spec_inspect(d)) {
        let wd = spec_container_read(d, "WordDocument"@).0;
        let damaged = if spec_cfb_walk(d) is None {
            seq!["the container header is damaged; it was read with the fallback reader"@]
        } else {
            seq![]
        };
        let notes = fib_notes(d, wd);
        assert(notes[0] == "the document is encrypted (fEncrypted)"@);
        assert(v.notes[damaged.len() as int] == notes[0]);
    }
}

/// A conversion reads the table stream the FIB names when the container
/// holds it, and the other table stream only when it does not; and the
/// `WordDocument` stream it reads always holds a FIB header.
pub proof fn law_table_stream_follows_the_fib(d: Seq<u8>)
    ensures
        match spec_read_ole_streams(d) {
            Ok(streams) => match spec_fib_header(streams.0) {
                Some(fib) => match spec_container_read(d, spec_table_name(fib)).0 {
                    Some(preferred) => streams.1 == preferred,
                    None => spec_container_read(d, spec_other_table_name(fib)).0 == Some(
                        streams.1,
                    ),
                },
                None => false,
            },
            Err(_) => true,
        },
{
}

// ---------------------------------------------------------------------------
// What stripping and cleaning keep

/// `r` is a subsequence of `s`: its characters stand in `s`, in the same
/// order, at the increasing positions `idx`.
pub open spec fn subsequence_at(r: Seq<char>, s: Seq<char>, idx: Seq<int>) -> bool {
    &&& idx.len() == r.len()
    &&& forall|k: int| 0 <= k < r.len() ==> 0 <= #[trigger] idx[k] < s.len() && r[k] == s[idx[k]]
    &&& forall|j: int, k: int| 0 <= j < k < r.len() ==> #[trigger] idx[j] < #[trigger] idx[k]
}

/// `r` is a subsequence of `s`.
pub open spec fn is_subsequence(r: Seq<char>, s: Seq<char>) -> bool {
    exists|idx: Seq<int>| subsequence_at(r, s, idx)
}

proof fn lemma_subsequence_step(r: Seq<char>, s: Seq<char>, idx: Seq<int>, keep: bool)
    requires
        s.len() > 0,
        subsequence_at(r, s.drop_last(), idx),
    ensures
        keep ==> subsequence_at(r.push(s.last()), s, idx.push(s.len() - 1)),
        !keep ==> subsequence_at(r, s, idx),
{
    let r2 = r.push(s.last());
    let i2 = idx.push(s.len() - 1);
    assert forall|k: int| 0 <= k < r.len() implies 0 <= #[trigger] idx[k] < s.len() && r[k]
        == s[idx[k]] by {
        assert(s.drop_last()[idx[k]] == s[idx[k]]);
    }
    if keep {
        assert forall|k: int| 0 <= k < r2.len() implies 0 <= #[trigger] i2[k] < s.len() && r2[k]
            == s[i2[k]] by {
            if k < r.len() {
                assert(i2[k] == idx[k]);
                assert(s.drop_last()[idx[k]] == s[idx[k]]);
            }
        }
        assert forall|j: int, k: int| 0 <= j < k < r2.len() implies #[trigger] i2[j]
            < #[trigger] i2[k] by {
            if k < r.len() {
                assert(i2[j] == idx[j] && i2[k] == idx[k]);
            } else {
                assert(i2[j] == idx[j]);
            }
        }
    }
}

proof fn lemma_strip_subsequence(s: Seq<char>) -> (idx: Seq<int>)
    ensures
        subsequence_at(spec_strip_field_codes(s), s, idx),
    decreases s.len(),
{
    if s.len() == 0 {
        seq![]
    } else {
        let idx = lemma_strip_subsequence(s.drop_last());
        let keep = strip_keeps(strip_state(s.drop_last()), s.last());
        lemma_subsequence_step(spec_strip_field_codes(s.drop_last()), s, idx, keep);
        if keep {
            idx.push(s.len() - 1)
        } else {
            idx
        }
    }
}

/// Stripping field codes only removes characters: what is left stands in
/// the text, in the same order.
pub proof fn law_strip_is_subsequence(s: Seq<char>)
    ensures
        is_subsequence(spec_strip_field_codes(s), s),
{
    let idx = lemma_strip_subsequence(s);
}

proof fn lemma_drop_controls_subsequence(s: Seq<char>) -> (idx: Seq<int>)
    ensures
        subsequence_at(drop_controls(s), s, idx),
    decreases s.len(),
{
    if s.len() == 0 {
        seq![]
    } else {
        let idx = lemma_drop_controls_subsequence(s.drop_last());
        let keep = !is_doc_control(s.last());
        lemma_subsequence_step(drop_controls(s.drop_last()), s, idx, keep);
        if keep {
            idx.push(s.len() - 1)
        } else {
            idx
        }
    }
}

/// Every character of `s` satisfies `q`.
pub open spec fn all_sat(s: Seq<char>, q: spec_fn(char) -> bool) -> bool {
    forall|i: int| 0 <= i < s.len() ==> q(#[trigger] s[i])
}

proof fn lemma_subsequence_sat(r: Seq<char>, s: Seq<char>, idx: Seq<int>, q: spec_fn(char) -> bool)
    requires
        subsequence_at(r, s, idx),
        all_sat(s, q),
    ensures
        all_sat(r, q),
{
    assert forall|k: int| 0 <= k < r.len() implies q(#[trigger] r[k]) by {
        assert(r[k] == s[idx[k]]);
    }
}

proof fn lemma_concat_sat(a: Seq<char>, b: Seq<char>, q: spec_fn(char) -> bool)
    requires
        all_sat(a, q),
        all_sat(b, q),
    ensures
        all_sat(a + b, q),
{
    assert forall|i: int| 0 <= i < (a + b).len() implies q(#[trigger] (a + b)[i]) by {
        if i < a.len() {
            assert((a + b)[i] == a[i]);
        } else {
            assert((a + b)[i] == b[i - a.len()]);
        }
    }
}

/// A paragraph's cleaned text keeps only characters of the paragraph.
proof fn lemma_clean_text_sat(s: Seq<char>, strip_fields: bool, q: spec_fn(char) -> bool)
    requires
        all_sat(s, q),
    ensures
        all_sat(spec_clean_text(s, strip_fields), q),
{
    let stripped = if strip_fields {
        spec_strip_field_codes(s)
    } else {
        s
    };
    if strip_fields {
        let idx = lemma_strip_subsequence(s);
        lemma_subsequence_sat(stripped, s, idx, q);
    }
    let idx2 = lemma_drop_controls_subsequence(stripped);
    lemma_subsequence_sat(drop_controls(stripped), stripped, idx2, q);
    lemma_trim_keeps_property(drop_controls(stripped), ws_pred(), q);
}

// ---------------------------------------------------------------------------
// Paragraph and page breaks

/// Neither a paragraph mark nor a page break.
pub open spec fn not_break(c: char) -> bool {
    c != '\r' && c != '\u{c}'
}

/// Not a paragraph mark.
pub open spec fn not_para_mark(c: char) -> bool {
    c != '\r'
}

proof fn lemma_paragraph_no_breaks(
    chars: Seq<char>,
    start: int,
    end: int,
    headings: Map<u32, u8>,
    strip_fields: bool,
)
    requires
        0 <= start <= end <= chars.len(),
        forall|j: int| start <= j < end ==> not_break(#[trigger] chars[j]),
    ensures
        all_sat(paragraph_out(chars, start, end, headings, strip_fields), |c: char| not_break(c)),
{
    let q = |c: char| not_break(c);
    let sub = chars.subrange(start, end);
    assert forall|i: int| 0 <= i < sub.len() implies q(#[trigger] sub[i]) by {
        assert(sub[i] == chars[start + i]);
    }
    lemma_clean_text_sat(sub, strip_fields, q);
    let t = spec_clean_text(sub, strip_fields);
    if t.len() > 0 {
        let h = heading_prefix(headings, start as u32);
        assert(all_sat(h, q)) by {
            if headings.contains_key(start as u32) {
                let hs = hashes(headings[start as u32] as nat);
                assert(all_sat(hs, q));
                assert(all_sat(seq![' '], q));
                lemma_concat_sat(hs, seq![' '], q);
            }
        }
        reveal_strlit("\n\n");
        assert(all_sat("\n\n"@, q));
        lemma_concat_sat(h, t, q);
        lemma_concat_sat(h + t, "\n\n"@, q);
    }
}

proof fn lemma_render_state_no_breaks(
    chars: Seq<char>,
    headings: Map<u32, u8>,
    strip_fields: bool,
    i: nat,
)
    requires
        i <= chars.len(),
    ensures
        all_sat(render_state(chars, headings, strip_fields, i).0, |c: char| not_break(c)),
        0 <= render_state(chars, headings, strip_fields, i).1 <= i,
        forall|j: int|
            render_state(chars, headings, strip_fields, i).1 <= j < i ==> not_break(
                #[trigger] chars[j],
            ),
    decreases i,
{
    if i > 0 {
        let q = |c: char| not_break(c);
        lemma_render_state_no_breaks(chars, headings, strip_fields, (i - 1) as nat);
        let (out, start) = render_state(chars, headings, strip_fields, (i - 1) as nat);
        let c = chars[i - 1];
        if c == '\r' || c == '\u{c}' {
            lemma_paragraph_no_breaks(chars, start, i - 1, headings, strip_fields);
            let para = paragraph_out(chars, start, i - 1, headings, strip_fields);
            lemma_concat_sat(out, para, q);
            if c == '\u{c}' {
                reveal_strlit("---\n\n");
                assert(all_sat("---\n\n"@, q));
                lemma_concat_sat(out + para, "---\n\n"@, q);
            }
        }
    }
}

proof fn lemma_box_state_no_marks(s: Seq<char>)
    ensures
        all_sat(box_state(s).1, |c: char| not_para_mark(c)),
        forall|k: int|
            0 <= k < box_state(s).0.len() ==> all_sat(
                #[trigger] box_state(s).0[k],
                |c: char| not_para_mark(c),
            ),
    decreases s.len(),
{
    if s.len() > 0 {
        let q = |c: char| not_para_mark(c);
        lemma_box_state_no_marks(s.drop_last());
        let (boxes, cur) = box_state(s.drop_last());
        let c = s.last();
        if c == '\r' {
            lemma_trim_keeps_property(cur, ws_pred(), q);
            let r = close_box(boxes, cur);
            assert forall|k: int| 0 <= k < r.len() implies all_sat(#[trigger] r[k], q) by {
                if k < boxes.len() {
                    assert(r[k] == boxes[k]);
                }
            }
        } else if !is_doc_control(c) {
            assert(all_sat(cur.push(c), q)) by {
                assert forall|i: int| 0 <= i < cur.push(c).len() implies q(
                    #[trigger] cur.push(c)[i],
                ) by {
                    if i < cur.len() {
                        assert(cur.push(c)[i] == cur[i]);
                    }
                }
            }
        }
    }
}

/// The Markdown body holds no paragraph mark and no page break: every one
/// has become a blank line or `---`. No textbox holds a paragraph mark.
pub proof fn law_markdown_has_no_breaks(
    chars: Seq<char>,
    ccp_text: u32,
    ccp_ftn: u32,
    ccp_hdd: u32,
    ccp_atn: u32,
    ccp_edn: u32,
    ccp_txbx: u32,
    headings: Map<u32, u8>,
    strip_fields: bool,
)
    ensures
        ({
            let d = spec_generate_markdown(
                chars,
                ccp_text,
                ccp_ftn,
                ccp_hdd,
                ccp_atn,
                ccp_edn,
                ccp_txbx,
                headings,
                strip_fields,
            );
            &&& forall|i: int| 0 <= i < d.0.len() ==> not_break(#[trigger] d.0[i])
            &&& forall|k: int, i: int|
                0 <= k < d.1.len() && 0 <= i < d.1[k].len() ==> #[trigger] d.1[k][i] != '\r'
        }),
{
    let q = |c: char| not_break(c);
    let body = chars.take(crate::markdown::min_u32(ccp_text, chars.len() as u32) as int);
    lemma_render_state_no_breaks(body, headings, strip_fields, body.len());
    let (out, start) = render_state(body, headings, strip_fields, body.len());
    if start < body.len() {
        lemma_paragraph_no_breaks(body, start, body.len() as int, headings, strip_fields);
        lemma_concat_sat(
            out,
            paragraph_out(body, start, body.len() as int, headings, strip_fields),
            q,
        );
    }
    let d = spec_generate_markdown(
        chars,
        ccp_text,
        ccp_ftn,
        ccp_hdd,
        ccp_atn,
        ccp_edn,
        ccp_txbx,
        headings,
        strip_fields,
    );
    assert(all_sat(d.0, q));
    let total = chars.len() as u32;
    let ts = crate::markdown::txbx_start(ccp_text, ccp_ftn, ccp_hdd, ccp_atn, ccp_edn);
    let te = crate::markdown::min_u32((ts + ccp_txbx) as u32, total) as int;
    if ts < te {
        let region = chars.subrange(ts, te);
        let r = if strip_fields {
            spec_strip_field_codes(region)
        } else {
            region
        };
        lemma_box_state_no_marks(r);
        let p = |c: char| not_para_mark(c);
        let boxes = box_state(r).0;
        let cur = box_state(r).1;
        lemma_trim_keeps_property(cur, ws_pred(), p);
        let all = close_box(boxes, cur);
        assert forall|k: int| 0 <= k < all.len() implies all_sat(#[trigger] all[k], p) by {
            if k < boxes.len() {
                assert(all[k] == boxes[k]);
            }
        }
        assert forall|k: int, i: int|
            0 <= k < d.1.len() && 0 <= i < d.1[k].len() implies #[trigger] d.1[k][i] != '\r' by {
            assert(all_sat(all[k], p));
            assert(p(all[k][i]));
        }
    }
}

// ---------------------------------------------------------------------------
// The fallback reader's directory

/// The 128-byte chunks of a directory, in order.
pub open spec fn dir_chunks(dir: Seq<u8>) -> Seq<Seq<u8>> {
    Seq::new(dir.len() / 128, |k: int| dir.subrange(128 * k, 128 * k + 128))
}

/// A directory chunk whose object type is "stream".
pub open spec fn is_stream_chunk(c: Seq<u8>) -> bool {
    c[66] == obj_stream()
}

/// A stream chunk as listed: its UTF-16 name, decoded lossily, and its size.
pub open spec fn chunk_listing(c: Seq<u8>, allow_64bit_size: bool) -> (Seq<char>, u64) {
    (spec_utf16_lossy(name_units(c)), entry_size(c, allow_64bit_size))
}

/// The stream chunks of a directory, as listed.
pub open spec fn directory_listing(dir: Seq<u8>, allow_64bit_size: bool) -> ListingView {
    dir_chunks(dir).filter(|c: Seq<u8>| is_stream_chunk(c)).map_values(
        |c: Seq<u8>| chunk_listing(c, allow_64bit_size),
    )
}

proof fn lemma_dir_listing_prefix(dir: Seq<u8>, a: bool, n: nat)
    requires
        n <= dir.len() / 128,
    ensures
        spec_stream_list(spec_dir_entries(dir, a, n)) == dir_chunks(dir).take(n as int).filter(
            |c: Seq<u8>| is_stream_chunk(c),
        ).map_values(|c: Seq<u8>| chunk_listing(c, a)),
    decreases n,
{
    reveal(Seq::filter);
    let p = |c: Seq<u8>| is_stream_chunk(c);
    let f = |c: Seq<u8>| chunk_listing(c, a);
    if n == 0 {
        assert(dir_chunks(dir).take(0) =~= Seq::<Seq<u8>>::empty());
        assert(dir_chunks(dir).take(0).filter(p) =~= Seq::<Seq<u8>>::empty());
        assert(dir_chunks(dir).take(0).filter(p).map_values(f) =~= seq![]);
    } else {
        lemma_dir_listing_prefix(dir, a, (n - 1) as nat);
        let prev = spec_dir_entries(dir, a, (n - 1) as nat);
        let chunk = dir.subrange(128 * (n - 1), 128 * n as int);
        let cs = dir_chunks(dir).take(n as int);
        assert(cs.drop_last() =~= dir_chunks(dir).take(n - 1));
        assert(cs.last() == chunk);
        let fp = dir_chunks(dir).take(n - 1).filter(p);
        match spec_parse_dir_entry(chunk, a) {
            Some(e) => {
                assert(prev.push(e).drop_last() =~= prev);
                if is_stream_chunk(chunk) {
                    assert(fp.push(chunk).map_values(f) =~= fp.map_values(f).push(f(chunk)));
                }
            },
            None => {},
        }
    }
}

/// The fallback reader lists the stream entries of the directory, the FAT
/// chain that starts at the sector the header names, in directory order:
/// each with its name decoded from UTF-16 and its size (with the high
/// dword in version 4 containers). Storages and the root are not listed.
pub proof fn law_stream_list_is_the_directory(d: Seq<u8>)
    ensures
        match spec_raw_parse(d) {
            Ok(m) => spec_stream_list(m.entries) == directory_listing(
                spec_fat_chain_bytes(d, m.sector_size, m.fat, le32_or_zero(d, 48), u64::MAX),
                le16_or_zero(d, 26) >= 4,
            ),
            Err(_) => true,
        },
{
    if let Ok(m) = spec_raw_parse(d) {
        let dir = spec_fat_chain_bytes(d, m.sector_size, m.fat, le32_or_zero(d, 48), u64::MAX);
        let n = (dir.len() / 128) as nat;
        lemma_dir_listing_prefix(dir, le16_or_zero(d, 26) >= 4, n);
        assert(dir_chunks(dir).take(n as int) =~= dir_chunks(dir));
    }
}

proof fn lemma_find_push(es: Seq<RawEntryView>, e: RawEntryView, name: Seq<char>, i: int)
    requires
        0 <= i <= es.len(),
    ensures
        spec_find_stream_from(es.push(e), name, i) == match spec_find_stream_from(es, name, i) {
            Some(j) => Some(j),
            None => if e.obj_type == obj_stream() && spec_name_matches(e.name, name) {
                Some(es.len() as int)
            } else {
                None::<int>
            },
        },
    decreases es.len() - i,
{
    let pe = es.push(e);
    if i < es.len() {
        assert(pe[i] == es[i]);
        lemma_find_push(es, e, name, i + 1);
    } else {
        assert(pe[i] == e);
        assert(spec_find_stream_from(pe, name, i + 1) is None);
        assert(spec_find_stream_from(es, name, i) is None);
    }
}

/// Where the first matching stream entry stands in the stream listing.
proof fn lemma_find_in_listing(es: Seq<RawEntryView>, name: Seq<char>) -> (k: int)
    ensures
        ({
            let l = spec_stream_list(es);
            match spec_find_stream_from(es, name, 0) {
                Some(i) => 0 <= i < es.len() && 0 <= k < l.len() && l[k] == (es[i].name, es[i].size)
                    && spec_name_matches(l[k].0, name) && forall|j: int|
                    0 <= j < k ==> !spec_name_matches(#[trigger] l[j].0, name),
                None => forall|j: int| 0 <= j < l.len() ==> !spec_name_matches(#[trigger] l[j].0, name),
            }
        }),
    decreases es.len(),
{
    if es.len() == 0 {
        0
    } else {
        let p = es.drop_last();
        let e = es.last();
        let kp = lemma_find_in_listing(p, name);
        assert(p.push(e) =~= es);
        lemma_find_push(p, e, name, 0);
        let lp = spec_stream_list(p);
        let l = spec_stream_list(es);
        if e.obj_type == obj_stream() {
            assert(l == lp.push((e.name, e.size)));
        } else {
            assert(l == lp);
        }
        assert forall|j: int| 0 <= j < lp.len() implies #[trigger] l[j] == lp[j] by {}
        match spec_find_stream_from(p, name, 0) {
            Some(i) => {
                assert(es[i] == p[i]);
                kp
            },
            None => lp.len() as int,
        }
    }
}

/// Reading by name finds a stream exactly when the listing holds one whose
/// name matches; it reads the first such stream in directory order,
/// wherever it sits in the tree, and no more bytes than its listed size.
pub proof fn law_read_by_name_reads_the_first_listed(m: CfbModel, name: Seq<char>)
    ensures
        ({
            let l = spec_stream_list(m.entries);
            &&& (spec_read_by_name(m, name) is Some) <==> (exists|k: int|
                0 <= k < l.len() && spec_name_matches(#[trigger] l[k].0, name))
            &&& match spec_read_by_name(m, name) {
                Some(b) => exists|k: int|
                    0 <= k < l.len() && spec_name_matches(#[trigger] l[k].0, name) && (forall|
                        j: int,
                    | 0 <= j < k ==> !spec_name_matches(#[trigger] l[j].0, name)) && (l[k].1
                        < u64::MAX ==> b.len() <= l[k].1),
                None => true,
            }
        }),
{
    let k = lemma_find_in_listing(m.entries, name);
    let l = spec_stream_list(m.entries);
    if let Some(i) = spec_find_stream_from(m.entries, name, 0) {
        let e = m.entries[i];
        if e.size < u64::MAX {
            law_stream_within_size(m, e);
        }
        assert(spec_name_matches(l[k].0, name));
    }
}

/// Every stream the fallback reader lists, it finds by its listed name.
pub proof fn law_every_listed_stream_is_found(m: CfbModel)
    ensures
        forall|k: int|
            0 <= k < spec_stream_list(m.entries).len() ==> spec_read_by_name(
                m,
                (#[trigger] spec_stream_list(m.entries)[k]).0,
            ) is Some,
{
    let l = spec_stream_list(m.entries);
    assert forall|k: int| 0 <= k < l.len() implies spec_read_by_name(
        m,
        (#[trigger] l[k]).0,
    ) is Some by {
        law_read_by_name_reads_the_first_listed(m, l[k].0);
        law_name_matches_reflexive(l[k].0);
        assert(spec_name_matches(l[k].0, l[k].0));
    }
}

// ---------------------------------------------------------------------------
// Which styles are headings

/// Where the `n`-th style record starts, counting from the record at `pos`:
/// a record is its 16-bit length and that many bytes.
pub open spec fn style_record_pos(stsh: Seq<u8>, pos: int, n: nat) -> int
    decreases n,
{
    if n == 0 {
        pos
    } else {
        let p = style_record_pos(stsh, pos, (n - 1) as nat);
        p + 2 + le16(stsh, p) as int
    }
}

/// The style record at `p` lies whole in the style sheet, is long enough to
/// hold an `sti`, and that `sti` is a heading (1 to 9, or Title, 62) of
/// level `level`.
pub open spec fn heading_record(stsh: Seq<u8>, p: int, level: u8) -> bool {
    &&& 0 <= p
    &&& p + 2 <= stsh.len()
    &&& le16(stsh, p) >= 4
    &&& p + 2 + le16(stsh, p) <= stsh.len()
    &&& heading_level(le16(stsh, p + 2) & 0x0FFFu16) == Some(level)
}

proof fn lemma_walk_keys(stsh: Seq<u8>, start: int, pos: int, istd: int, m: Map<u16, u8>)
    requires
        0 <= istd,
        pos == style_record_pos(stsh, start, istd as nat),
        stsh_walk(stsh, pos, istd, m).1 <= 65535,
        forall|k: u16|
            #[trigger] m.contains_key(k) ==> k < istd && heading_record(
                stsh,
                style_record_pos(stsh, start, k as nat),
                m[k],
            ),
    ensures
        forall|k: u16|
            #[trigger] stsh_walk(stsh, pos, istd, m).0.contains_key(k) ==> heading_record(
                stsh,
                style_record_pos(stsh, start, k as nat),
                stsh_walk(stsh, pos, istd, m).0[k],
            ),
    decreases stsh.len() - pos,
{
    if pos < 0 || pos + 2 > stsh.len() {
    } else {
        let cb = le16(stsh, pos) as int;
        let p2 = pos + 2;
        assert(style_record_pos(stsh, start, (istd + 1) as nat) == pos + 2 + cb);
        if cb == 0 {
            assert(stsh_walk(stsh, pos, istd, m) == stsh_walk(stsh, p2, istd + 1, m));
            lemma_walk_keys(stsh, start, p2, istd + 1, m);
        } else if p2 + cb > stsh.len() {
            assert(stsh_walk(stsh, pos, istd, m) == (m, istd));
        } else if cb < 4 {
            assert(stsh_walk(stsh, pos, istd, m) == stsh_walk(stsh, p2 + cb, istd + 1, m));
            lemma_walk_keys(stsh, start, p2 + cb, istd + 1, m);
        } else {
            let sti = le16(stsh, p2) & 0x0FFFu16;
            let m2 = match heading_level(sti) {
                Some(level) => m.insert(istd as u16, level),
                None => m,
            };
            lemma_walk_count_grows(stsh, p2 + cb, istd + 1, m2);
            assert(istd < 65535);
            assert((istd as u16) as int == istd);
            assert forall|k: u16| #[trigger] m2.contains_key(k) implies k < istd + 1
                && heading_record(stsh, style_record_pos(stsh, start, k as nat), m2[k]) by {
                if k as int == istd {
                    assert(k as nat == istd as nat);
                    assert(heading_level(sti) == Some(m2[k]));
                    assert(heading_record(stsh, pos, m2[k]));
                } else {
                    assert(m.contains_key(k));
                }
            }
            assert(stsh_walk(stsh, pos, istd, m) == stsh_walk(stsh, p2 + cb, istd + 1, m2));
            lemma_walk_keys(stsh, start, p2 + cb, istd + 1, m2);
        }
    }
}

/// The style sheet maps a style index only to the level of a heading
/// style: the record of that style lies whole in the style sheet and its
/// `sti` is Heading 1 to 9 (that level) or Title (level 1).
pub proof fn law_style_keys_are_headings(table: Seq<u8>, fc_stshf: u32, lcb_stshf: u32)
    ensures
        match spec_parse_stsh(table, fc_stshf, lcb_stshf) {
            Some(Ok(m)) => {
                let stsh = table.subrange(fc_stshf as int, fc_stshf + lcb_stshf);
                forall|k: u16|
                    #[trigger] m.contains_key(k) ==> heading_record(
                        stsh,
                        style_record_pos(stsh, 2 + le16(stsh, 0) as int, k as nat),
                        m[k],
                    )
            },
            _ => true,
        },
{
    if let Some(Ok(m)) = spec_parse_stsh(table, fc_stshf, lcb_stshf) {
        let stsh = table.subrange(fc_stshf as int, fc_stshf + lcb_stshf);
        let start = 2 + le16(stsh, 0) as int;
        lemma_walk_keys(stsh, start, start, 0, Map::empty());
    }
}

// ---------------------------------------------------------------------------
// Where the paragraph runs come from

/// `r` is run `j` of page `i` of a `PlcBtePapx` holding `n` page numbers:
/// the page lies wholly inside `WordDocument`, the run is one of the page's
/// `cpara` runs, and its BX offset is non-zero.
pub open spec fn run_of_page(
    plcf: Seq<u8>,
    wd: Seq<u8>,
    n: int,
    i: int,
    j: int,
    r: ParagraphStyle,
) -> bool {
    let pn = le32(plcf, (n + 1) * 4 + i * 4) as int;
    let page = wd.subrange(pn * 512, pn * 512 + 512);
    let cpara = page[511] as int;
    &&& 0 <= i < n
    &&& pn * 512 + 512 <= wd.len()
    &&& 0 <= j < cpara
    &&& page[(cpara + 1) * 4 + j * 13] != 0
    &&& papx_run(page, cpara, j) == Some(r)
}

proof fn lemma_page_run_origin(page: Seq<u8>, cpara: int, k: nat, m: int) -> (j: int)
    requires
        0 <= m < page_runs(page, cpara, k).len(),
    ensures
        0 <= j < k,
        papx_run(page, cpara, j) == Some(page_runs(page, cpara, k)[m]),
    decreases k,
{
    let prev = page_runs(page, cpara, (k - 1) as nat);
    if m < prev.len() {
        lemma_page_run_origin(page, cpara, (k - 1) as nat, m)
    } else {
        k - 1
    }
}

proof fn lemma_papx_run_origin(plcf: Seq<u8>, wd: Seq<u8>, n: int, k: nat, m: int) -> (ij: (
    int,
    int,
))
    requires
        k <= n,
        0 <= m < papx_runs(plcf, wd, n, k).len(),
    ensures
        run_of_page(plcf, wd, n, ij.0, ij.1, papx_runs(plcf, wd, n, k)[m]),
    decreases k,
{
    let prev = papx_runs(plcf, wd, n, (k - 1) as nat);
    let tail = match papx_page(plcf, wd, n, k - 1) {
        Some(page) => page_all_runs(page),
        None => seq![],
    };
    let cur = papx_runs(plcf, wd, n, k);
    assert(cur == prev + tail);
    if m < prev.len() {
        assert(cur[m] == prev[m]);
        lemma_papx_run_origin(plcf, wd, n, (k - 1) as nat, m)
    } else {
        let page = papx_page(plcf, wd, n, k - 1)->Some_0;
        let cpara = page[511] as int;
        assert(cur[m] == tail[m - prev.len()]);
        let j = lemma_page_run_origin(page, cpara, page[511] as nat, m - prev.len());
        assert(run_of_page(plcf, wd, n, k - 1, j, cur[m]));
        (k - 1, j)
    }
}

proof fn lemma_sort_element_origin(s: Seq<ParagraphStyle>, m: int) -> (t: int)
    requires
        0 <= m < sort_styles(s).len(),
    ensures
        0 <= t < s.len(),
        s[t] == sort_styles(s)[m],
    decreases s.len(),
{
    let p = s.drop_last();
    law_sort_styles_sorted(p);
    let r = sort_styles(p);
    let x = s.last();
    lemma_insert_pos(r, x, 0);
    let pos = style_insert_pos(r, x, 0);
    let res = sort_styles(s);
    assert(res == r.insert(pos, x));
    if m < pos {
        assert(res[m] == r[m]);
        let t = lemma_sort_element_origin(p, m);
        assert(s[t] == p[t]);
        t
    } else if m == pos {
        s.len() - 1
    } else {
        assert(res[m] == r[m - 1]);
        let t = lemma_sort_element_origin(p, m - 1);
        assert(s[t] == p[t]);
        t
    }
}

/// Every paragraph run comes from a 512-byte page that the `PlcBtePapx`
/// names and that lies wholly inside `WordDocument`, through a non-zero BX
/// offset (pages past the end of the stream contribute nothing): run `m`
/// of the result is run `ij.1` of page `ij.0`.
/// Run `j` of page `i`, read from the bytes: the page number is the
/// `i`-th 32-bit entry after the `n + 1` FCs of the `PlcBtePapx`; in the
/// 512-byte page, the run's FC range is its `j`-th and `j + 1`-th 32-bit
/// FC, and its style index stands in the `PapxInFkp` that the `j`-th
/// 13-byte BX points at (word offset `w`, non-zero): after `cb` when `cb`
/// is not zero, after `cb` and `cb'` when it is.
pub open spec fn run_from_bytes(
    plcf: Seq<u8>,
    wd: Seq<u8>,
    n: int,
    i: int,
    j: int,
    r: ParagraphStyle,
) -> bool {
    let pn = u32_bytes(plcf, 4 * (n + 1) + 4 * i);
    let page = wd.subrange(512 * pn, 512 * pn + 512);
    let cpara = page[511] as int;
    let w = page[4 * (cpara + 1) + 13 * j] as int;
    &&& w != 0
    &&& r.fc_start == u32_bytes(page, 4 * j)
    &&& r.fc_end == u32_bytes(page, 4 * j + 4)
    &&& r.istd == if page[2 * w] == 0 {
        u16_bytes(page, 2 * w + 2)
    } else {
        u16_bytes(page, 2 * w + 1)
    }
}

pub proof fn law_paragraph_runs_come_from_pages(
    table: Seq<u8>,
    wd: Seq<u8>,
    fc_plcf: u32,
    lcb_plcf: u32,
    m: int,
) -> (ij: (int, int))
    requires
        spec_parse_papx(table, wd, fc_plcf, lcb_plcf) matches Some(Ok(runs)) && 0 <= m
            < runs.len(),
    ensures
        match spec_parse_papx(table, wd, fc_plcf, lcb_plcf) {
            Some(Ok(runs)) => run_of_page(
                table.subrange(fc_plcf as int, fc_plcf + lcb_plcf),
                wd,
                (lcb_plcf as int - 4) / 8,
                ij.0,
                ij.1,
                runs[m],
            ) && run_from_bytes(
                table.subrange(fc_plcf as int, fc_plcf + lcb_plcf),
                wd,
                (lcb_plcf as int - 4) / 8,
                ij.0,
                ij.1,
                runs[m],
            ),
            _ => true,
        },
{
    let plcf = table.subrange(fc_plcf as int, fc_plcf + lcb_plcf);
    let n = (lcb_plcf as int - 4) / 8;
    let all = papx_runs(plcf, wd, n, n as nat);
    law_sort_styles_sorted(all);
    let t = lemma_sort_element_origin(all, m);
    let ij = lemma_papx_run_origin(plcf, wd, n, n as nat, t);
    let runs = sort_styles(all);
    let pn = le32(plcf, (n + 1) * 4 + ij.0 * 4) as int;
    assert(pn == u32_bytes(plcf, 4 * (n + 1) + 4 * ij.0));
    let page = wd.subrange(512 * pn, 512 * pn + 512);
    assert(page =~= wd.subrange(pn * 512, pn * 512 + 512));
    let j = ij.1;
    let r = runs[m];
    assert(papx_run(page, page[511] as int, j) == Some(r));
    assert(r.fc_start == u32_bytes(page, 4 * j));
    assert(r.fc_end == u32_bytes(page, 4 * j + 4));
    ij
}

// ---------------------------------------------------------------------------
// How many characters the pieces give

/// The number of characters a piece announces.
pub open spec fn piece_char_count(p: PieceView) -> int {
    p.cp_end as int - p.cp_start as int
}

/// The characters the first `k` pieces announce, together.
pub open spec fn total_char_count(pieces: Seq<PieceView>, k: nat) -> int
    decreases k,
{
    if k == 0 {
        0
    } else {
        total_char_count(pieces, (k - 1) as nat) + piece_char_count(pieces[k - 1])
    }
}

/// An 8-bit piece whose bytes open with no byte-order mark (always true of
/// a Unicode piece).
pub open spec fn piece_without_bom(wd: Seq<u8>, p: PieceView) -> bool {
    p.compressed ==> !starts_with_bom(
        wd.subrange((p.fc / 2) as int, (p.fc / 2) as int + piece_char_count(p)),
    )
}

proof fn lemma_text_prefix_len(wd: Seq<u8>, pieces: Seq<PieceView>, k: nat)
    requires
        k <= pieces.len(),
        forall|i: int| 0 <= i < k ==> piece_without_bom(wd, #[trigger] pieces[i]),
    ensures
        spec_text_prefix(wd, pieces, k) matches Some(Ok(c)) ==> c.len() == total_char_count(
            pieces,
            k,
        ),
    decreases k,
{
    if k > 0 {
        lemma_text_prefix_len(wd, pieces, (k - 1) as nat);
        assert(piece_without_bom(wd, pieces[k - 1]));
    }
}

/// Where no 8-bit piece opens with a byte-order mark, the text holds one
/// character per byte of an 8-bit piece and per code unit of a Unicode
/// piece: as many as the pieces announce, together.
pub proof fn law_text_length_is_the_pieces(wd: Seq<u8>, pieces: Seq<PieceView>)
    requires
        forall|i: int| 0 <= i < pieces.len() ==> piece_without_bom(wd, #[trigger] pieces[i]),
    ensures
        spec_extract_text(wd, pieces) matches Some(Ok(chars)) ==> chars.len() == total_char_count(
            pieces,
            pieces.len(),
        ),
{
    lemma_text_prefix_len(wd, pieces, pieces.len());
}

// ---------------------------------------------------------------------------
// The piece table

/// Where the first `k` `Prc` blocks of a CLX end: each is the marker 1, a
/// 16-bit size, and that many bytes.
pub open spec fn prc_end(clx: Seq<u8>, k: nat) -> int
    decreases k,
{
    if k == 0 {
        0
    } else {
        let p = prc_end(clx, (k - 1) as nat);
        p + 3 + le16(clx, p + 1) as int
    }
}

/// The CLX opens with `k` whole `Prc` blocks, each followed by more bytes.
pub open spec fn whole_prc_blocks(clx: Seq<u8>, k: nat) -> bool {
    forall|j: nat|
        j < k ==> clx[#[trigger] prc_end(clx, j)] == 1 && prc_end(clx, j) + 3 + le16(
            clx,
            prc_end(clx, j) + 1,
        ) < clx.len()
}

proof fn lemma_prc_end_nonneg(clx: Seq<u8>, j: nat)
    ensures
        prc_end(clx, j) >= 0,
    decreases j,
{
    if j > 0 {
        lemma_prc_end_nonneg(clx, (j - 1) as nat);
    }
}

proof fn lemma_scan_prc(clx: Seq<u8>, k: nat, j: nat)
    requires
        whole_prc_blocks(clx, k),
        j <= k,
    ensures
        spec_clx_scan(clx, prc_end(clx, j)) == spec_clx_scan(clx, prc_end(clx, k)),
    decreases k - j,
{
    if j < k {
        lemma_prc_end_nonneg(clx, j);
        let p = prc_end(clx, j);
        assert(clx[p] == 1);
        assert(prc_end(clx, j + 1) == p + 3 + le16(clx, p + 1) as int);
        lemma_scan_prc(clx, k, j + 1);
    }
}

/// The piece of a `PlcPcd` of `n` pieces at index `i`: it runs from the
/// `i`-th CP to the next, and its PCD's 32-bit `fc` field holds the
/// position (low 30 bits) and, in bit 30, whether it is 8-bit text.
pub open spec fn plc_piece(plc: Seq<u8>, n: int, i: int) -> PieceView {
    let raw = le32(plc, 4 * (n + 1) + 8 * i + 2);
    PieceView {
        cp_start: le32(plc, 4 * i),
        cp_end: le32(plc, 4 * (i + 1)),
        fc: raw & 0x3FFF_FFFFu32,
        compressed: raw & 0x4000_0000u32 != 0,
    }
}

/// A CLX of `k` whole `Prc` blocks, then the marker 2, a 32-bit length
/// `L` of at least 4, and `L` bytes of `PlcPcd`, gives `(L - 4) / 12`
/// pieces, read from that `PlcPcd`.
pub proof fn law_clx_pieces(table: Seq<u8>, fc_clx: u32, lcb_clx: u32, k: nat)
    requires
        fc_clx + lcb_clx <= table.len(),
        whole_prc_blocks(table.subrange(fc_clx as int, fc_clx + lcb_clx), k),
        ({
            let clx = table.subrange(fc_clx as int, fc_clx + lcb_clx);
            let q = prc_end(clx, k);
            &&& q + 5 <= clx.len()
            &&& clx[q] == 2
            &&& le32(clx, q + 1) >= 4
            &&& q + 5 + le32(clx, q + 1) <= clx.len()
        }),
    ensures
        ({
            let clx = table.subrange(fc_clx as int, fc_clx + lcb_clx);
            let q = prc_end(clx, k);
            let plc = clx.subrange(q + 5, q + 5 + le32(clx, q + 1));
            let n = (le32(clx, q + 1) - 4) / 12;
            spec_parse_clx(table, fc_clx, lcb_clx) == Some(
                Ok::<Seq<PieceView>, DocErrorView>(
                    Seq::new(n as nat, |i: int| plc_piece(plc, n, i)),
                ),
            )
        }),
{
    let clx = table.subrange(fc_clx as int, fc_clx + lcb_clx);
    let q = prc_end(clx, k);
    lemma_prc_end_nonneg(clx, k);
    lemma_scan_prc(clx, k, 0);
    assert(spec_clx_scan(clx, q) == Ok::<int, DocErrorView>(q + 1));
    let plc = clx.subrange(q + 5, q + 5 + le32(clx, q + 1));
    let n = (le32(clx, q + 1) - 4) / 12;
    assert(crate::clx::spec_plc_pieces(plc) =~= Seq::new(n as nat, |i: int| plc_piece(plc, n, i)));
}

// ---------------------------------------------------------------------------
// One field per closed field

/// How many field ends in `s` close an open field; stray ends close none.
pub open spec fn closing_count(s: Seq<char>) -> nat
    decreases s.len(),
{
    if s.len() == 0 {
        0
    } else {
        closing_count(s.drop_last()) + if is_field_end(s.last()) && strip_state(
            s.drop_last(),
        ).len() > 0 {
            1nat
        } else {
            0nat
        }
    }
}

/// An open field that has not reached its separator has an empty value.
pub open spec fn value_after_separator(f: FrameView) -> bool {
    !f.2 ==> f.1.len() == 0
}

proof fn lemma_scan_counts(s: Seq<char>)
    ensures
        scan_state(s).0.len() == strip_state(s).len(),
        scan_state(s).1.len() == closing_count(s),
        forall|i: int|
            0 <= i < scan_state(s).0.len() ==> value_after_separator(#[trigger] scan_state(s).0[i]),
    decreases s.len(),
{
    if s.len() > 0 {
        let p = s.drop_last();
        lemma_scan_counts(p);
        let frames = scan_state(p).0;
        let frames2 = scan_state(s).0;
        assert forall|i: int| 0 <= i < frames2.len() implies value_after_separator(
            #[trigger] frames2[i],
        ) by {
            if i < frames.len() && i != frames.len() - 1 {
                assert(frames2[i] == frames[i]);
            }
        }
    }
}

proof fn lemma_field_frame(s: Seq<char>, k: int) -> (f: FrameView)
    requires
        0 <= k < scan_state(s).1.len(),
    ensures
        value_after_separator(f),
        scan_state(s).1[k] == field_of(f),
    decreases s.len(),
{
    let p = s.drop_last();
    lemma_scan_counts(p);
    let (frames, found) = scan_state(p);
    if k < found.len() {
        assert(scan_state(s).1[k] == found[k]);
        lemma_field_frame(p, k)
    } else {
        assert(value_after_separator(frames[frames.len() - 1]));
        frames.last()
    }
}

/// Fields come one per field end that closes an open field (a stray end,
/// or a field left open, gives none).
pub proof fn law_one_field_per_closed_field(s: Seq<char>)
    ensures
        spec_extract_fields(s).len() == closing_count(s),
{
    lemma_scan_counts(s);
}

/// A field's value is gathered only after the separator of that field
/// itself: field `k` is made from a field `f` whose value is empty unless
/// its own separator was seen.
pub proof fn law_value_follows_own_separator(s: Seq<char>, k: int) -> (f: FrameView)
    requires
        0 <= k < spec_extract_fields(s).len(),
    ensures
        value_after_separator(f),
        spec_extract_fields(s)[k] == field_of(f),
        !f.2 ==> spec_extract_fields(s)[k].2.len() == 0,
{
    let f = lemma_field_frame(s, k);
    if !f.2 {
        lemma_trim_keeps_property(f.1, ws_pred(), |c: char| false);
    }
    f
}

// ---------------------------------------------------------------------------
// Where a heading lands

/// Only the pair of run `r` and piece `j` places a heading at `cp`: no
/// other heading run, through any piece, lands there.
pub open spec fn only_pair_at(
    pieces: Seq<PieceView>,
    styles: Seq<ParagraphStyle>,
    headings: Map<u16, u8>,
    r: int,
    j: int,
    cp: u32,
) -> bool {
    forall|r2: int, j2: int|
        0 <= r2 < styles.len() && 0 <= j2 < pieces.len() && (r2 != r || j2 != j)
            && headings.contains_key(styles[r2].istd) ==> #[trigger] piece_cp_of(
            pieces[j2],
            styles[r2].fc_start,
        ) != Some(cp)
}

proof fn lemma_insert_cps_other(m: Map<u32, u8>, pieces: Seq<PieceView>, fc: u32, level: u8, k: nat, cp: u32)
    requires
        k <= pieces.len(),
        forall|j2: int| 0 <= j2 < k ==> #[trigger] piece_cp_of(pieces[j2], fc) != Some(cp),
    ensures
        insert_piece_cps(m, pieces, fc, level, k).contains_key(cp) == m.contains_key(cp),
        m.contains_key(cp) ==> insert_piece_cps(m, pieces, fc, level, k)[cp] == m[cp],
    decreases k,
{
    if k > 0 {
        lemma_insert_cps_other(m, pieces, fc, level, (k - 1) as nat, cp);
        assert(piece_cp_of(pieces[k - 1], fc) != Some(cp));
    }
}

proof fn lemma_insert_cps_hit(
    m: Map<u32, u8>,
    pieces: Seq<PieceView>,
    fc: u32,
    level: u8,
    k: nat,
    j: int,
    cp: u32,
)
    requires
        0 <= j < k <= pieces.len(),
        piece_cp_of(pieces[j], fc) == Some(cp),
        forall|j2: int| 0 <= j2 < k && j2 != j ==> #[trigger] piece_cp_of(pieces[j2], fc) != Some(cp),
    ensures
        insert_piece_cps(m, pieces, fc, level, k).contains_key(cp),
        insert_piece_cps(m, pieces, fc, level, k)[cp] == level,
    decreases k,
{
    if k == j + 1 {
    } else {
        lemma_insert_cps_hit(m, pieces, fc, level, (k - 1) as nat, j, cp);
        assert(piece_cp_of(pieces[k - 1], fc) != Some(cp));
    }
}

proof fn lemma_heading_map_hit(
    pieces: Seq<PieceView>,
    styles: Seq<ParagraphStyle>,
    headings: Map<u16, u8>,
    k: nat,
    r: int,
    j: int,
    cp: u32,
)
    requires
        0 <= r < k <= styles.len(),
        0 <= j < pieces.len(),
        headings.contains_key(styles[r].istd),
        piece_cp_of(pieces[j], styles[r].fc_start) == Some(cp),
        only_pair_at(pieces, styles, headings, r, j, cp),
    ensures
        spec_heading_map(pieces, styles, headings, k).contains_key(cp),
        spec_heading_map(pieces, styles, headings, k)[cp] == headings[styles[r].istd],
    decreases k,
{
    let ps = styles[k - 1];
    let m = spec_heading_map(pieces, styles, headings, (k - 1) as nat);
    if k == r + 1 {
        assert forall|j2: int| 0 <= j2 < pieces.len() && j2 != j implies #[trigger] piece_cp_of(
            pieces[j2],
            ps.fc_start,
        ) != Some(cp) by {
            assert(piece_cp_of(pieces[j2], styles[r].fc_start) != Some(cp));
        }
        lemma_insert_cps_hit(m, pieces, ps.fc_start, headings[ps.istd], pieces.len(), j, cp);
    } else {
        lemma_heading_map_hit(pieces, styles, headings, (k - 1) as nat, r, j, cp);
        if headings.contains_key(ps.istd) {
            assert forall|j2: int| 0 <= j2 < pieces.len() implies #[trigger] piece_cp_of(
                pieces[j2],
                ps.fc_start,
            ) != Some(cp) by {
                assert(piece_cp_of(pieces[j2], styles[k - 1].fc_start) != Some(cp));
            }
            lemma_insert_cps_other(m, pieces, ps.fc_start, headings[ps.istd], pieces.len(), cp);
        }
    }
}

/// Where a piece's text starts in `WordDocument`: at byte `fc / 2` for an
/// 8-bit piece, at byte `fc` for a Unicode one.
pub open spec fn text_start(p: PieceView) -> int {
    if p.compressed {
        p.fc as int / 2
    } else {
        p.fc as int
    }
}

/// Bytes per character: one in an 8-bit piece, two in a Unicode one.
pub open spec fn char_width(p: PieceView) -> int {
    if p.compressed {
        1
    } else {
        2
    }
}

/// The CP at which a paragraph starting at byte `fc` of a piece's text
/// starts: the piece's first CP plus the characters before that byte.
pub open spec fn cp_in_piece(p: PieceView, fc: u32) -> u32 {
    (p.cp_start + (fc - text_start(p)) / char_width(p)) as u32
}

/// A heading paragraph whose first byte lies in a piece's text is marked at
/// the CP where it starts, with the level of its style, unless another
/// heading run lands on the same CP. Paragraph FCs are byte offsets into
/// `WordDocument`, compared with where the piece's text lies there.
pub proof fn law_heading_cp(
    pieces: Seq<PieceView>,
    styles: Seq<ParagraphStyle>,
    headings: Map<u16, u8>,
    r: int,
    j: int,
)
    requires
        0 <= r < styles.len(),
        0 <= j < pieces.len(),
        headings.contains_key(styles[r].istd),
        text_start(pieces[j]) <= styles[r].fc_start,
        styles[r].fc_start < text_start(pieces[j]) + char_width(pieces[j]) * (pieces[j].cp_end
            - pieces[j].cp_start),
        only_pair_at(pieces, styles, headings, r, j, cp_in_piece(pieces[j], styles[r].fc_start)),
    ensures
        ({
            let cp = cp_in_piece(pieces[j], styles[r].fc_start);
            let m = spec_heading_map(pieces, styles, headings, styles.len());
            m.contains_key(cp) && m[cp] == headings[styles[r].istd]
        }),
{
    let cp = cp_in_piece(pieces[j], styles[r].fc_start);
    let p = pieces[j];
    let fc = styles[r].fc_start;
    let count = p.cp_end - p.cp_start;
    if p.compressed {
        assert(char_width(p) == 1);
        assert(char_width(p) * count == count);
        assert(crate::papx::piece_fc_end(p) == text_start(p) + count);
        assert((fc - text_start(p)) / char_width(p) == fc - text_start(p));
    } else {
        assert(char_width(p) == 2);
        assert(char_width(p) * count == 2 * count);
        assert(crate::papx::piece_fc_end(p) == text_start(p) + 2 * count);
        assert((fc - text_start(p)) / char_width(p) == (fc - text_start(p)) / 2);
    }
    assert(piece_cp_of(p, fc) == Some(cp));
    lemma_heading_map_hit(pieces, styles, headings, styles.len(), r, j, cp);
}

/// Two containers look alike to an inspection: both open or neither, the
/// primary reader accepts both or neither, they list the same streams, the
/// same stream names are present and found the same way, and their
/// `WordDocument` streams, where present, have the same FIB header bytes.
pub open spec fn same_layout(d1: Seq<u8>, d2: Seq<u8>) -> bool {
    &&& container_opens(d1) == container_opens(d2)
    &&& (spec_cfb_walk(d1) is None) == (spec_cfb_walk(d2) is None)
    &&& spec_container_streams(d1) == spec_container_streams(d2)
    &&& forall|name: Seq<char>|
        (#[trigger] spec_container_read(d1, name).0 is None) == (spec_container_read(d2, name).0 is None)
            && spec_container_read(d1, name).1 == spec_container_read(d2, name).1
    &&& match (spec_container_read(d1, "WordDocument"@).0, spec_container_read(d2, "WordDocument"@).0) {
        (Some(w1), Some(w2)) => same_header_bytes(w1, w2),
        _ => true,
    }
}

/// The inspection report shows nothing of the documents' contents: two
/// containers with the same layout, the same streams present and the same
/// FIB header bytes give the same report, whatever their streams hold.
pub proof fn law_inspection_shows_no_content(d1: Seq<u8>, d2: Seq<u8>)
    requires
        same_layout(d1, d2),
    ensures
        spec_inspect(d1) == spec_inspect(d2),
{
    let wd1 = spec_container_read(d1, "WordDocument"@).0;
    let wd2 = spec_container_read(d2, "WordDocument"@).0;
    assert((wd1 is None) == (wd2 is None));
    if let (Some(w1), Some(w2)) = (wd1, wd2) {
        law_inspection_sees_only_the_fib_header(d1, w1, w2);
        if let Some(fib) = spec_fib_header(w1) {
            let t = spec_table_name(fib);
            assert((spec_container_read(d1, t).0 is None) == (spec_container_read(d2, t).0 is None));
            assert(spec_container_read(d1, t).1 == spec_container_read(d2, t).1);
        }
        assert(fib_notes(d1, wd1) == fib_notes(d2, wd2)) by {
            if let Some(fib) = spec_fib_header(w1) {
                let t = spec_table_name(fib);
                assert((spec_container_read(d1, t).0 is None) == (spec_container_read(d2, t).0
                    is None));
            }
        }
    }
    assert(spec_container_read(d1, "WordDocument"@).1 == spec_container_read(d2, "WordDocument"@).1);
    assert(inspect_recovered(d1) == inspect_recovered(d2));
}

// ---------------------------------------------------------------------------
// Field types

proof fn lemma_tokens_sat(s: Seq<char>, q: spec_fn(char) -> bool)
    requires
        all_sat(s, q),
    ensures
        all_sat(token_state(s).1, q),
        forall|k: int| 0 <= k < token_state(s).0.len() ==> all_sat(#[trigger] token_state(s).0[k], q),
    decreases s.len(),
{
    if s.len() > 0 {
        let p = s.drop_last();
        assert(all_sat(p, q)) by {
            assert forall|i: int| 0 <= i < p.len() implies q(#[trigger] p[i]) by {
                assert(p[i] == s[i]);
            }
        }
        lemma_tokens_sat(p, q);
        let (kept, cur) = token_state(p);
        let c = s.last();
        assert(q(c));
        if is_ws(c) {
            let r = close_token(kept, cur);
            assert forall|k: int| 0 <= k < r.len() implies all_sat(#[trigger] r[k], q) by {
                if k < kept.len() {
                    assert(r[k] == kept[k]);
                }
            }
        } else {
            assert(all_sat(cur.push(c), q)) by {
                assert forall|i: int| 0 <= i < cur.push(c).len() implies q(
                    #[trigger] cur.push(c)[i],
                ) by {
                    if i < cur.len() {
                        assert(cur.push(c)[i] == cur[i]);
                    }
                }
            }
        }
    }
}

/// A field type read from an ASCII field code is in capitals: it is ASCII,
/// and upper-casing it again changes nothing.
pub proof fn law_ascii_field_type_is_upper(code: Seq<char>)
    requires
        is_ascii_text(code),
    ensures
        is_ascii_text(spec_parse_field_code(code).0),
        spec_upper(spec_parse_field_code(code).0) == spec_parse_field_code(code).0,
{
    let q = |c: char| (c as u32) < 128;
    assert(all_sat(code, q)) by {
        assert forall|i: int| 0 <= i < code.len() implies q(#[trigger] code[i]) by {
            assert((code[i] as u32) < 128);
        }
    }
    lemma_tokens_sat(code, q);
    let ts = code_tokens(code);
    let (kept, cur) = token_state(code);
    assert forall|k: int| 0 <= k < ts.len() implies all_sat(#[trigger] ts[k], q) by {
        if k < kept.len() {
            assert(ts[k] == kept[k]);
        }
    }
    let t = token_or_empty(ts, 0);
    assert(all_sat(t, q));
    assert(is_ascii_text(t)) by {
        assert forall|i: int| 0 <= i < t.len() implies (#[trigger] t[i] as u32) < 128 by {
            assert(q(t[i]));
        }
    }
    let u = t.map_values(|c: char| ascii_upper(c));
    assert(spec_parse_field_code(code).0 == u);
    assert(is_ascii_text(u)) by {
        assert forall|i: int| 0 <= i < u.len() implies (#[trigger] u[i] as u32) < 128 by {
            assert(u[i] == ascii_upper(t[i]));
            assert((t[i] as u32) < 128);
        }
    }
    assert(u.map_values(|c: char| ascii_upper(c)) =~= u) by {
        assert forall|i: int| 0 <= i < u.len() implies #[trigger] ascii_upper(u[i]) == u[i] by {
            assert(u[i] == ascii_upper(t[i]));
        }
    }
}

// ---------------------------------------------------------------------------
// The characters of a Unicode piece

proof fn lemma_prefix_extends(wd: Seq<u8>, pieces: Seq<PieceView>, k: nat, n: nat)
    requires
        k <= n <= pieces.len(),
        spec_text_prefix(wd, pieces, n) matches Some(Ok(_)),
    ensures
        match (spec_text_prefix(wd, pieces, k), spec_text_prefix(wd, pieces, n)) {
            (Some(Ok(a)), Some(Ok(all))) => a.len() <= all.len() && all.take(a.len() as int) == a,
            _ => false,
        },
    decreases n - k,
{
    if k < n {
        lemma_prefix_extends(wd, pieces, k + 1, n);
        match spec_text_prefix(wd, pieces, k) {
            Some(Ok(a)) => {
                let b = spec_text_prefix(wd, pieces, k + 1)->Some_0->Ok_0;
                let all = spec_text_prefix(wd, pieces, n)->Some_0->Ok_0;
                assert(b.take(a.len() as int) =~= a);
                assert(all.take(a.len() as int) =~= b.take(a.len() as int));
            },
            _ => {},
        }
    } else {
        let all = spec_text_prefix(wd, pieces, n)->Some_0->Ok_0;
        assert(all.take(all.len() as int) =~= all);
    }
}

/// Each character of a Unicode piece is its UTF-16LE code unit: for
/// character `i` of piece `k`, the 16-bit number at byte `fc + 2 i` of the
/// stream, its full value, or U+FFFD where that unit is a surrogate. The
/// piece's characters follow those of the pieces before it.
pub proof fn law_unicode_piece_code_units(wd: Seq<u8>, pieces: Seq<PieceView>, k: int, i: int)
    requires
        spec_extract_text(wd, pieces) matches Some(Ok(_)),
        0 <= k < pieces.len(),
        !pieces[k].compressed,
        0 <= i < pieces[k].cp_end - pieces[k].cp_start,
    ensures
        match (spec_extract_text(wd, pieces), spec_text_prefix(wd, pieces, k as nat)) {
            (Some(Ok(all)), Some(Ok(before))) => {
                let u = u16_bytes(wd, pieces[k].fc + 2 * i);
                &&& before.len() + i < all.len()
                &&& 0xD800 <= u <= 0xDFFF ==> all[before.len() + i] == '\u{FFFD}'
                &&& !(0xD800 <= u <= 0xDFFF) ==> all[before.len() + i] as u32 == u
            },
            _ => false,
        },
{
    let n = pieces.len();
    lemma_prefix_extends(wd, pieces, k as nat, n);
    lemma_prefix_extends(wd, pieces, (k + 1) as nat, n);
    let a = spec_text_prefix(wd, pieces, k as nat)->Some_0->Ok_0;
    let b = spec_text_prefix(wd, pieces, (k + 1) as nat)->Some_0->Ok_0;
    let all = spec_extract_text(wd, pieces)->Some_0->Ok_0;
    let p = pieces[k];
    let count = p.cp_end as int - p.cp_start as int;
    assert(b == a + crate::text::utf16_chars(wd, p.fc as int, count));
    assert(all[a.len() + i] == b[a.len() + i]) by {
        assert(all.take(b.len() as int)[a.len() + i] == all[a.len() + i]);
    }
    let unit = le16(wd, p.fc + 2 * i);
    assert(unit as int == u16_bytes(wd, p.fc + 2 * i));
    assert(b[a.len() + i] == crate::text::unit_char(unit));
}

/// Each character of an 8-bit piece whose bytes open with no byte-order
/// mark is its byte read as windows-1252: for character `i` of piece `k`,
/// byte `fc / 2 + i` of the stream; a byte below 0x80 or from 0xA0 on is
/// the character of the same code.
pub proof fn law_eight_bit_piece_bytes(wd: Seq<u8>, pieces: Seq<PieceView>, k: int, i: int)
    requires
        spec_extract_text(wd, pieces) matches Some(Ok(_)),
        0 <= k < pieces.len(),
        pieces[k].compressed,
        piece_without_bom(wd, pieces[k]),
        0 <= i < pieces[k].cp_end - pieces[k].cp_start,
    ensures
        match (spec_extract_text(wd, pieces), spec_text_prefix(wd, pieces, k as nat)) {
            (Some(Ok(all)), Some(Ok(before))) => {
                let b = wd[pieces[k].fc / 2 + i];
                &&& before.len() + i < all.len()
                &&& all[before.len() + i] == crate::text::windows_1252_char(b)
                &&& (b < 0x80 || b >= 0xA0) ==> all[before.len() + i] as u32 == b as u32
            },
            _ => false,
        },
{
    let n = pieces.len();
    lemma_prefix_extends(wd, pieces, k as nat, n);
    lemma_prefix_extends(wd, pieces, (k + 1) as nat, n);
    let a = spec_text_prefix(wd, pieces, k as nat)->Some_0->Ok_0;
    let b = spec_text_prefix(wd, pieces, (k + 1) as nat)->Some_0->Ok_0;
    let all = spec_extract_text(wd, pieces)->Some_0->Ok_0;
    let p = pieces[k];
    let off = (p.fc / 2) as int;
    let count = p.cp_end as int - p.cp_start as int;
    let bytes = wd.subrange(off, off + count);
    assert(b == a + crate::text::windows_1252_chars(bytes));
    assert(all[a.len() + i] == b[a.len() + i]) by {
        assert(all.take(b.len() as int)[a.len() + i] == all[a.len() + i]);
    }
    assert(bytes[i] == wd[off + i]);
}

} // verus!
