//! Markdown rendering of the body text, the textboxes, and the fields.

use vstd::prelude::*;
use std::collections::HashMap;
use crate::chartext::{push_all, push_str, string_from_chars, trim_chars, trim_ws};
use crate::fields::{
    Field, FieldView, extract_fields, fields_view, spec_extract_fields, spec_strip_field_codes,
    strip_field_chars,
};

verus! {

broadcast use vstd::std_specs::hash::group_hash_axioms;

pub struct Document {
    pub body_text: String,
    pub textboxes: Vec<String>,
    pub fields: Vec<Field>,
}

/// A document as the contracts see it: `(body, textboxes, fields)`.
pub type DocumentView = (Seq<char>, Seq<Seq<char>>, Seq<FieldView>);

/// The views of a vector of strings.
pub open spec fn texts_view(v: Seq<String>) -> Seq<Seq<char>> {
    v.map_values(|s: String| s@)
}

impl View for Document {
    type V = DocumentView;

    open spec fn view(&self) -> DocumentView {
        (self.body_text@, texts_view(self.textboxes@), fields_view(self.fields@))
    }
}

/// The control characters Word leaves in text: object anchors, cell marks
/// and the like.
pub open spec fn is_doc_control(c: char) -> bool {
    c == '\u{1}' || c == '\u{8}' || c == '\u{7}'
}

/// The text without those control characters.
pub open spec fn drop_controls(s: Seq<char>) -> Seq<char>
    decreases s.len(),
{
    if s.len() == 0 {
        seq![]
    } else if is_doc_control(s.last()) {
        drop_controls(s.drop_last())
    } else {
        drop_controls(s.drop_last()).push(s.last())
    }
}

/// A paragraph's text: field codes stripped when asked, control characters
/// dropped, whitespace trimmed.
pub open spec fn spec_clean_text(chars: Seq<char>, strip_fields: bool) -> Seq<char> {
    trim_ws(
        drop_controls(
            if strip_fields {
                spec_strip_field_codes(chars)
            } else {
                chars
            },
        ),
    )
}

/// `level` hash signs.
pub open spec fn hashes(level: nat) -> Seq<char> {
    Seq::new(level, |i: int| '#')
}

/// The heading marker of the paragraph starting at `cp`: `#` repeated to its
/// level and a space, or nothing.
pub open spec fn heading_prefix(headings: Map<u32, u8>, cp: u32) -> Seq<char> {
    if headings.contains_key(cp) {
        hashes(headings[cp] as nat) + seq![' ']
    } else {
        seq![]
    }
}

/// One paragraph, from `start` up to `end`: nothing when its cleaned text is
/// empty, else its heading marker, that text and a blank line.
pub open spec fn paragraph_out(
    chars: Seq<char>,
    start: int,
    end: int,
    headings: Map<u32, u8>,
    strip_fields: bool,
) -> Seq<char> {
    let t = spec_clean_text(chars.subrange(start, end), strip_fields);
    if t.len() == 0 {
        seq![]
    } else {
        heading_prefix(headings, start as u32) + t + "\n\n"@
    }
}

/// The rendered text and the current paragraph's start after `i` characters.
pub open spec fn render_state(
    chars: Seq<char>,
    headings: Map<u32, u8>,
    strip_fields: bool,
    i: nat,
) -> (Seq<char>, int)
    decreases i,
{
    if i == 0 {
        (seq![], 0)
    } else {
        let (out, start) = render_state(chars, headings, strip_fields, (i - 1) as nat);
        let c = chars[i - 1];
        if c == '\r' {
            (out + paragraph_out(chars, start, i - 1, headings, strip_fields), i as int)
        } else if c == '\u{c}' {
            (
                out + paragraph_out(chars, start, i - 1, headings, strip_fields)
                    + "---\n\n"@,
                i as int,
            )
        } else {
            (out, start)
        }
    }
}

/// The body as Markdown: paragraphs end at `\r` or at a page break, which
/// becomes `---`; a heading paragraph gets its `#` marker either way.
pub open spec fn spec_render_paragraphs(
    chars: Seq<char>,
    headings: Map<u32, u8>,
    strip_fields: bool,
) -> Seq<char> {
    let (out, start) = render_state(chars, headings, strip_fields, chars.len());
    if start < chars.len() {
        out + paragraph_out(chars, start, chars.len() as int, headings, strip_fields)
    } else {
        out
    }
}

/// Closes the textbox being read: kept when not blank, trimmed.
pub open spec fn close_box(boxes: Seq<Seq<char>>, cur: Seq<char>) -> Seq<Seq<char>> {
    if trim_ws(cur).len() > 0 {
        boxes.push(trim_ws(cur))
    } else {
        boxes
    }
}

/// The textboxes found and the one being read after `s`.
pub open spec fn box_state(s: Seq<char>) -> (Seq<Seq<char>>, Seq<char>)
    decreases s.len(),
{
    if s.len() == 0 {
        (seq![], seq![])
    } else {
        let (boxes, cur) = box_state(s.drop_last());
        let c = s.last();
        if c == '\r' {
            (close_box(boxes, cur), seq![])
        } else if !is_doc_control(c) {
            (boxes, cur.push(c))
        } else {
            (boxes, cur)
        }
    }
}

/// The textbox region split on paragraph marks.
pub open spec fn spec_split_boxes(s: Seq<char>) -> Seq<Seq<char>> {
    close_box(box_state(s).0, box_state(s).1)
}

/// The smaller of two counts.
pub open spec fn min_u32(a: u32, b: u32) -> u32 {
    if a < b {
        a
    } else {
        b
    }
}

/// Where the textbox text starts: after the body, footnotes, headers,
/// comments and endnotes.
pub open spec fn txbx_start(
    ccp_text: u32,
    ccp_ftn: u32,
    ccp_hdd: u32,
    ccp_atn: u32,
    ccp_edn: u32,
) -> int {
    ccp_text as int + ccp_ftn as int + ccp_hdd as int + ccp_atn as int + ccp_edn as int
}

/// The textboxes of a character stream.
pub open spec fn spec_textboxes(
    chars: Seq<char>,
    ccp_text: u32,
    ccp_ftn: u32,
    ccp_hdd: u32,
    ccp_atn: u32,
    ccp_edn: u32,
    ccp_txbx: u32,
    strip_fields: bool,
) -> Seq<Seq<char>> {
    let total = chars.len() as u32;
    let start = txbx_start(ccp_text, ccp_ftn, ccp_hdd, ccp_atn, ccp_edn);
    let end = min_u32((start + ccp_txbx) as u32, total) as int;
    if start < end {
        let region = chars.subrange(start, end);
        spec_split_boxes(
            if strip_fields {
                spec_strip_field_codes(region)
            } else {
                region
            },
        )
    } else {
        seq![]
    }
}

/// The document: the body (the first `ccp_text` characters) rendered, the
/// textboxes, and the fields of the body.
pub open spec fn spec_generate_markdown(
    chars: Seq<char>,
    ccp_text: u32,
    ccp_ftn: u32,
    ccp_hdd: u32,
    ccp_atn: u32,
    ccp_edn: u32,
    ccp_txbx: u32,
    headings: Map<u32, u8>,
    strip_fields: bool,
) -> DocumentView {
    let body = chars.take(min_u32(ccp_text, chars.len() as u32) as int);
    (
        spec_render_paragraphs(body, headings, strip_fields),
        spec_textboxes(
            chars,
            ccp_text,
            ccp_ftn,
            ccp_hdd,
            ccp_atn,
            ccp_edn,
            ccp_txbx,
            strip_fields,
        ),
        spec_extract_fields(body),
    )
}

fn is_control(c: char) -> (r: bool)
    ensures
        r == is_doc_control(c),
{
    c == '\u{1}' || c == '\u{8}' || c == '\u{7}'
}

fn without_controls(s: &[char]) -> (r: Vec<char>)
    ensures
        r@ == drop_controls(s@),
{
    let mut out: Vec<char> = Vec::new();
    let mut i: usize = 0;
    while i < s.len()
        invariant
            i <= s@.len(),
            out@ == drop_controls(s@.take(i as int)),
        decreases s@.len() - i,
    {
        assert(s@.take(i + 1).drop_last() =~= s@.take(i as int));
        if !is_control(s[i]) {
            out.push(s[i]);
        }
        i = i + 1;
    }
    assert(s@.take(i as int) =~= s@);
    out
}

fn clean_text(chars: &[char], strip_fields: bool) -> (r: Vec<char>)
    ensures
        r@ == spec_clean_text(chars@, strip_fields),
{
    let kept = if strip_fields {
        let stripped = strip_field_chars(chars);
        without_controls(stripped.as_slice())
    } else {
        without_controls(chars)
    };
    trim_chars(kept.as_slice(), false)
}

fn copy_range(chars: &[char], from: usize, to: usize) -> (r: Vec<char>)
    requires
        from <= to <= chars@.len(),
    ensures
        r@ == chars@.subrange(from as int, to as int),
{
    let mut out: Vec<char> = Vec::new();
    let mut i = from;
    while i < to
        invariant
            from <= i <= to <= chars@.len(),
            out@ =~= chars@.subrange(from as int, i as int),
        decreases to - i,
    {
        out.push(chars[i]);
        i = i + 1;
    }
    out
}

fn push_paragraph(
    out: &mut Vec<char>,
    chars: &[char],
    start: usize,
    end: usize,
    cp_headings: &HashMap<u32, u8>,
    strip_fields: bool,
)
    requires
        start <= end <= chars@.len(),
    ensures
        final(out)@ == old(out)@ + paragraph_out(
            chars@,
            start as int,
            end as int,
            cp_headings@,
            strip_fields,
        ),
{
    let part = copy_range(chars, start, end);
    let text = clean_text(part.as_slice(), strip_fields);
    if text.len() == 0 {
        assert(old(out)@ + seq![] =~= old(out)@);
        return;
    }
    let ghost before = out@;
    match cp_headings.get(&(start as u32)) {
        Some(level) => {
            let mut k: u8 = 0;
            while k < *level
                invariant
                    k <= *level,
                    out@ =~= before + hashes(k as nat),
                decreases *level - k,
            {
                out.push('#');
                k = k + 1;
            }
            out.push(' ');
        },
        None => {},
    }
    let ghost mid = out@;
    assert(mid =~= before + heading_prefix(cp_headings@, start as u32));
    push_all(out, text.as_slice());
    push_str(out, "\n\n");
}

fn render_paragraphs(chars: &[char], cp_headings: &HashMap<u32, u8>, strip_fields: bool) -> (r:
    Vec<char>)
    ensures
        r@ == spec_render_paragraphs(chars@, cp_headings@, strip_fields),
{
    let mut output: Vec<char> = Vec::new();
    let mut para_start: usize = 0;
    let mut i: usize = 0;
    while i < chars.len()
        invariant
            i <= chars@.len(),
            para_start <= i,
            render_state(chars@, cp_headings@, strip_fields, i as nat) == (
                output@,
                para_start as int,
            ),
        decreases chars@.len() - i,
    {
        let c = chars[i];
        if c == '\r' {
            push_paragraph(&mut output, chars, para_start, i, cp_headings, strip_fields);
            para_start = i + 1;
        } else if c == '\u{c}' {
            // Page break, after the paragraph it ends
            push_paragraph(&mut output, chars, para_start, i, cp_headings, strip_fields);
            push_str(&mut output, "---\n\n");
            para_start = i + 1;
        }
        i = i + 1;
    }
    // The last paragraph, without a trailing paragraph mark
    if para_start < chars.len() {
        push_paragraph(
            &mut output,
            chars,
            para_start,
            chars.len(),
            cp_headings,
            strip_fields,
        );
    }
    output
}

fn split_boxes(s: &[char]) -> (r: Vec<String>)
    ensures
        texts_view(r@) == spec_split_boxes(s@),
{
    let mut boxes: Vec<String> = Vec::new();
    let mut current: Vec<char> = Vec::new();
    let mut i: usize = 0;
    assert(texts_view(boxes@) =~= seq![]);
    while i < s.len()
        invariant
            i <= s@.len(),
            texts_view(boxes@) == box_state(s@.take(i as int)).0,
            current@ == box_state(s@.take(i as int)).1,
        decreases s@.len() - i,
    {
        assert(s@.take(i + 1).drop_last() =~= s@.take(i as int));
        let c = s[i];
        if c == '\r' {
            let trimmed = trim_chars(current.as_slice(), false);
            if trimmed.len() > 0 {
                let ghost before = boxes@;
                boxes.push(string_from_chars(trimmed.as_slice()));
                assert(texts_view(boxes@) =~= texts_view(before).push(trimmed@));
            }
            current = Vec::new();
        } else if !is_control(c) {
            current.push(c);
        }
        i = i + 1;
    }
    assert(s@.take(i as int) =~= s@);
    let trimmed = trim_chars(current.as_slice(), false);
    if trimmed.len() > 0 {
        let ghost before = boxes@;
        boxes.push(string_from_chars(trimmed.as_slice()));
        assert(texts_view(boxes@) =~= texts_view(before).push(trimmed@));
    }
    boxes
}

/// The textbox part of `chars`, when `start < end`.
fn textboxes(chars: &[char], start: usize, end: usize, strip_fields: bool) -> (r: Vec<String>)
    requires
        start <= end <= chars@.len(),
    ensures
        texts_view(r@) == spec_split_boxes(
            if strip_fields {
                spec_strip_field_codes(chars@.subrange(start as int, end as int))
            } else {
                chars@.subrange(start as int, end as int)
            },
        ),
{
    let region = copy_range(chars, start, end);
    if strip_fields {
        let stripped = strip_field_chars(region.as_slice());
        split_boxes(stripped.as_slice())
    } else {
        split_boxes(region.as_slice())
    }
}

pub fn generate_markdown(
    chars: &[char],
    ccp_text: u32,
    ccp_ftn: u32,
    ccp_hdd: u32,
    ccp_atn: u32,
    ccp_edn: u32,
    ccp_txbx: u32,
    cp_headings: &HashMap<u32, u8>,
    strip_fields: bool,
) -> (doc: Document)
    requires
        txbx_start(ccp_text, ccp_ftn, ccp_hdd, ccp_atn, ccp_edn) + ccp_txbx <= u32::MAX,
    ensures
        doc@ == spec_generate_markdown(
            chars@,
            ccp_text,
            ccp_ftn,
            ccp_hdd,
            ccp_atn,
            ccp_edn,
            ccp_txbx,
            cp_headings@,
            strip_fields,
        ),
{
    let total = chars.len() as u32;
    let body_end = if ccp_text < total {
        ccp_text
    } else {
        total
    };
    let body_chars = copy_range(chars, 0, body_end as usize);
    assert(body_chars@ =~= chars@.take(body_end as int));
    // Extract fields from body text
    let extracted_fields = extract_fields(body_chars.as_slice());
    // Extract body paragraphs
    let body = render_paragraphs(body_chars.as_slice(), cp_headings, strip_fields);
    let body_text = string_from_chars(body.as_slice());
    // Extract textboxes
    let txbx_start = ccp_text + ccp_ftn + ccp_hdd + ccp_atn + ccp_edn;
    let txbx_end = if txbx_start + ccp_txbx < total {
        txbx_start + ccp_txbx
    } else {
        total
    };
    let boxes = if txbx_start < txbx_end {
        textboxes(chars, txbx_start as usize, txbx_end as usize, strip_fields)
    } else {
        let v: Vec<String> = Vec::new();
        assert(texts_view(v@) =~= seq![]);
        v
    };
    Document { body_text, textboxes: boxes, fields: extracted_fields }
}

} // verus!
