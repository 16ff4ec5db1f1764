//! Word fields: `\x13 code \x14 result \x15`, possibly nested.

use vstd::prelude::*;
use crate::chartext::{
    is_ws, trim_ws, trim_chars, string_from_chars, chars_of,
};

verus! {

/// Opens a field.
pub open spec fn is_field_begin(c: char) -> bool {
    c == '\u{13}'
}

/// Separates a field's code from its result.
pub open spec fn is_field_sep(c: char) -> bool {
    c == '\u{14}'
}

/// Closes a field.
pub open spec fn is_field_end(c: char) -> bool {
    c == '\u{15}'
}

/// One of the three field markers.
pub open spec fn is_field_mark(c: char) -> bool {
    is_field_begin(c) || is_field_sep(c) || is_field_end(c)
}

/// A field as the contracts see it: `(field_type, name, value)`.
pub type FieldView = (Seq<char>, Seq<char>, Seq<char>);

#[derive(Debug, Clone)]
pub struct Field {
    pub field_type: String,
    pub name: String,
    pub value: String,
}

impl View for Field {
    type V = FieldView;

    open spec fn view(&self) -> FieldView {
        (self.field_type@, self.name@, self.value@)
    }
}

/// The views of a vector of fields.
pub open spec fn fields_view(v: Seq<Field>) -> Seq<FieldView> {
    v.map_values(|f: Field| f@)
}

// ---------------------------------------------------------------------------
// Stripping field codes

/// How the stack of "separator seen" flags changes on one character.
pub open spec fn strip_step(st: Seq<bool>, c: char) -> Seq<bool> {
    if is_field_begin(c) {
        st.push(false)
    } else if is_field_sep(c) {
        if st.len() > 0 {
            st.update(st.len() - 1, true)
        } else {
            st
        }
    } else if is_field_end(c) {
        if st.len() > 0 {
            st.drop_last()
        } else {
            st
        }
    } else {
        st
    }
}

/// Every open field has reached its result.
pub open spec fn all_seen(st: Seq<bool>) -> bool {
    forall|k: int| 0 <= k < st.len() ==> st[k]
}

/// A character is kept when it is no marker and every enclosing field is in
/// its result part.
pub open spec fn strip_keeps(st: Seq<bool>, c: char) -> bool {
    !is_field_mark(c) && all_seen(st)
}

/// The flag stack after reading `s`.
pub open spec fn strip_state(s: Seq<char>) -> Seq<bool>
    decreases s.len(),
{
    if s.len() == 0 {
        seq![]
    } else {
        strip_step(strip_state(s.drop_last()), s.last())
    }
}

/// The text with field codes removed and field results kept.
pub open spec fn spec_strip_field_codes(s: Seq<char>) -> Seq<char>
    decreases s.len(),
{
    if s.len() == 0 {
        seq![]
    } else {
        let prev = spec_strip_field_codes(s.drop_last());
        if strip_keeps(strip_state(s.drop_last()), s.last()) {
            prev.push(s.last())
        } else {
            prev
        }
    }
}

fn all_true(v: &Vec<bool>) -> (r: bool)
    ensures
        r == all_seen(v@),
{
    let mut i: usize = 0;
    while i < v.len()
        invariant
            i <= v@.len(),
            forall|k: int| 0 <= k < i ==> v@[k],
        decreases v@.len() - i,
    {
        if !v[i] {
            return false;
        }
        i = i + 1;
    }
    true
}

fn is_mark(c: char) -> (r: bool)
    ensures
        r == is_field_mark(c),
{
    c == '\u{13}' || c == '\u{14}' || c == '\u{15}'
}

/// `strip_field_codes`, as a character vector.
pub fn strip_field_chars(chars: &[char]) -> (out: Vec<char>)
    ensures
        out@ == spec_strip_field_codes(chars@),
{
    let mut out: Vec<char> = Vec::new();
    let mut seen: Vec<bool> = Vec::new();
    let mut i: usize = 0;
    while i < chars.len()
        invariant
            i <= chars@.len(),
            out@ == spec_strip_field_codes(chars@.take(i as int)),
            seen@ == strip_state(chars@.take(i as int)),
        decreases chars@.len() - i,
    {
        let c = chars[i];
        let ghost pre = chars@.take(i as int);
        assert(chars@.take(i + 1).drop_last() =~= pre);
        assert(chars@.take(i + 1).last() == c);
        if c == '\u{13}' {
            seen.push(false);
        } else if c == '\u{14}' {
            let k = seen.len();
            if k > 0 {
                seen.set(k - 1, true);
            }
        } else if c == '\u{15}' {
            seen.pop();
            assert(seen@ =~= strip_step(strip_state(pre), c));
        } else {
            if all_true(&seen) {
                out.push(c);
            }
        }
        i = i + 1;
    }
    assert(chars@.take(i as int) =~= chars@);
    out
}

/// Strip field codes from text, keeping only field results.
/// For fields without a separator (no result), nothing is kept.
pub fn strip_field_codes(chars: &[char]) -> (result: String)
    ensures
        result@ == spec_strip_field_codes(chars@),
{
    let out = strip_field_chars(chars);
    string_from_chars(out.as_slice())
}

// ---------------------------------------------------------------------------
// Field codes

/// `str::to_uppercase`: the Unicode upper-case mapping of a string.
pub uninterp spec fn spec_str_to_uppercase(s: Seq<char>) -> Seq<char>;

/// `char::to_ascii_uppercase`: `a` to `z` become `A` to `Z`.
pub open spec fn ascii_upper(c: char) -> char {
    if 'a' <= c && c <= 'z' {
        ((c as u32) - 32) as char
    } else {
        c
    }
}

/// Every character is ASCII.
pub open spec fn is_ascii_text(s: Seq<char>) -> bool {
    forall|i: int| 0 <= i < s.len() ==> (#[trigger] s[i] as u32) < 128
}

/// Upper-casing as `str::to_uppercase` does it: on ASCII text, each letter
/// `a` to `z` to its capital and every other character kept; beyond ASCII,
/// the Unicode mapping, named `spec_str_to_uppercase`.
pub open spec fn spec_upper(s: Seq<char>) -> Seq<char> {
    if is_ascii_text(s) {
        s.map_values(|c: char| ascii_upper(c))
    } else {
        spec_str_to_uppercase(s)
    }
}

/// Calls `str::to_uppercase`. Its result is named `spec_str_to_uppercase`
/// of the argument; on ASCII input, where the Unicode upper-case mapping is
/// that of `char::to_ascii_uppercase`, the contract states each character.
/// Beyond ASCII nothing more is stated.
#[verifier::external_body]
fn str_to_uppercase(s: &str) -> (r: String)
    ensures
        r@ == spec_str_to_uppercase(s@),
        is_ascii_text(s@) ==> r@ == s@.map_values(|c: char| ascii_upper(c)),
{
    s.to_uppercase()
}

/// A switch or a nested-field brace, which the code parser skips.
pub open spec fn is_switch(t: Seq<char>) -> bool {
    t.len() > 0 && (t[0] == '\\' || t[0] == '{')
}

/// Ends the current whitespace-separated token.
pub open spec fn close_token(kept: Seq<Seq<char>>, cur: Seq<char>) -> Seq<Seq<char>> {
    if cur.len() == 0 || is_switch(cur) {
        kept
    } else {
        kept.push(cur)
    }
}

/// Tokens kept so far and the token being read, after reading `s`.
pub open spec fn token_state(s: Seq<char>) -> (Seq<Seq<char>>, Seq<char>)
    decreases s.len(),
{
    if s.len() == 0 {
        (seq![], seq![])
    } else {
        let (kept, cur) = token_state(s.drop_last());
        if is_ws(s.last()) {
            (close_token(kept, cur), seq![])
        } else {
            (kept, cur.push(s.last()))
        }
    }
}

/// The whitespace-separated tokens of a field code that are not switches.
pub open spec fn code_tokens(s: Seq<char>) -> Seq<Seq<char>> {
    close_token(token_state(s).0, token_state(s).1)
}

/// The `i`-th token, or the empty string.
pub open spec fn token_or_empty(ts: Seq<Seq<char>>, i: int) -> Seq<char> {
    if i < ts.len() {
        ts[i]
    } else {
        seq![]
    }
}

/// `(type, name)` of a field code: the first token upper-cased, the second.
pub open spec fn spec_parse_field_code(code: Seq<char>) -> (Seq<char>, Seq<char>) {
    (
        spec_upper(token_or_empty(code_tokens(code), 0)),
        token_or_empty(code_tokens(code), 1),
    )
}

fn char_is_ws(c: char) -> (r: bool)
    ensures
        r == is_ws(c),
{
    ('\u{9}' <= c && c <= '\u{d}') || c == ' ' || c == '\u{85}' || c == '\u{a0}' || c
        == '\u{1680}' || ('\u{2000}' <= c && c <= '\u{200a}') || c == '\u{2028}' || c
        == '\u{2029}' || c == '\u{202f}' || c == '\u{205f}' || c == '\u{3000}'
}

fn token_is_switch(t: &Vec<char>) -> (r: bool)
    ensures
        r == is_switch(t@),
{
    t.len() > 0 && (t[0] == '\\' || t[0] == '{')
}

/// The views of a vector of character vectors.
pub open spec fn seqs_view(v: Seq<Vec<char>>) -> Seq<Seq<char>> {
    v.map_values(|t: Vec<char>| t@)
}

fn close_token_exec(kept: &mut Vec<Vec<char>>, cur: Vec<char>)
    ensures
        seqs_view(final(kept)@) == close_token(seqs_view(old(kept)@), cur@),
{
    if cur.len() == 0 || token_is_switch(&cur) {
    } else {
        let ghost before = kept@;
        kept.push(cur);
        assert(seqs_view(kept@) =~= seqs_view(before).push(cur@));
    }
}

fn code_token_list(code: &[char]) -> (r: Vec<Vec<char>>)
    ensures
        seqs_view(r@) == code_tokens(code@),
{
    let mut kept: Vec<Vec<char>> = Vec::new();
    let mut cur: Vec<char> = Vec::new();
    let mut i: usize = 0;
    assert(seqs_view(kept@) =~= seq![]);
    while i < code.len()
        invariant
            i <= code@.len(),
            seqs_view(kept@) == token_state(code@.take(i as int)).0,
            cur@ == token_state(code@.take(i as int)).1,
        decreases code@.len() - i,
    {
        let c = code[i];
        assert(code@.take(i + 1).drop_last() =~= code@.take(i as int));
        if char_is_ws(c) {
            let done = cur;
            cur = Vec::new();
            close_token_exec(&mut kept, done);
        } else {
            cur.push(c);
        }
        i = i + 1;
    }
    assert(code@.take(i as int) =~= code@);
    close_token_exec(&mut kept, cur);
    kept
}

fn parse_field_code_chars(code: &[char]) -> (r: (String, String))
    ensures
        (r.0@, r.1@) == spec_parse_field_code(code@),
{
    let toks = code_token_list(code);
    let empty: Vec<char> = Vec::new();
    let first = if toks.len() > 0 {
        string_from_chars(toks[0].as_slice())
    } else {
        string_from_chars(empty.as_slice())
    };
    let name = if toks.len() > 1 {
        string_from_chars(toks[1].as_slice())
    } else {
        string_from_chars(empty.as_slice())
    };
    assert(first@ == token_or_empty(code_tokens(code@), 0));
    let field_type = str_to_uppercase(first.as_str());
    (field_type, name)
}

/// Parse a field code string into (type, name).
/// Field code looks like: " DOCVARIABLE SDRDV_DTRDVVALEUR \* MERGEFORMAT"
pub fn parse_field_code(code: &str) -> (r: (String, String))
    ensures
        (r.0@, r.1@) == spec_parse_field_code(code@),
{
    let cs = chars_of(code);
    parse_field_code_chars(cs.as_slice())
}

// ---------------------------------------------------------------------------
// Extracting fields

/// An open field while scanning: `(code, value, separator seen)`.
pub type FrameView = (Seq<char>, Seq<char>, bool);

/// The field a closed frame yields.
pub open spec fn field_of(f: FrameView) -> FieldView {
    let (t, n) = spec_parse_field_code(f.0);
    (t, n, trim_ws(f.1))
}

/// One step of the field scanner over `(open frames, fields found)`.
pub open spec fn scan_step(st: (Seq<FrameView>, Seq<FieldView>), c: char) -> (
    Seq<FrameView>,
    Seq<FieldView>,
) {
    let (frames, found) = st;
    if is_field_begin(c) {
        (frames.push((seq![], seq![], false)), found)
    } else if is_field_sep(c) {
        if frames.len() > 0 {
            let f = frames.last();
            (frames.update(frames.len() - 1, (f.0, f.1, true)), found)
        } else {
            st
        }
    } else if is_field_end(c) {
        if frames.len() > 0 {
            (frames.drop_last(), found.push(field_of(frames.last())))
        } else {
            st
        }
    } else if frames.len() > 0 {
        let f = frames.last();
        if f.2 {
            (frames.update(frames.len() - 1, (f.0, f.1.push(c), true)), found)
        } else {
            (frames.update(frames.len() - 1, (f.0.push(c), f.1, false)), found)
        }
    } else {
        st
    }
}

/// The scanner's state after reading `s`.
pub open spec fn scan_state(s: Seq<char>) -> (Seq<FrameView>, Seq<FieldView>)
    decreases s.len(),
{
    if s.len() == 0 {
        (seq![], seq![])
    } else {
        scan_step(scan_state(s.drop_last()), s.last())
    }
}

/// The fields of a character stream, in the order in which they close.
pub open spec fn spec_extract_fields(s: Seq<char>) -> Seq<FieldView> {
    scan_state(s).1
}

/// The views of the scanner's frame stack.
pub open spec fn frames_view(v: Seq<(Vec<char>, Vec<char>, bool)>) -> Seq<FrameView> {
    v.map_values(|f: (Vec<char>, Vec<char>, bool)| (f.0@, f.1@, f.2))
}

fn close_frame(code: &[char], value: &[char]) -> (f: Field)
    ensures
        f@ == field_of((code@, value@, true)),
{
    let (field_type, name) = parse_field_code_chars(code);
    let v = trim_chars(value, false);
    Field { field_type, name, value: string_from_chars(v.as_slice()) }
}

/// Extract all fields from the character stream.
/// Handles nested fields by using a stack.
pub fn extract_fields(chars: &[char]) -> (fields: Vec<Field>)
    ensures
        fields_view(fields@) == spec_extract_fields(chars@),
{
    let mut fields: Vec<Field> = Vec::new();
    let mut stack: Vec<(Vec<char>, Vec<char>, bool)> = Vec::new();
    let mut i: usize = 0;
    assert(fields_view(fields@) =~= seq![]);
    assert(frames_view(stack@) =~= seq![]);
    while i < chars.len()
        invariant
            i <= chars@.len(),
            frames_view(stack@) == scan_state(chars@.take(i as int)).0,
            fields_view(fields@) == scan_state(chars@.take(i as int)).1,
        decreases chars@.len() - i,
    {
        let c = chars[i];
        let ghost pre = chars@.take(i as int);
        let ghost st = scan_state(pre);
        let ghost old_stack = stack@;
        let ghost old_fields = fields@;
        assert(chars@.take(i + 1).drop_last() =~= pre);
        assert(chars@.take(i + 1).last() == c);
        if c == '\u{13}' {
            stack.push((Vec::new(), Vec::new(), false));
            assert(frames_view(stack@) =~= frames_view(old_stack).push((seq![], seq![], false)));
        } else if c == '\u{14}' {
            match stack.pop() {
                Some(top) => {
                    let (code, value, _) = top;
                    stack.push((code, value, true));
                    assert(frames_view(stack@) =~= st.0.update(st.0.len() - 1, (
                        st.0.last().0,
                        st.0.last().1,
                        true,
                    )));
                },
                None => {},
            }
        } else if c == '\u{15}' {
            match stack.pop() {
                Some(top) => {
                    let (code, value, seen) = top;
                    let f = close_frame(code.as_slice(), value.as_slice());
                    assert(f@ == field_of(st.0.last()));
                    fields.push(f);
                    assert(frames_view(stack@) =~= st.0.drop_last());
                    assert(fields_view(fields@) =~= fields_view(old_fields).push(f@));
                },
                None => {},
            }
        } else {
            match stack.pop() {
                Some(top) => {
                    let (mut code, mut value, seen) = top;
                    if seen {
                        value.push(c);
                    } else {
                        code.push(c);
                    }
                    stack.push((code, value, seen));
                    assert(frames_view(stack@) =~= scan_step(st, c).0);
                },
                None => {},
            }
        }
        i = i + 1;
    }
    assert(chars@.take(i as int) =~= chars@);
    fields
}

} // verus!
