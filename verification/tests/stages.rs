use cfb::CompoundFile;
use doc2text::cfb_recover::{name_matches, RawCfb};
use doc2text::clx::{parse_clx, PieceDescriptor};
use doc2text::fib::parse_fib;
use doc2text::markdown::generate_markdown;
use doc2text::papx::{map_cp_to_heading, parse_papx, ParagraphStyle};
use doc2text::styles::parse_stsh;
use doc2text::text::extract_text;
use std::collections::HashMap;
use std::io::{Cursor, Write};

fn build_doc(streams: &[(&str, Vec<u8>)]) -> Vec<u8> {
    let mut cfb = CompoundFile::create(Cursor::new(Vec::new())).unwrap();
    for (name, content) in streams {
        let mut stream = cfb.create_stream(format!("/{name}")).unwrap();
        stream.write_all(content).unwrap();
        stream.flush().unwrap();
    }
    cfb.into_inner().into_inner()
}

fn put_u16(buf: &mut [u8], off: usize, v: u16) {
    buf[off..off + 2].copy_from_slice(&v.to_le_bytes());
}

fn put_u32(buf: &mut [u8], off: usize, v: u32) {
    buf[off..off + 4].copy_from_slice(&v.to_le_bytes());
}

// --- the fallback container reader -----------------------------------------

#[test]
fn raw_reader_lists_and_reads_streams() {
    let big = vec![7u8; 5000];
    let data = build_doc(&[("WordDocument", vec![1u8; 1024]), ("Data", big.clone())]);
    let raw = RawCfb::parse(&data).unwrap();
    let mut list = raw.stream_list();
    list.sort();
    assert_eq!(
        list,
        vec![("Data".to_string(), 5000), ("WordDocument".to_string(), 1024)]
    );
    assert_eq!(raw.read_by_name("worddocument").unwrap(), vec![1u8; 1024]);
    assert_eq!(raw.read_by_name(" DATA\u{0}").unwrap(), big);
    assert!(raw.read_by_name("1Table").is_none());
}

#[test]
fn raw_reader_rejects_short_data() {
    let err = RawCfb::parse(&[0u8; 100]).err().unwrap().message();
    assert_eq!(err, "File is too small to be an OLE2 container (100 bytes)");
}

#[test]
fn raw_reader_rejects_a_bad_signature() {
    let err = RawCfb::parse(&[0u8; 600]).err().unwrap().message();
    assert_eq!(err, "Not an OLE2/CFB container (bad signature)");
}

#[test]
fn raw_reader_rejects_bad_sector_sizes() {
    let mut data = build_doc(&[("WordDocument", vec![1u8; 16])]);
    put_u16(&mut data, 30, 8);
    let err = RawCfb::parse(&data).err().unwrap().message();
    assert_eq!(err, "Unsupported OLE2 sector size (1 << 8)");
    let mut data = build_doc(&[("WordDocument", vec![1u8; 16])]);
    put_u16(&mut data, 32, 1);
    let err = RawCfb::parse(&data).err().unwrap().message();
    assert_eq!(err, "Unsupported OLE2 mini sector size (1 << 1)");
}

#[test]
fn raw_reader_needs_a_fat() {
    let mut data = build_doc(&[("WordDocument", vec![1u8; 16])]);
    for i in 0..109 {
        put_u32(&mut data, 76 + i * 4, 0xFFFF_FFFF);
    }
    put_u32(&mut data, 68, 0xFFFF_FFFE);
    let err = RawCfb::parse(&data).err().unwrap().message();
    assert_eq!(err, "OLE2 container has no readable FAT");
}

#[test]
fn raw_entry_kinds() {
    let data = build_doc(&[("WordDocument", vec![1u8; 16])]);
    let raw = RawCfb::parse(&data).unwrap();
    assert_eq!(raw.stream_list(), vec![("WordDocument".to_string(), 16)]);
}

#[test]
fn names_match_ignoring_case_and_padding() {
    assert!(name_matches("WordDocument", "worddocument"));
    assert!(name_matches(" 1Table\u{0}", "1TABLE"));
    assert!(!name_matches("1Table", "0Table"));
    assert!(!name_matches("Tablé", "TABLÉ"));
    assert!(name_matches("", "\u{1}"));
}

// --- FIB ----------------------------------------------------------------------

fn fib_stream() -> Vec<u8> {
    let mut wd = vec![0u8; 1024];
    put_u16(&mut wd, 0, 0xA5EC);
    put_u16(&mut wd, 32, 0); // csw
    put_u16(&mut wd, 34, 22); // cslw
    let lw = 36;
    put_u32(&mut wd, lw + 12, 607);
    put_u32(&mut wd, lw + 16, 1);
    put_u32(&mut wd, lw + 20, 2);
    put_u32(&mut wd, lw + 28, 3);
    put_u32(&mut wd, lw + 32, 4);
    put_u32(&mut wd, lw + 36, 51);
    let fc = lw + 22 * 4 + 2;
    put_u32(&mut wd, fc + 8, 10);
    put_u32(&mut wd, fc + 12, 11);
    put_u32(&mut wd, fc + 104, 12);
    put_u32(&mut wd, fc + 108, 13);
    put_u32(&mut wd, fc + 264, 14);
    put_u32(&mut wd, fc + 268, 15);
    wd
}

#[test]
fn fib_fields_are_read_at_their_offsets() {
    let fib = parse_fib(&fib_stream()).unwrap();
    assert_eq!(fib.ccp_text, 607);
    assert_eq!(fib.ccp_ftn, 1);
    assert_eq!(fib.ccp_hdd, 2);
    assert_eq!(fib.ccp_atn, 3);
    assert_eq!(fib.ccp_edn, 4);
    assert_eq!(fib.ccp_txbx, 51);
    assert_eq!(fib.fc_stshf, 10);
    assert_eq!(fib.lcb_stshf, 11);
    assert_eq!(fib.fc_plcf_bte_papx, 12);
    assert_eq!(fib.lcb_plcf_bte_papx, 13);
    assert_eq!(fib.fc_clx, 14);
    assert_eq!(fib.lcb_clx, 15);
}

#[test]
fn fib_errors() {
    let err = parse_fib(&[0u8; 100]).err().unwrap().message();
    assert_eq!(err, "WordDocument stream too short for FIB");
    let mut wd = fib_stream();
    put_u16(&mut wd, 0, 0x1234);
    let err = parse_fib(&wd).err().unwrap().message();
    assert_eq!(err, "Invalid wIdent: expected 0xA5EC, got 0x1234");
}

// --- piece table -------------------------------------------------------------

fn clx_table() -> Vec<u8> {
    let mut t = vec![0x01, 2, 0, 0xAA, 0xBB, 0x02];
    t.extend_from_slice(&16u32.to_le_bytes());
    t.extend_from_slice(&0u32.to_le_bytes());
    t.extend_from_slice(&5u32.to_le_bytes());
    t.extend_from_slice(&[0, 0]);
    t.extend_from_slice(&(100u32 | (1 << 30)).to_le_bytes());
    t.extend_from_slice(&[0, 0]);
    t
}

#[test]
fn clx_pieces() {
    let t = clx_table();
    let pieces = parse_clx(&t, 0, t.len() as u32).unwrap();
    assert_eq!(pieces.len(), 1);
    assert_eq!(pieces[0].cp_start, 0);
    assert_eq!(pieces[0].cp_end, 5);
    assert_eq!(pieces[0].fc, 100);
    assert!(pieces[0].compressed);
}

#[test]
fn clx_errors() {
    let msg = |t: &[u8], fc: u32, lcb: u32| parse_clx(t, fc, lcb).err().unwrap().message();
    assert_eq!(msg(&[0x07], 0, 1), "Unexpected CLX marker: 0x07");
    assert_eq!(msg(&[0x01, 0x05], 0, 2), "Truncated PrcData");
    assert_eq!(msg(&[0x02, 1], 0, 2), "Truncated Pcdt header");
    assert_eq!(msg(&[0x01, 0x05, 0, 1], 0, 4), "Truncated Pcdt header");
    assert_eq!(msg(&[0x02], 1, 1), "CLX extends beyond table stream");
}

// --- text --------------------------------------------------------------------

#[test]
fn compressed_and_unicode_pieces() {
    let mut wd = vec![0u8; 64];
    wd[50..55].copy_from_slice(b"Hell\x80");
    let units: [u16; 3] = [0x48, 0xE9, 0xD800];
    for (i, u) in units.iter().enumerate() {
        put_u16(&mut wd, 10 + 2 * i, *u);
    }
    let pieces = vec![
        PieceDescriptor { cp_start: 0, cp_end: 5, fc: 100, compressed: true },
        PieceDescriptor { cp_start: 5, cp_end: 8, fc: 10, compressed: false },
    ];
    let chars = extract_text(&wd, &pieces).unwrap();
    let text: String = chars.iter().collect();
    assert_eq!(text, "Hell\u{20AC}H\u{e9}\u{FFFD}");
}

#[test]
fn pieces_outside_the_stream() {
    let wd = vec![0u8; 16];
    let compressed = vec![PieceDescriptor { cp_start: 0, cp_end: 10, fc: 20, compressed: true }];
    assert_eq!(
        extract_text(&wd, &compressed).err().unwrap().message(),
        "Compressed piece extends beyond WordDocument: offset 10, count 10, stream len 16"
    );
    let unicode = vec![PieceDescriptor { cp_start: 0, cp_end: 4, fc: 10, compressed: false }];
    assert_eq!(
        extract_text(&wd, &unicode).err().unwrap().message(),
        "Uncompressed piece extends beyond WordDocument: offset 10, count 8, stream len 16"
    );
}

// --- styles ------------------------------------------------------------------

#[test]
fn heading_styles() {
    let mut s = vec![0, 0];
    s.extend_from_slice(&[4, 0, 0, 0, 0, 0]); // istd 0: Normal
    s.extend_from_slice(&[4, 0, 1, 0, 0, 0]); // istd 1: Heading 1
    s.extend_from_slice(&[0, 0]); // istd 2: empty slot
    s.extend_from_slice(&[4, 0, 62, 0, 0, 0]); // istd 3: Title
    s.extend_from_slice(&[2, 0, 3, 0]); // istd 4: too short to read
    s.extend_from_slice(&[4, 0, 0x09, 0x10, 0, 0]); // istd 5: Heading 9 with flag bits
    let mut table = vec![0xEEu8; 3];
    table.extend_from_slice(&s);
    let map = parse_stsh(&table, 3, s.len() as u32).unwrap();
    let mut expected = HashMap::new();
    expected.insert(1u16, 1u8);
    expected.insert(3, 1);
    expected.insert(5, 9);
    assert_eq!(map, expected);
}

#[test]
fn style_sheet_errors() {
    assert_eq!(
        parse_stsh(&[0u8; 4], 2, 4).err().unwrap().message(),
        "STSH extends beyond table stream"
    );
    assert_eq!(parse_stsh(&[0u8; 4], 1, 1).err().unwrap().message(), "STSH too short");
}

// --- paragraph runs -----------------------------------------------------------

/// A WordDocument stream with one PapxFkp page at page number 1: the FC
/// boundaries of its runs, and each run's style index.
fn papx_stream(fcs: &[u32], istds: &[u16]) -> Vec<u8> {
    let mut wd = vec![0u8; 1024];
    let page = 512;
    let cpara = istds.len();
    for (j, fc) in fcs.iter().enumerate() {
        put_u32(&mut wd, page + j * 4, *fc);
    }
    for (j, istd) in istds.iter().enumerate() {
        let bx = (cpara + 1) * 4 + j * 13;
        let word = 100 + 4 * j as u8;
        wd[page + bx] = word;
        let at = word as usize * 2;
        wd[page + at] = 2;
        put_u16(&mut wd, page + at + 1, *istd);
    }
    wd[page + 511] = cpara as u8;
    wd
}

#[test]
fn paragraph_runs_are_sorted_by_fc() {
    let wd = papx_stream(&[300, 100, 300, 350], &[7, 1, 2]);
    let mut table = vec![0u8; 12];
    put_u32(&mut table, 8, 1);
    let runs = parse_papx(&table, &wd, 0, 12).unwrap();
    let got: Vec<(u32, u32, u16)> = runs.iter().map(|p| (p.fc_start, p.fc_end, p.istd)).collect();
    assert_eq!(got, vec![(100, 300, 1), (300, 100, 7), (300, 350, 2)]);
}

#[test]
fn paragraph_pages_outside_the_stream_are_skipped() {
    let wd = vec![0u8; 600];
    let mut table = vec![0u8; 12];
    put_u32(&mut table, 8, 5);
    assert!(parse_papx(&table, &wd, 0, 12).unwrap().is_empty());
    assert_eq!(
        parse_papx(&table, &wd, 4, 12).err().unwrap().message(),
        "PlcfBtePapx extends beyond table stream"
    );
}

#[test]
fn headings_land_on_their_cp() {
    let pieces = vec![
        PieceDescriptor { cp_start: 0, cp_end: 10, fc: 2000, compressed: true },
        PieceDescriptor { cp_start: 10, cp_end: 20, fc: 5000, compressed: false },
    ];
    let styles = vec![
        ParagraphStyle { fc_start: 1004, fc_end: 1005, istd: 1 },
        ParagraphStyle { fc_start: 5006, fc_end: 5010, istd: 2 },
        ParagraphStyle { fc_start: 1000, fc_end: 1004, istd: 0 },
    ];
    let mut hs = HashMap::new();
    hs.insert(1u16, 1u8);
    hs.insert(2u16, 3u8);
    let map = map_cp_to_heading(&pieces, &styles, &hs);
    let mut expected = HashMap::new();
    expected.insert(4u32, 1u8);
    expected.insert(13u32, 3u8);
    assert_eq!(map, expected);
}

// --- markdown -----------------------------------------------------------------

#[test]
fn markdown_headings_breaks_and_textboxes() {
    let body = "Title\rBody \u{1}text\u{c}next\r\r  \rtail";
    let boxes = "\rBox one \r\u{7}\r Box \x13 PAGE \x14two\x15";
    let text: Vec<char> = format!("{body}{boxes}").chars().collect();
    let n_body = body.chars().count() as u32;
    let n_boxes = boxes.chars().count() as u32;
    let mut headings = HashMap::new();
    headings.insert(0u32, 2u8);
    headings.insert(20u32, 1u8);
    let doc = generate_markdown(&text, n_body, 0, 0, 0, 0, n_boxes, &headings, true);
    assert_eq!(doc.body_text, "## Title\n\nBody text\n\n---\n\nnext\n\ntail\n\n");
    assert_eq!(doc.textboxes, vec!["Box one".to_string(), "Box two".to_string()]);
    assert!(doc.fields.is_empty());
}

#[test]
fn markdown_keeps_field_codes_when_asked() {
    let text: Vec<char> = "A \x13 PAGE \x141\x15\r".chars().collect();
    let doc = generate_markdown(&text, text.len() as u32, 0, 0, 0, 0, 0, &HashMap::new(), false);
    assert_eq!(doc.body_text, "A \x13 PAGE \x141\x15\n\n");
    assert_eq!(doc.fields.len(), 1);
    assert_eq!(doc.fields[0].field_type, "PAGE");
    assert_eq!(doc.fields[0].value, "1");
    let doc = generate_markdown(&text, text.len() as u32, 0, 0, 0, 0, 0, &HashMap::new(), true);
    assert_eq!(doc.body_text, "A 1\n\n");
}

#[test]
fn markdown_counts_past_the_text_are_clamped() {
    let text: Vec<char> = "one\rtwo".chars().collect();
    let doc = generate_markdown(&text, 1000, 0, 0, 0, 0, 10, &HashMap::new(), true);
    assert_eq!(doc.body_text, "one\n\ntwo\n\n");
    assert!(doc.textboxes.is_empty());
}

#[test]
fn stripping_without_field_marks_changes_nothing() {
    let text: Vec<char> = "Intro\r\u{7}cell\u{c}after\rbox one\rbox two".chars().collect();
    let mut headings = HashMap::new();
    headings.insert(0u32, 1u8);
    let a = generate_markdown(&text, 18, 0, 0, 0, 0, 15, &headings, true);
    let b = generate_markdown(&text, 18, 0, 0, 0, 0, 15, &headings, false);
    assert_eq!(a.body_text, b.body_text);
    assert_eq!(a.body_text, "# Intro\n\ncell\n\n---\n\nafter\n\n");
    assert_eq!(a.textboxes, b.textboxes);
    assert_eq!(a.textboxes, vec!["box one".to_string(), "box two".to_string()]);
}

#[test]
fn fields_do_not_depend_on_stripping() {
    let text: Vec<char> = "A \x13 DATE \x14 today \x15 B\r".chars().collect();
    let n = text.len() as u32;
    let a = generate_markdown(&text, n, 0, 0, 0, 0, 0, &HashMap::new(), true);
    let b = generate_markdown(&text, n, 0, 0, 0, 0, 0, &HashMap::new(), false);
    assert_eq!(a.fields.len(), 1);
    assert_eq!(b.fields.len(), 1);
    assert_eq!(a.fields[0].field_type, b.fields[0].field_type);
    assert_eq!(a.fields[0].value, "today");
    assert_eq!(b.fields[0].value, "today");
    assert_ne!(a.body_text, b.body_text);
}

#[test]
fn eight_bit_pieces_are_windows_1252() {
    let mut wd = vec![0u8; 16];
    wd[0..6].copy_from_slice(&[0x93, b'a', 0x94, 0x81, 0x9F, 0xE9]);
    let pieces = vec![PieceDescriptor { cp_start: 0, cp_end: 6, fc: 0, compressed: true }];
    let text: String = extract_text(&wd, &pieces).unwrap().iter().collect();
    assert_eq!(text, "\u{201C}a\u{201D}\u{81}\u{178}\u{e9}");
}

#[test]
fn eight_bit_piece_opening_with_a_byte_order_mark() {
    let mut wd = vec![0u8; 16];
    wd[0..4].copy_from_slice(&[0xEF, 0xBB, 0xBF, b'A']);
    let pieces = vec![PieceDescriptor { cp_start: 0, cp_end: 4, fc: 0, compressed: true }];
    let text: String = extract_text(&wd, &pieces).unwrap().iter().collect();
    assert_eq!(text, "A");
}

#[test]
fn heading_ended_by_a_page_break_keeps_its_marker() {
    let text: Vec<char> = "Title\u{c}".chars().collect();
    let mut headings = HashMap::new();
    headings.insert(0u32, 1u8);
    let doc = generate_markdown(&text, text.len() as u32, 0, 0, 0, 0, 0, &headings, true);
    assert_eq!(doc.body_text, "# Title\n\n---\n\n");
}

#[test]
fn every_listed_stream_is_found_by_name() {
    let data = build_doc(&[
        ("WordDocument", vec![1u8; 700]),
        ("1Table", vec![2u8; 10]),
        ("Data", vec![3u8; 4100]),
    ]);
    let raw = RawCfb::parse(&data).unwrap();
    let list = raw.stream_list();
    assert_eq!(list.len(), 3);
    for (name, size) in &list {
        let bytes = raw.read_by_name(name).unwrap();
        assert_eq!(bytes.len() as u64, *size);
    }
}

#[test]
fn clx_after_several_prc_blocks() {
    let mut t = vec![0x01, 1, 0, 0xAA, 0x01, 3, 0, 1, 2, 3, 0x02];
    t.extend_from_slice(&28u32.to_le_bytes());
    for cp in [0u32, 4, 9] {
        t.extend_from_slice(&cp.to_le_bytes());
    }
    t.extend_from_slice(&[0, 0]);
    t.extend_from_slice(&(200u32 | (1 << 30)).to_le_bytes());
    t.extend_from_slice(&[0, 0]);
    t.extend_from_slice(&[0, 0]);
    t.extend_from_slice(&0x0000_1000u32.to_le_bytes());
    t.extend_from_slice(&[0, 0]);
    let pieces = parse_clx(&t, 0, t.len() as u32).unwrap();
    assert_eq!(pieces.len(), 2);
    assert_eq!((pieces[0].cp_start, pieces[0].cp_end, pieces[0].fc, pieces[0].compressed), (0, 4, 200, true));
    assert_eq!((pieces[1].cp_start, pieces[1].cp_end, pieces[1].fc, pieces[1].compressed), (4, 9, 0x1000, false));
}

#[test]
fn text_length_is_the_sum_of_the_pieces() {
    let mut wd = vec![b'a'; 64];
    wd[40..44].copy_from_slice(&[0x41, 0, 0x42, 0]);
    let pieces = vec![
        PieceDescriptor { cp_start: 0, cp_end: 3, fc: 20, compressed: true },
        PieceDescriptor { cp_start: 3, cp_end: 5, fc: 40, compressed: false },
    ];
    let chars = extract_text(&wd, &pieces).unwrap();
    assert_eq!(chars.len(), 5);
    assert_eq!(chars.iter().collect::<String>(), "aaaAB");
}

#[test]
fn markdown_body_has_no_breaks_left() {
    let text: Vec<char> = "one\r\u{c}two\r\rthree\u{c}".chars().collect();
    let doc = generate_markdown(&text, text.len() as u32, 0, 0, 0, 0, 0, &HashMap::new(), false);
    assert!(!doc.body_text.contains(['\r', '\u{c}']));
    assert_eq!(doc.body_text, "one\n\n---\n\ntwo\n\nthree\n\n---\n\n");
}

#[test]
fn raw_reader_decodes_surrogate_pairs_in_names() {
    let data = build_doc(&[("A\u{1F600}b", vec![5u8; 8])]);
    let raw = RawCfb::parse(&data).unwrap();
    let list = raw.stream_list();
    assert_eq!(list, vec![("A\u{1F600}b".to_string(), 8)]);
    assert_eq!(raw.read_by_name("a\u{1F600}B").unwrap(), vec![5u8; 8]);
}

#[test]
fn heading_in_an_eight_bit_piece_is_keyed_by_its_byte_offset() {
    let pieces = vec![PieceDescriptor { cp_start: 7, cp_end: 20, fc: 3000, compressed: true }];
    let styles = vec![ParagraphStyle { fc_start: 1505, fc_end: 1510, istd: 4 }];
    let mut hs = HashMap::new();
    hs.insert(4u16, 2u8);
    let map = map_cp_to_heading(&pieces, &styles, &hs);
    let mut expected = HashMap::new();
    expected.insert(12u32, 2u8);
    assert_eq!(map, expected);
}
