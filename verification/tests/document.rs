use cfb::CompoundFile;
use doc2text::{parse_doc, parse_doc_with_options, try_parse_doc};
use std::io::{Cursor, Write};

fn put_u16(buf: &mut [u8], off: usize, v: u16) {
    buf[off..off + 2].copy_from_slice(&v.to_le_bytes());
}

fn put_u32(buf: &mut [u8], off: usize, v: u32) {
    buf[off..off + 4].copy_from_slice(&v.to_le_bytes());
}

const BODY: &str = "Title\rIntro \x13 PAGE \x142\x15 text\rSub\rEnd";
const BOXES: &str = "Box A\rBox B";

/// A small Word 97 document: a body with a level-1 and a level-2 heading,
/// a field, and two textboxes, all in one 8-bit piece.
fn sample_doc() -> Vec<u8> {
    let text: Vec<u8> = format!("{BODY}{BOXES}").bytes().collect();
    let n_body = BODY.len() as u32;
    let n_boxes = BOXES.len() as u32;
    let n = text.len() as u32;

    let mut wd = vec![0u8; 2048];
    put_u16(&mut wd, 0, 0xA5EC);
    put_u16(&mut wd, 2, 193);
    put_u16(&mut wd, 10, 1 << 9);
    put_u16(&mut wd, 32, 0);
    put_u16(&mut wd, 34, 22);
    let lw = 36;
    put_u32(&mut wd, lw + 12, n_body);
    put_u32(&mut wd, lw + 36, n_boxes);
    let fc = lw + 22 * 4 + 2;
    put_u32(&mut wd, fc + 264, 0); // fcClx
    put_u32(&mut wd, fc + 268, 26); // lcbClx
    put_u32(&mut wd, fc + 8, 32); // fcStshf
    put_u32(&mut wd, fc + 12, 20); // lcbStshf
    put_u32(&mut wd, fc + 104, 64); // fcPlcfBtePapx
    put_u32(&mut wd, fc + 108, 12); // lcbPlcfBtePapx
    wd[1024..1024 + text.len()].copy_from_slice(&text);

    // One PapxFkp page (page number 3): the title, the intro, the subtitle,
    // each run starting at the byte offset of its first character.
    let page = 1536;
    let sub = BODY.find("Sub").unwrap() as u32;
    let end = BODY.find("End").unwrap() as u32;
    let intro = BODY.find("Intro").unwrap() as u32;
    let fcs = [1024, 1024 + intro, 1024 + sub, 1024 + end];
    let istds = [1u16, 0, 2];
    for (j, v) in fcs.iter().enumerate() {
        put_u32(&mut wd, page + j * 4, *v);
    }
    for (j, istd) in istds.iter().enumerate() {
        let bx = (istds.len() + 1) * 4 + j * 13;
        let word = 100 + 4 * j as u8;
        wd[page + bx] = word;
        let at = word as usize * 2;
        wd[page + at] = 2;
        put_u16(&mut wd, page + at + 1, *istd);
    }
    wd[page + 511] = istds.len() as u8;

    let mut table = vec![0u8; 128];
    // CLX: a Pcdt with one piece, compressed text at byte 1024.
    table[0] = 0x02;
    put_u32(&mut table, 1, 16);
    put_u32(&mut table, 5, 0);
    put_u32(&mut table, 9, n);
    put_u32(&mut table, 15, (1024 * 2) | (1 << 30));
    // STSH at 32: Normal, Heading 1, Heading 2.
    let stsh = [0u8, 0, 4, 0, 0, 0, 0, 0, 4, 0, 1, 0, 0, 0, 4, 0, 2, 0, 0, 0];
    table[32..52].copy_from_slice(&stsh);
    // PlcBtePapx at 64: one page, number 3.
    put_u32(&mut table, 72, 3);

    let mut cfb = CompoundFile::create(Cursor::new(Vec::new())).unwrap();
    for (name, content) in [("WordDocument", wd), ("1Table", table)] {
        let mut stream = cfb.create_stream(format!("/{name}")).unwrap();
        stream.write_all(&content).unwrap();
        stream.flush().unwrap();
    }
    cfb.into_inner().into_inner()
}

#[test]
fn test_invalid_file() {
    let result = parse_doc(b"not a doc file");
    assert!(result.is_err());
}

#[test]
fn converts_a_whole_document() {
    let doc = parse_doc(&sample_doc()).unwrap();
    assert_eq!(doc.body_text, "# Title\n\nIntro 2 text\n\n## Sub\n\nEnd\n\n");
    assert_eq!(doc.textboxes, vec!["Box A".to_string(), "Box B".to_string()]);
    assert_eq!(doc.fields.len(), 1);
    assert_eq!(doc.fields[0].field_type, "PAGE");
    assert_eq!(doc.fields[0].name, "");
    assert_eq!(doc.fields[0].value, "2");
}

#[test]
fn field_codes_are_kept_on_request() {
    let doc = parse_doc_with_options(&sample_doc(), false).unwrap();
    assert_eq!(doc.body_text, "# Title\n\nIntro \x13 PAGE \x142\x15 text\n\n## Sub\n\nEnd\n\n");
}

#[test]
fn checked_conversion_agrees() {
    let data = sample_doc();
    let doc = try_parse_doc(&data).unwrap().unwrap();
    assert_eq!(doc.body_text, parse_doc(&data).unwrap().body_text);
    assert!(try_parse_doc(b"junk").unwrap().is_err());
}

#[test]
fn output_holds_no_control_or_marker_characters() {
    let doc = parse_doc(&sample_doc()).unwrap();
    let full = format!("{}{}", doc.body_text, doc.textboxes.join(""));
    for c in full.chars() {
        assert!(!matches!(c, '\x01' | '\x07' | '\x08' | '\x13' | '\x14' | '\x15'));
    }
}
