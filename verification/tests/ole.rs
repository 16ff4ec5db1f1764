use cfb::CompoundFile;
use doc2text::ole::{inspect, read_ole_streams};
use std::io::{Cursor, Write};

/// Build a minimal OLE2 file containing the given streams.
fn build_doc(streams: &[(&str, Vec<u8>)]) -> Vec<u8> {
    let mut cfb = CompoundFile::create(Cursor::new(Vec::new())).unwrap();
    for (name, content) in streams {
        let mut stream = cfb.create_stream(format!("/{name}")).unwrap();
        stream.write_all(content).unwrap();
        stream.flush().unwrap();
    }
    cfb.into_inner().into_inner()
}

/// A WordDocument stream long enough to hold a FIB header.
fn word_document(w_ident: u16, n_fib: u16, flags: u16) -> Vec<u8> {
    let mut wd = vec![0u8; 1024];
    wd[0..2].copy_from_slice(&w_ident.to_le_bytes());
    wd[2..4].copy_from_slice(&n_fib.to_le_bytes());
    wd[10..12].copy_from_slice(&flags.to_le_bytes());
    wd
}

fn word97(flags: u16) -> Vec<u8> {
    word_document(0xA5EC, 193, flags)
}

/// Swap the sibling pointers of a directory entry so that the red-black
/// descent used by `cfb` walks the wrong way, as happens with files
/// written by non-Microsoft tools. Every entry stays reachable by a
/// linear scan.
fn break_directory_sort(data: &mut [u8], entry_names: &[&str]) {
    const NO_STREAM: u32 = 0xFFFF_FFFF;
    for name in entry_names {
        let needle: Vec<u8> = name.encode_utf16().flat_map(|u| u.to_le_bytes()).collect();
        let start = data
            .windows(needle.len())
            .position(|w| w == needle)
            .expect("directory entry not found");
        let left = u32::from_le_bytes(data[start + 68..start + 72].try_into().unwrap());
        let right = u32::from_le_bytes(data[start + 72..start + 76].try_into().unwrap());
        if left == NO_STREAM && right == NO_STREAM {
            continue; // leaf: swapping would change nothing
        }
        data[start + 68..start + 72].copy_from_slice(&right.to_le_bytes());
        data[start + 72..start + 76].copy_from_slice(&left.to_le_bytes());
        return;
    }
    panic!("no directory entry with siblings to swap");
}

#[test]
fn reads_the_table_stream_named_by_the_fib() {
    let data = build_doc(&[
        ("WordDocument", word97(1 << 9)),
        ("1Table", b"one".to_vec()),
        ("0Table", b"zero".to_vec()),
    ]);
    let streams = read_ole_streams(&data).unwrap();
    assert_eq!(streams.table, b"one");
    assert_eq!(streams.word_document.len(), 1024);
}

#[test]
fn falls_back_to_the_other_table_stream() {
    // fWhichTblStm asks for 0Table, but the file only has 1Table.
    let data = build_doc(&[("WordDocument", word97(0)), ("1Table", b"one".to_vec())]);
    let streams = read_ole_streams(&data).unwrap();
    assert_eq!(streams.table, b"one");
}

#[test]
fn recovers_streams_from_an_unsorted_directory() {
    let mut data = build_doc(&[
        ("WordDocument", word97(1 << 9)),
        ("1Table", b"one".to_vec()),
    ]);
    break_directory_sort(&mut data, &["WordDocument", "1Table"]);

    // The cfb crate rejects the container outright...
    assert!(
        CompoundFile::open(Cursor::new(&data[..])).is_err(),
        "the test file is not actually broken"
    );

    // ...but we still read the document.
    let streams = read_ole_streams(&data).unwrap();
    assert_eq!(streams.table, b"one");
    assert_eq!(streams.word_document.len(), 1024);

    let report = inspect(&data).unwrap();
    assert!(report.notes.iter().any(|n| n.contains("not sorted")));
}

#[test]
fn recovers_a_large_stream_from_an_unsorted_directory() {
    // Streams above the mini-stream cutoff live in the main FAT.
    let big = vec![0x42u8; 10_000];
    let mut data = build_doc(&[("WordDocument", word97(1 << 9)), ("1Table", big.clone())]);
    break_directory_sort(&mut data, &["WordDocument", "1Table"]);
    let streams = read_ole_streams(&data).unwrap();
    assert_eq!(streams.table, big);
}

#[test]
fn reports_word6_documents_clearly() {
    let data = build_doc(&[("WordDocument", word_document(0xA5DC, 104, 0))]);
    let err = read_ole_streams(&data).unwrap_err().message();
    assert!(err.contains("Word 6.0/95"), "{err}");
}

#[test]
fn reports_a_missing_table_stream_with_the_stream_listing() {
    let data = build_doc(&[("WordDocument", word97(1 << 9)), ("Data", b"x".to_vec())]);
    let err = read_ole_streams(&data).unwrap_err().message();
    assert!(err.contains("Neither the 1Table nor the 0Table"), "{err}");
    assert!(err.contains("/Data"), "{err}");
}

#[test]
fn reports_encrypted_documents() {
    let data = build_doc(&[
        ("WordDocument", word97(1 << 8 | 1 << 9)),
        ("1Table", b"one".to_vec()),
    ]);
    let err = read_ole_streams(&data).unwrap_err().message();
    assert!(err.contains("encrypted"), "{err}");
}

#[test]
fn reports_a_container_without_a_word_document_stream() {
    let data = build_doc(&[("Book", b"xls?".to_vec())]);
    let err = read_ole_streams(&data).unwrap_err().message();
    assert!(err.contains("No WordDocument stream"), "{err}");
    assert!(err.contains("/Book"), "{err}");
}

#[test]
fn finds_a_word_document_stream_inside_a_storage() {
    let mut cfb = CompoundFile::create(Cursor::new(Vec::new())).unwrap();
    cfb.create_storage("/ObjectPool").unwrap();
    for (name, content) in [
        ("WordDocument", word97(1 << 9)),
        ("1Table", b"one".to_vec()),
    ] {
        let mut stream = cfb.create_stream(format!("/ObjectPool/{name}")).unwrap();
        stream.write_all(&content).unwrap();
        stream.flush().unwrap();
    }
    let data = cfb.into_inner().into_inner();

    let streams = read_ole_streams(&data).unwrap();
    assert_eq!(streams.table, b"one");
}

#[test]
fn inspection_lists_streams_and_fib_fields() {
    let data = build_doc(&[
        ("WordDocument", word97(1 << 9)),
        ("1Table", b"one".to_vec()),
    ]);
    let report = inspect(&data).unwrap().render();
    assert!(report.contains("/WordDocument (1024 bytes)"), "{report}");
    assert!(report.contains("nFib=193"), "{report}");
    assert!(
        report.contains("fWhichTblStm=1 (expects 1Table)"),
        "{report}"
    );
}

#[test]
fn inspection_report_is_exact() {
    let data = build_doc(&[
        ("WordDocument", word_document(0xA5EC, 257, 0x12F4)),
        ("1Table", b"one".to_vec()),
    ]);
    let report = inspect(&data).unwrap().render();
    assert_eq!(
        report,
        "Streams:\n  /1Table (3 bytes)\n  /WordDocument (1024 bytes)\n\
         FIB: wIdent=0xA5EC nFib=257 (Word 2002)\n     flags=0x12F4 fComplex=true \
         fEncrypted=false fWhichTblStm=1 (expects 1Table)\n"
    );
}

#[test]
fn inspection_notes_word6_and_missing_tables() {
    let data = build_doc(&[("WordDocument", word_document(0xA5DC, 104, 0))]);
    let report = inspect(&data).unwrap();
    assert_eq!(
        report.notes,
        vec!["Word 6.0/95 format: unword only supports Word 97 and later".to_string()]
    );
    let data = build_doc(&[("WordDocument", word97(0)), ("1Table", b"one".to_vec())]);
    let report = inspect(&data).unwrap();
    assert_eq!(
        report.notes,
        vec!["the 0Table stream requested by the FIB is missing".to_string()]
    );
}

#[test]
fn inspection_without_word_document() {
    let data = build_doc(&[("Book", b"xls?".to_vec())]);
    let report = inspect(&data).unwrap();
    assert!(report.fib.is_none());
    assert_eq!(report.notes, vec!["no WordDocument stream in this container".to_string()]);
    let text = report.render();
    assert!(text.contains("FIB: unreadable\n"), "{text}");
}

#[test]
fn short_word_document_is_reported_with_its_length() {
    let data = build_doc(&[("WordDocument", vec![0u8; 5]), ("1Table", b"one".to_vec())]);
    let err = read_ole_streams(&data).unwrap_err().message();
    assert_eq!(err, "WordDocument stream is too short (5 bytes)");
}

#[test]
fn garbage_is_not_a_container() {
    let err = read_ole_streams(b"not a doc file").unwrap_err().message();
    assert_eq!(err, "Failed to open OLE2 container");
    assert!(inspect(b"not a doc file").is_err());
}

#[test]
fn word6_message_is_exact() {
    let data = build_doc(&[("WordDocument", word_document(0xA5DC, 104, 0))]);
    let err = read_ole_streams(&data).unwrap_err().message();
    assert!(err.starts_with("This is a Word 6.0/95 document (wIdent=0xA5DC, nFib=104), "), "{err}");
}

#[test]
fn fib_header_flags_and_versions() {
    let data = build_doc(&[
        ("WordDocument", word_document(0xA5EC, 268, (1 << 2) | (1 << 9))),
        ("1Table", b"one".to_vec()),
    ]);
    let fib = inspect(&data).unwrap().fib.unwrap();
    assert!(fib.f_complex());
    assert!(!fib.f_encrypted());
    assert_eq!(fib.which_table(), 1);
    assert_eq!(fib.table_name(), "1Table");
    assert!(!fib.is_word6());
    assert_eq!(fib.version_name(), "Word 2003");
}

#[test]
fn inspection_ignores_everything_past_the_fib_header() {
    let mut other = word97(1 << 9);
    for b in other[12..].iter_mut() {
        *b = b'x';
    }
    let plain = build_doc(&[("WordDocument", word97(1 << 9)), ("1Table", b"one".to_vec())]);
    let filled = build_doc(&[("WordDocument", other), ("1Table", b"one".to_vec())]);
    let a = inspect(&plain).unwrap();
    let b = inspect(&filled).unwrap();
    assert_eq!(a.render(), b.render());
    assert!(!b.render().contains("xxxx"));
}

#[test]
fn inspection_notes_what_reading_refuses() {
    let data = build_doc(&[
        ("WordDocument", word97(1 << 8 | 1 << 9)),
        ("1Table", b"one".to_vec()),
    ]);
    assert!(read_ole_streams(&data).is_err());
    let report = inspect(&data).unwrap();
    assert_eq!(report.notes, vec!["the document is encrypted (fEncrypted)".to_string()]);
    let data = build_doc(&[("WordDocument", word97(1 << 9)), ("1Table", b"one".to_vec())]);
    let streams = read_ole_streams(&data).unwrap();
    let fib = inspect(&data).unwrap().fib.unwrap();
    assert_eq!(fib.flags, u16::from_le_bytes([streams.word_document[10], streams.word_document[11]]));
    assert_eq!(fib.n_fib, 193);
}
