use doc2text::fields::{extract_fields, parse_field_code, strip_field_codes};

#[test]
fn test_simple_field() {
    // \x13 DOCVARIABLE Foo \x14 bar \x15
    let chars: Vec<char> = "\x13 DOCVARIABLE Foo \x14bar\x15".chars().collect();
    let fields = extract_fields(&chars);
    assert_eq!(fields.len(), 1);
    assert_eq!(fields[0].field_type, "DOCVARIABLE");
    assert_eq!(fields[0].name, "Foo");
    assert_eq!(fields[0].value, "bar");
}

#[test]
fn test_field_without_separator() {
    let chars: Vec<char> = "\x13 PAGE \x15".chars().collect();
    let fields = extract_fields(&chars);
    assert_eq!(fields.len(), 1);
    assert_eq!(fields[0].field_type, "PAGE");
    assert_eq!(fields[0].name, "");
    assert_eq!(fields[0].value, "");
}

#[test]
fn test_nested_fields() {
    // outer contains inner
    let chars: Vec<char> = "\x13 IF \x13 MERGEFIELD X \x14val\x15 \x14result\x15"
        .chars()
        .collect();
    let fields = extract_fields(&chars);
    assert_eq!(fields.len(), 2);
    // Inner field extracted first
    assert_eq!(fields[0].field_type, "MERGEFIELD");
    assert_eq!(fields[0].name, "X");
    assert_eq!(fields[0].value, "val");
    // Outer field
    assert_eq!(fields[1].field_type, "IF");
}

#[test]
fn test_adjacent_fields() {
    let chars: Vec<char> = "\x13 PAGE \x14 1 \x15\x13 DATE \x14 2025 \x15"
        .chars()
        .collect();
    let fields = extract_fields(&chars);
    assert_eq!(fields.len(), 2);
    assert_eq!(fields[0].field_type, "PAGE");
    assert_eq!(fields[0].value, "1");
    assert_eq!(fields[1].field_type, "DATE");
    assert_eq!(fields[1].value, "2025");
}

#[test]
fn test_strip_simple() {
    let chars: Vec<char> = "Hello \x13 PAGE \x14 5 \x15 world".chars().collect();
    let result = strip_field_codes(&chars);
    assert_eq!(result, "Hello  5  world");
}

#[test]
fn test_strip_no_separator() {
    let chars: Vec<char> = "Hello \x13 PAGE \x15 world".chars().collect();
    let result = strip_field_codes(&chars);
    assert_eq!(result, "Hello  world");
}

#[test]
fn test_strip_nested() {
    let chars: Vec<char> = "A\x13 IF \x13 X \x14v\x15 \x14result\x15B"
        .chars()
        .collect();
    let result = strip_field_codes(&chars);
    assert_eq!(result, "AresultB");
}

#[test]
fn test_strip_no_fields() {
    let chars: Vec<char> = "plain text".chars().collect();
    let result = strip_field_codes(&chars);
    assert_eq!(result, "plain text");
}

#[test]
fn test_parse_field_code_with_switches() {
    let (ft, name) = parse_field_code(" DOCVARIABLE MYVAR \\* MERGEFORMAT");
    assert_eq!(ft, "DOCVARIABLE");
    assert_eq!(name, "MYVAR");
}

#[test]
fn field_type_is_upper_cased() {
    let (ft, name) = parse_field_code(" mergefield Name \\* MERGEFORMAT");
    assert_eq!(ft, "MERGEFIELD");
    assert_eq!(name, "Name");
}

#[test]
fn braces_and_switches_are_not_tokens() {
    let (ft, name) = parse_field_code("{ \\b REF  Target }");
    assert_eq!(ft, "REF");
    assert_eq!(name, "Target");
}

#[test]
fn empty_field_code_has_empty_type_and_name() {
    let (ft, name) = parse_field_code("   ");
    assert_eq!(ft, "");
    assert_eq!(name, "");
}

#[test]
fn unmatched_markers_are_harmless() {
    let chars: Vec<char> = "a\x15b\x14c".chars().collect();
    assert!(extract_fields(&chars).is_empty());
    assert_eq!(strip_field_codes(&chars), "abc");
}

#[test]
fn unterminated_field_yields_no_field() {
    let chars: Vec<char> = "x\x13 PAGE \x14 3".chars().collect();
    assert!(extract_fields(&chars).is_empty());
    assert_eq!(strip_field_codes(&chars), "x 3");
}

#[test]
fn stripped_text_holds_no_field_marker() {
    let chars: Vec<char> = "\x13a\x14b\x13c\x15d\x15\x14e\x15".chars().collect();
    let out = strip_field_codes(&chars);
    assert!(!out.contains(['\x13', '\x14', '\x15']));
    assert_eq!(out, "bde");
}

#[test]
fn stripped_text_is_a_subsequence() {
    let chars: Vec<char> = "A\x13 X \x14yz\x15B\x13 NOSEP \x15C".chars().collect();
    let out: Vec<char> = strip_field_codes(&chars).chars().collect();
    assert_eq!(out.iter().collect::<String>(), "AyzBC");
    let mut pos = 0;
    for c in &out {
        while chars[pos] != *c {
            pos += 1;
        }
        pos += 1;
    }
}

#[test]
fn one_field_per_closing_mark_and_value_only_after_own_separator() {
    let chars: Vec<char> = "\x15\x13 A \x13 B \x15 inner \x15\x13 C \x14 v \x15\x13 open".chars().collect();
    let fields = extract_fields(&chars);
    assert_eq!(fields.len(), 3);
    assert_eq!(fields[0].field_type, "B");
    assert_eq!(fields[0].value, "");
    assert_eq!(fields[1].field_type, "A");
    assert_eq!(fields[1].value, "");
    assert_eq!(fields[2].field_type, "C");
    assert_eq!(fields[2].value, "v");
}

#[test]
fn ascii_field_types_are_capitals() {
    let (t, n) = parse_field_code(" hyperlink \\l target ");
    assert_eq!(t, "HYPERLINK");
    assert_eq!(n, "target");
    assert_eq!(t.to_uppercase(), t);
}
