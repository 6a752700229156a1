use acpi::error::AmlError;
use acpi::name::{is_digit_char, is_lead_name_char, is_name_char, matches_byte, resolve_path};
use acpi::parser::AmlParser;
use acpi::stream::AmlStream;

fn parser(data: &[u8]) -> AmlParser<'_> {
    AmlParser::new(b"\\".to_vec(), AmlStream::new(data))
}

#[test]
fn char_classes() {
    assert!(is_lead_name_char(b'A'));
    assert!(is_lead_name_char(b'_'));
    assert!(!is_lead_name_char(b'0'));
    assert!(!is_lead_name_char(b'a'));
    assert!(is_digit_char(b'7'));
    assert!(is_name_char(b'9'));
    assert!(is_name_char(b'Z'));
    assert!(!is_name_char(b'-'));
    assert!(matches_byte(0x10, 0x10));
    assert!(!matches_byte(0x10, 0x11));
}

#[test]
fn resolve_relative_name_in_scope() {
    assert_eq!(resolve_path(b"\\_SB_", b"DEV0".to_vec()), Ok(b"\\_SB_DEV0".to_vec()));
}

#[test]
fn resolve_parent_pop() {
    assert_eq!(resolve_path(b"\\_SB_", b"^DEV0".to_vec()), Ok(b"\\DEV0".to_vec()));
    assert_eq!(resolve_path(b"\\_SB_PCI0", b"^DEV0".to_vec()), Ok(b"\\_SB_DEV0".to_vec()));
}

#[test]
fn resolve_pop_past_root_fails() {
    assert_eq!(
        resolve_path(b"\\_SB_", b"^^DEV0".to_vec()),
        Err(AmlError::InvalidPath(b"^^DEV0".to_vec()))
    );
    assert_eq!(
        resolve_path(b"\\", b"^DEV0".to_vec()),
        Err(AmlError::InvalidPath(b"^DEV0".to_vec()))
    );
}

#[test]
fn resolve_absolute_name_unchanged() {
    assert_eq!(resolve_path(b"\\_SB_", b"\\_GPE".to_vec()), Ok(b"\\_GPE".to_vec()));
}

#[test]
fn name_string_root() {
    let data = [b'\\', b'A', b'B', b'C', b'D', 0xff];
    let mut p = parser(&data);
    assert_eq!(p.parse_name_string(), Ok(b"\\ABCD".to_vec()));
    assert_eq!(p.stream().offset(), 5);
}

#[test]
fn name_string_parent_prefixes() {
    let data = [b'^', b'^', b'_', b'X', b'1', b'2'];
    let mut p = parser(&data);
    assert_eq!(p.parse_name_string(), Ok(b"^^_X12".to_vec()));
    assert_eq!(p.stream().offset(), 6);
}

#[test]
fn name_path_dual() {
    let data = [0x2e, b'_', b'S', b'B', b'_', b'P', b'C', b'I', b'0'];
    let mut p = parser(&data);
    assert_eq!(p.parse_name_path(), Ok(b"_SB_PCI0".to_vec()));
    assert_eq!(p.stream().offset(), 9);
}

#[test]
fn name_path_null() {
    let data = [0x00u8];
    let mut p = parser(&data);
    assert_eq!(p.parse_name_path(), Ok(Vec::new()));
    assert_eq!(p.stream().offset(), 1);
}

#[test]
fn name_path_multi_not_supported() {
    let data = [0x2fu8, 3];
    let mut p = parser(&data);
    assert_eq!(p.parse_name_path(), Err(AmlError::NotYetSupported));
}

#[test]
fn name_seg_rejects_bad_characters() {
    let data = [b'1', b'A', b'B', b'C'];
    assert_eq!(parser(&data).parse_name_seg(), Err(AmlError::UnexpectedByte(b'1')));
    let data = [b'A', b'b', b'B', b'C'];
    assert_eq!(parser(&data).parse_name_seg(), Err(AmlError::UnexpectedByte(b'b')));
    let data = [b'A', b'B'];
    assert_eq!(parser(&data).parse_name_seg(), Err(AmlError::EndOfStream));
}
