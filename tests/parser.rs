use acpi::error::AmlError;
use acpi::namespace::Namespace;
use acpi::parser::AmlParser;
use acpi::stream::AmlStream;
use acpi::value::{decode_region_space, AmlValue, RegionSpace};

const OP_REGION: [u8; 11] = [0x5b, 0x80, b'O', b'P', b'R', b'1', 0x00, 0x0a, 0x10, 0x0a, 0x04];

fn parser(data: &[u8]) -> AmlParser<'_> {
    AmlParser::new(b"\\".to_vec(), AmlStream::new(data))
}

fn integer(data: &[u8]) -> Result<AmlValue, AmlError> {
    parser(data).parse_computational_data()
}

#[test]
fn pkg_length_one_byte() {
    let data = [0x05u8];
    assert_eq!(parser(&data).parse_pkg_length(), Ok(5));
}

#[test]
fn pkg_length_two_bytes() {
    let data = [0x4au8, 0x12];
    let mut p = parser(&data);
    assert_eq!(p.parse_pkg_length(), Ok(0x12a));
    assert_eq!(p.stream().offset(), 2);
}

#[test]
fn pkg_length_three_bytes() {
    let data = [0x81u8, 0x34, 0x12];
    assert_eq!(parser(&data).parse_pkg_length(), Ok(1 + 16 * 0x34 + 0x1000 * 0x12));
}

#[test]
fn pkg_length_four_bytes() {
    let data = [0xc2u8, 0x01, 0x02, 0x03];
    assert_eq!(parser(&data).parse_pkg_length(), Ok(2 + 16 + 0x1000 * 2 + 0x10_0000 * 3));
}

#[test]
fn pkg_length_counts_from_its_own_start() {
    let data = [0xaau8, 0x05];
    let mut stream = AmlStream::new(&data);
    stream.next().unwrap();
    let mut p = AmlParser::new(b"\\".to_vec(), stream);
    assert_eq!(p.parse_pkg_length(), Ok(6));
}

#[test]
fn pkg_length_truncated() {
    let data = [0x41u8];
    assert_eq!(parser(&data).parse_pkg_length(), Err(AmlError::EndOfStream));
}

#[test]
fn literal_byte_const() {
    assert_eq!(integer(&[0x0a, 0xff]), Ok(AmlValue::Integer(255)));
}

#[test]
fn literal_constant_objects() {
    assert_eq!(integer(&[0x00]), Ok(AmlValue::Integer(0)));
    assert_eq!(integer(&[0x01]), Ok(AmlValue::Integer(1)));
    assert_eq!(integer(&[0xff]), Ok(AmlValue::Integer(u64::MAX)));
}

#[test]
fn literal_wider_consts() {
    assert_eq!(integer(&[0x0b, 0x34, 0x12]), Ok(AmlValue::Integer(0x1234)));
    assert_eq!(integer(&[0x0c, 0x78, 0x56, 0x34, 0x12]), Ok(AmlValue::Integer(0x1234_5678)));
    assert_eq!(
        integer(&[0x0e, 1, 2, 3, 4, 5, 6, 7, 8]),
        Ok(AmlValue::Integer(0x0807_0605_0403_0201))
    );
    assert_eq!(integer(&[0x0c, 0x78, 0x56]), Err(AmlError::EndOfStream));
}

#[test]
fn literal_unhandled_forms() {
    assert_eq!(integer(&[0x0d, b'a', 0]), Err(AmlError::NotYetSupported));
    assert_eq!(integer(&[0x5b, 0x30]), Err(AmlError::NotYetSupported));
    assert_eq!(integer(&[0x11, 0x02]), Err(AmlError::NotYetSupported));
    assert_eq!(integer(&[0x42]), Err(AmlError::UnexpectedByte(0x42)));
    assert_eq!(integer(&[0x5b, 0x31]), Err(AmlError::UnexpectedByte(0x5b)));
}

#[test]
fn term_arg_reports_unexpected_byte() {
    let data = [0x42u8, 0x00];
    let mut p = parser(&data);
    assert_eq!(p.parse_term_arg(), Err(AmlError::UnexpectedByte(0x42)));
    let data = [0x0au8, 0x07];
    assert_eq!(parser(&data).parse_term_arg(), Ok(AmlValue::Integer(7)));
}

#[test]
fn region_space_tags() {
    assert_eq!(decode_region_space(0x00), Some(RegionSpace::SystemMemory));
    assert_eq!(decode_region_space(0x05), Some(RegionSpace::SystemCmos));
    assert_eq!(decode_region_space(0x09), Some(RegionSpace::GenericSerialBus));
    assert_eq!(decode_region_space(0x0a), None);
    assert_eq!(decode_region_space(0x80), Some(RegionSpace::OemDefined(0x80)));
    assert_eq!(decode_region_space(0xff), Some(RegionSpace::OemDefined(0xff)));
}

#[test]
fn op_region_at_root() {
    let mut ns = Namespace::new();
    assert_eq!(AmlParser::parse(&mut ns, b"\\".to_vec(), AmlStream::new(&OP_REGION)), Ok(()));
    assert_eq!(ns.len(), 1);
    assert_eq!(
        ns.get(b"\\OPR1"),
        Some(AmlValue::OpRegion { region: RegionSpace::SystemMemory, offset: 16, length: 4 })
    );
}

#[test]
fn op_region_bad_space() {
    let mut data = OP_REGION;
    data[6] = 0x0a;
    let mut ns = Namespace::new();
    assert_eq!(
        AmlParser::parse(&mut ns, b"\\".to_vec(), AmlStream::new(&data)),
        Err(AmlError::UnexpectedByte(0x0a))
    );
    assert_eq!(ns.len(), 0);
}

#[test]
fn op_region_pop_past_root() {
    let data = [0x5bu8, 0x80, b'^', b'O', b'P', b'R', b'1', 0x00, 0x0a, 0x10, 0x0a, 0x04];
    let mut ns = Namespace::new();
    assert_eq!(
        AmlParser::parse(&mut ns, b"\\".to_vec(), AmlStream::new(&data)),
        Err(AmlError::InvalidPath(b"^OPR1".to_vec()))
    );
    assert_eq!(ns.get(b"\\OPR1"), None);
}

#[test]
fn scope_block_prefixes_names() {
    let mut data = vec![0x10u8, 0x10, b'_', b'S', b'B', b'_'];
    data.extend_from_slice(&OP_REGION);
    let mut ns = Namespace::new();
    let mut p = AmlParser::new(b"\\".to_vec(), AmlStream::new(&data));
    assert_eq!(p.parse_term_list(&mut ns, data.len() as u32), Ok(()));
    assert_eq!(p.scope(), b"\\");
    assert_eq!(
        ns.get(b"\\_SB_OPR1"),
        Some(AmlValue::OpRegion { region: RegionSpace::SystemMemory, offset: 16, length: 4 })
    );
}

#[test]
fn scope_restored_after_failure() {
    let data = [0x10u8, 0x06, b'_', b'S', b'B', b'_', 0x77];
    let mut ns = Namespace::new();
    let mut p = parser(&data);
    assert_eq!(p.parse_term_object(&mut ns), Err(AmlError::UnexpectedByte(0x77)));
    assert_eq!(p.scope(), b"\\");
}

#[test]
fn term_list_stops_at_end_offset() {
    let mut data = OP_REGION.to_vec();
    data.extend_from_slice(&[0xee, 0xee]);
    let mut ns = Namespace::new();
    let mut p = parser(&data);
    assert_eq!(p.parse_term_list(&mut ns, 11), Ok(()));
    assert_eq!(p.stream().offset(), 11);
    assert_eq!(ns.len(), 1);
    let mut whole = Namespace::new();
    assert_eq!(
        AmlParser::parse(&mut whole, b"\\".to_vec(), AmlStream::new(&data)),
        Err(AmlError::UnexpectedByte(0xee))
    );
}

#[test]
fn term_list_already_at_end() {
    let data = [0xeeu8];
    let mut ns = Namespace::new();
    let mut p = parser(&data);
    assert_eq!(p.parse_term_list(&mut ns, 0), Ok(()));
    assert_eq!(p.stream().offset(), 0);
    assert_eq!(ns.len(), 0);
}

#[test]
fn term_object_unexpected_byte() {
    let data = [0x77u8];
    let mut ns = Namespace::new();
    assert_eq!(parser(&data).parse_term_object(&mut ns), Err(AmlError::UnexpectedByte(0x77)));
}

#[test]
fn term_object_control_statements_unsupported() {
    let mut ns = Namespace::new();
    assert_eq!(parser(&[0xa3]).parse_term_object(&mut ns), Err(AmlError::NotYetSupported));
    assert_eq!(parser(&[0x5b, 0x21, 0x0a, 1]).parse_term_object(&mut ns), Err(AmlError::NotYetSupported));
}

#[test]
fn field_with_empty_list() {
    let data = [0x5bu8, 0x81, 0x06, b'F', b'L', b'D', b'0', 0x01];
    let mut ns = Namespace::new();
    let mut p = parser(&data);
    assert_eq!(p.parse_term_object(&mut ns), Ok(()));
    assert_eq!(p.stream().offset(), 8);
    assert_eq!(ns.len(), 0);
}

#[test]
fn field_elements_unsupported() {
    let data = [0x5bu8, 0x81, 0x08, b'F', b'L', b'D', b'0', 0x01, b'A', 0x01];
    let mut ns = Namespace::new();
    assert_eq!(parser(&data).parse_term_object(&mut ns), Err(AmlError::NotYetSupported));
}

#[test]
fn speculative_no_match_rolls_back() {
    let data = [0x5bu8, 0x81, 0x06, b'f', b'L', b'D', b'0', 0x01];
    let mut ns = Namespace::new();
    let mut p = parser(&data);
    assert_eq!(p.parse_term_object(&mut ns), Err(AmlError::UnexpectedByte(0x5b)));
    assert_eq!(p.stream().offset(), 0);
}

#[test]
fn speculative_fatal_error_stays_put() {
    let data = [0x5bu8, 0x81, 0x06, b'F'];
    let mut ns = Namespace::new();
    let mut p = parser(&data);
    assert_eq!(p.parse_term_object(&mut ns), Err(AmlError::EndOfStream));
    assert_eq!(p.stream().offset(), 4);
}

#[test]
fn namespace_last_write_wins() {
    let mut ns = Namespace::new();
    ns.insert(b"\\A___".to_vec(), AmlValue::Integer(1));
    ns.insert(b"\\B___".to_vec(), AmlValue::Integer(2));
    ns.insert(b"\\A___".to_vec(), AmlValue::Integer(3));
    assert_eq!(ns.len(), 2);
    assert_eq!(ns.get(b"\\A___"), Some(AmlValue::Integer(3)));
    assert_eq!(ns.get(b"\\B___"), Some(AmlValue::Integer(2)));
    assert_eq!(ns.get(b"\\C___"), None);
    assert_eq!(AmlValue::Integer(3).as_integer(), Some(3));
    assert_eq!(
        AmlValue::OpRegion { region: RegionSpace::IPMI, offset: 0, length: 1 }.as_integer(),
        None
    );
}
