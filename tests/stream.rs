use acpi::error::AmlError;
use acpi::stream::AmlStream;

#[test]
fn next_u16_reads_little_endian() {
    let data = [0x34u8, 0x12, 0x99];
    let mut s = AmlStream::new(&data);
    assert_eq!(s.next_u16(), Ok(0x1234));
    assert_eq!(s.offset(), 2);
}

#[test]
fn next_u32_reads_four_bytes() {
    let data = [0x78u8, 0x56, 0x34, 0x12];
    let mut s = AmlStream::new(&data);
    assert_eq!(s.next_u32(), Ok(0x1234_5678));
    assert_eq!(s.offset(), 4);
}

#[test]
fn next_u64_reads_eight_bytes() {
    let data = [0xefu8, 0xcd, 0xab, 0x89, 0x67, 0x45, 0x23, 0x01];
    let mut s = AmlStream::new(&data);
    assert_eq!(s.next_u64(), Ok(0x0123_4567_89ab_cdef));
    assert_eq!(s.offset(), 8);
}

#[test]
fn next_u64_all_ones() {
    let data = [0xffu8; 8];
    let mut s = AmlStream::new(&data);
    assert_eq!(s.next_u64(), Ok(u64::MAX));
}

#[test]
fn short_read_fails_without_moving() {
    let data = [1u8, 2, 3];
    let mut s = AmlStream::new(&data);
    assert_eq!(s.next_u32(), Err(AmlError::EndOfStream));
    assert_eq!(s.offset(), 0);
    assert_eq!(s.next_u16(), Ok(0x0201));
    assert_eq!(s.next_u16(), Err(AmlError::EndOfStream));
    assert_eq!(s.offset(), 2);
}

#[test]
fn last_byte_can_be_read() {
    let data = [0xaau8];
    let mut s = AmlStream::new(&data);
    assert_eq!(s.peek(), Ok(0xaa));
    assert_eq!(s.offset(), 0);
    assert_eq!(s.next(), Ok(0xaa));
    assert_eq!(s.peek(), Err(AmlError::EndOfStream));
    assert_eq!(s.next(), Err(AmlError::EndOfStream));
    assert_eq!(s.offset(), 1);
}

#[test]
fn empty_stream_has_nothing() {
    let data: [u8; 0] = [];
    let mut s = AmlStream::new(&data);
    assert_eq!(s.len(), 0);
    assert_eq!(s.next(), Err(AmlError::EndOfStream));
}

#[test]
fn backtrack_undoes_reads() {
    let data = [9u8, 8, 7, 6];
    let mut s = AmlStream::new(&data);
    let first = [s.next().unwrap(), s.next().unwrap(), s.next().unwrap()];
    assert_eq!(s.backtrack(3), Ok(()));
    assert_eq!(s.offset(), 0);
    let again = [s.next().unwrap(), s.next().unwrap(), s.next().unwrap()];
    assert_eq!(first, again);
    assert_eq!(first, [9, 8, 7]);
}

#[test]
fn backtrack_past_start_fails() {
    let data = [1u8, 2];
    let mut s = AmlStream::new(&data);
    s.next().unwrap();
    assert_eq!(s.backtrack(2), Err(AmlError::BacktrackedFromStart));
    assert_eq!(s.offset(), 1);
    assert_eq!(s.backtrack(1), Ok(()));
    assert_eq!(s.backtrack(1), Err(AmlError::BacktrackedFromStart));
}

#[test]
fn at_checks_current_byte() {
    let data = [0x5eu8];
    let mut s = AmlStream::new(&data);
    assert!(s.at(0x5e));
    assert!(!s.at(0x5c));
    s.next().unwrap();
    assert!(!s.at(0x5e));
}
