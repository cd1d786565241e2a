use media_library::error::MkvError;
use media_library::stream::ByteReader;
use media_library::vint::{
    bytes_to_u64, decode_vint, read_element_header, read_element_id, read_vint, ElementHeader,
    VintMode,
};

#[test]
fn test_read_vint() {
    let data = vec![0x81];
    let mut cursor = ByteReader::new(data);
    let result = read_vint(&mut cursor);
    assert_eq!(result.unwrap(), 1);

    let data = vec![0x40, 0x01];
    let mut cursor = ByteReader::new(data);
    let result = read_vint(&mut cursor);
    assert_eq!(result.unwrap(), 1);

    let data = vec![0x20, 0x00, 0x01];
    let mut cursor = ByteReader::new(data);
    let result = read_vint(&mut cursor);
    assert_eq!(result.unwrap(), 1);
}

#[test]
fn test_read_element_id() {
    // 0x1A announces four bytes: alone it is a truncated identifier.
    let data = vec![0x1A];
    let mut cursor = ByteReader::new(data);
    let result = read_element_id(&mut cursor);
    assert_eq!(result, Err(MkvError::UnexpectedEof));

    let data = vec![0x40, 0x00];
    let mut cursor = ByteReader::new(data);
    let result = read_element_id(&mut cursor);
    assert_eq!(result.unwrap(), 0x4000);

    let data = vec![0x20, 0x00, 0x00];
    let mut cursor = ByteReader::new(data);
    let result = read_element_id(&mut cursor);
    assert_eq!(result.unwrap(), 0x200000);
}

#[test]
fn one_byte_sizes_decode_to_their_low_seven_bits() {
    for n in 0u8..128 {
        let mut reader = ByteReader::new(vec![0x80 | n, 0xFF]);
        assert_eq!(read_vint(&mut reader), Ok(n as u64));
        assert_eq!(reader.position(), 1);
    }
}

#[test]
fn size_mode_consumes_the_announced_length() {
    let mut reader = ByteReader::new(vec![0x40, 0x01, 0x99]);
    assert_eq!(decode_vint(&mut reader, VintMode::Size), Ok((1, 2)));
    assert_eq!(reader.position(), 2);

    let mut reader = ByteReader::new(vec![0x20, 0x00, 0x01, 0x99]);
    assert_eq!(decode_vint(&mut reader, VintMode::Size), Ok((1, 3)));
    assert_eq!(reader.position(), 3);
}

#[test]
fn identifier_mode_keeps_the_marker() {
    let mut reader = ByteReader::new(vec![0x40, 0x00]);
    assert_eq!(decode_vint(&mut reader, VintMode::Identifier), Ok((0x4000, 2)));
    let mut reader = ByteReader::new(vec![0x40, 0x00]);
    assert_eq!(decode_vint(&mut reader, VintMode::Size), Ok((0, 2)));

    let mut reader = ByteReader::new(vec![0x1A, 0x45, 0xDF, 0xA3]);
    assert_eq!(read_element_id(&mut reader), Ok(0x1A45DFA3));
    assert_eq!(reader.position(), 4);

    let mut reader = ByteReader::new(vec![0x2A, 0xD7, 0xB1]);
    assert_eq!(read_element_id(&mut reader), Ok(0x2AD7B1));
}

#[test]
fn eight_byte_encodings() {
    let mut reader = ByteReader::new(vec![0x01, 0xFF, 0xFF, 0xFF, 0xFF, 0xFF, 0xFF, 0xFF]);
    assert_eq!(decode_vint(&mut reader, VintMode::Size), Ok((0x00FF_FFFF_FFFF_FFFF, 8)));
    let mut reader = ByteReader::new(vec![0x01, 0xFF, 0xFF, 0xFF, 0xFF, 0xFF, 0xFF, 0xFF]);
    assert_eq!(
        decode_vint(&mut reader, VintMode::Identifier),
        Ok((0x01FF_FFFF_FFFF_FFFF, 8))
    );
    let mut reader = ByteReader::new(vec![0x01, 0, 0, 0, 0, 0, 0x12, 0x34]);
    assert_eq!(read_vint(&mut reader), Ok(0x1234));
}

#[test]
fn a_first_byte_without_a_set_bit_is_invalid() {
    let mut reader = ByteReader::new(vec![0x00, 0x01, 0x02]);
    assert_eq!(read_vint(&mut reader), Err(MkvError::InvalidVint));
    assert_eq!(reader.position(), 1);

    let mut reader = ByteReader::new(vec![0x00, 0x01, 0x02]);
    assert_eq!(read_element_id(&mut reader), Err(MkvError::InvalidElementId));
    assert_eq!(reader.position(), 1);
}

#[test]
fn an_identifier_of_more_than_four_bytes_is_invalid() {
    let mut reader = ByteReader::new(vec![0x08, 0x01, 0x02, 0x03, 0x04]);
    assert_eq!(read_element_id(&mut reader), Err(MkvError::InvalidElementId));
    assert_eq!(reader.position(), 1);
}

#[test]
fn truncated_encodings_fail_at_the_end_of_the_stream() {
    let mut reader = ByteReader::new(vec![]);
    assert_eq!(read_vint(&mut reader), Err(MkvError::UnexpectedEof));
    assert_eq!(reader.position(), 0);

    let mut reader = ByteReader::new(vec![0x20, 0x00]);
    assert_eq!(read_vint(&mut reader), Err(MkvError::UnexpectedEof));
    assert_eq!(reader.position(), 1);

    let mut reader = ByteReader::new(vec![0x18, 0x53, 0x80]);
    assert_eq!(read_element_id(&mut reader), Err(MkvError::UnexpectedEof));
}

#[test]
fn element_headers_are_an_identifier_and_a_size() {
    let mut reader = ByteReader::new(vec![0x2A, 0xD7, 0xB1, 0x83, 0x0F, 0x42, 0x40]);
    assert_eq!(
        read_element_header(&mut reader),
        Ok(ElementHeader { id: 0x2AD7B1, size: 3 })
    );
    assert_eq!(reader.position(), 4);
}

#[test]
fn big_endian_accumulation() {
    assert_eq!(bytes_to_u64(&[]), 0);
    assert_eq!(bytes_to_u64(&[0x0F, 0x42, 0x40]), 1_000_000);
    assert_eq!(bytes_to_u64(&[0x1A, 0x45, 0xDF, 0xA3]), 0x1A45DFA3);
    assert_eq!(
        bytes_to_u64(&[0xFF, 0xFF, 0xFF, 0xFF, 0xFF, 0xFF, 0xFF, 0xFF]),
        u64::MAX
    );
    assert_eq!(bytes_to_u64(&[0x01, 0, 0, 0, 0, 0, 0, 0, 0x02]), 2);
}

#[test]
fn the_stream_reads_and_skips_within_its_bounds() {
    let mut reader = ByteReader::new(vec![1, 2, 3, 4, 5]);
    assert_eq!(reader.len(), 5);
    assert_eq!(reader.read_u8(), Ok(1));
    assert_eq!(reader.read_exact(2), Ok(vec![2, 3]));
    assert_eq!(reader.read_exact(3), Err(MkvError::UnexpectedEof));
    assert_eq!(reader.position(), 3);
    assert_eq!(reader.skip(3), Err(MkvError::UnexpectedEof));
    assert_eq!(reader.position(), 3);
    assert_eq!(reader.skip(2), Ok(()));
    assert_eq!(reader.position(), 5);
    assert_eq!(reader.read_u8(), Err(MkvError::UnexpectedEof));
}
