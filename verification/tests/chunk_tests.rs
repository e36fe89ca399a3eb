use pngme::chunk::Chunk;
use pngme::chunk_type::ChunkType;
use pngme::error::PngError;
use std::convert::TryFrom;
use std::str::FromStr;

fn testing_chunk() -> Chunk {
    let data_length: u32 = 42;
    let chunk_type = "RuSt".as_bytes();
    let message_bytes = "This is where your secret message will be!".as_bytes();
    let crc: u32 = 2882656334;

    let chunk_data: Vec<u8> = data_length
        .to_be_bytes()
        .iter()
        .chain(chunk_type.iter())
        .chain(message_bytes.iter())
        .chain(crc.to_be_bytes().iter())
        .copied()
        .collect();

    Chunk::try_from(chunk_data.as_ref()).unwrap()
}

fn framed(length: u32, chunk_type: &[u8], data: &[u8], crc: u32) -> Vec<u8> {
    length
        .to_be_bytes()
        .iter()
        .chain(chunk_type.iter())
        .chain(data.iter())
        .chain(crc.to_be_bytes().iter())
        .copied()
        .collect()
}

#[test]
fn test_new_chunk() {
    let chunk_type = ChunkType::from_str("RuSt").unwrap();
    let data = "This is where your secret message will be!".as_bytes().to_vec();
    let chunk = Chunk::new(chunk_type, data);
    assert_eq!(chunk.length(), 42);
    assert_eq!(chunk.crc(), 2882656334);
}

#[test]
fn test_chunk_length() {
    let chunk = testing_chunk();
    assert_eq!(chunk.length(), 42);
}

#[test]
fn test_chunk_type() {
    let chunk = testing_chunk();
    assert_eq!(chunk.chunk_type().to_string(), String::from("RuSt"));
}

#[test]
fn test_chunk_string() {
    let chunk = testing_chunk();
    let chunk_string = chunk.data_as_string().unwrap();
    let expected_chunk_string = String::from("This is where your secret message will be!");
    assert_eq!(chunk_string, expected_chunk_string);
}

#[test]
fn test_chunk_crc() {
    let chunk = testing_chunk();
    assert_eq!(chunk.crc(), 2882656334);
}

#[test]
fn test_valid_chunk_from_bytes() {
    let data_length: u32 = 42;
    let chunk_type = "RuSt".as_bytes();
    let message_bytes = "This is where your secret message will be!".as_bytes();
    let crc: u32 = 2882656334;

    let chunk_data: Vec<u8> = data_length
        .to_be_bytes()
        .iter()
        .chain(chunk_type.iter())
        .chain(message_bytes.iter())
        .chain(crc.to_be_bytes().iter())
        .copied()
        .collect();

    let chunk = Chunk::try_from(chunk_data.as_ref()).unwrap();

    let chunk_string = chunk.data_as_string().unwrap();
    let expected_chunk_string = String::from("This is where your secret message will be!");

    assert_eq!(chunk.length(), 42);
    assert_eq!(chunk.chunk_type().to_string(), String::from("RuSt"));
    assert_eq!(chunk_string, expected_chunk_string);
    assert_eq!(chunk.crc(), 2882656334);
}

#[test]
fn test_invalid_chunk_from_bytes() {
    let data_length: u32 = 42;
    let chunk_type = "RuSt".as_bytes();
    let message_bytes = "This is where your secret message will be!".as_bytes();
    let crc: u32 = 2882656333;

    let chunk_data: Vec<u8> = data_length
        .to_be_bytes()
        .iter()
        .chain(chunk_type.iter())
        .chain(message_bytes.iter())
        .chain(crc.to_be_bytes().iter())
        .copied()
        .collect();

    let chunk = Chunk::try_from(chunk_data.as_ref());

    assert!(chunk.is_err());
}

#[test]
pub fn test_chunk_trait_impls() {
    let data_length: u32 = 42;
    let chunk_type = "RuSt".as_bytes();
    let message_bytes = "This is where your secret message will be!".as_bytes();
    let crc: u32 = 2882656334;

    let chunk_data: Vec<u8> = data_length
        .to_be_bytes()
        .iter()
        .chain(chunk_type.iter())
        .chain(message_bytes.iter())
        .chain(crc.to_be_bytes().iter())
        .copied()
        .collect();

    let chunk: Chunk = TryFrom::try_from(chunk_data.as_ref()).unwrap();

    let _chunk_string = chunk.to_string();
}

#[test]
fn a_wrong_checksum_is_reported_with_both_values() {
    let bytes = framed(42, b"RuSt", b"This is where your secret message will be!", 2882656333);
    assert_eq!(
        Chunk::try_from(bytes.as_slice()).err(),
        Some(PngError::CrcMismatch { computed: 2882656334, stored: 2882656333 })
    );
}

#[test]
fn the_end_chunk_has_its_well_known_bytes() {
    let end = Chunk::new(ChunkType::from_str("IEND").unwrap(), Vec::new());
    assert_eq!(end.length(), 0);
    assert_eq!(end.crc(), 0xAE42_6082);
    assert_eq!(
        end.as_bytes(),
        vec![0, 0, 0, 0, b'I', b'E', b'N', b'D', 0xAE, 0x42, 0x60, 0x82]
    );
}

#[test]
fn the_header_chunk_of_a_one_pixel_image_has_its_well_known_checksum() {
    let data = vec![0, 0, 0, 1, 0, 0, 0, 1, 8, 6, 0, 0, 0];
    let header = Chunk::new(ChunkType::from_str("IHDR").unwrap(), data);
    assert_eq!(header.length(), 13);
    assert_eq!(header.crc(), 0x1F15_C489);
}

#[test]
fn the_checksum_covers_type_and_data_and_nothing_else() {
    // The check value of CRC-32/ISO-HDLC is that of "123456789".
    let chunk = Chunk::new(ChunkType::from_str("abcd").unwrap(), b"123456789".to_vec());
    let crc = crc::Crc::<u32>::new(&crc::CRC_32_ISO_HDLC);
    assert_eq!(crc.checksum(b"123456789"), 0xCBF4_3926);
    assert_eq!(chunk.crc(), crc.checksum(b"abcd123456789"));
    assert_ne!(chunk.crc(), 0xCBF4_3926);
}

#[test]
fn a_chunk_is_laid_out_as_length_type_data_checksum() {
    let chunk = Chunk::new(ChunkType::from_str("ruSt").unwrap(), b"hello".to_vec());
    let bytes = chunk.as_bytes();
    assert_eq!(bytes.len(), 4 + 4 + 5 + 4);
    assert_eq!(bytes[0..4], [0, 0, 0, 5]);
    assert_eq!(&bytes[4..8], b"ruSt");
    assert_eq!(&bytes[8..13], b"hello");
    assert_eq!(bytes[13..17], chunk.crc().to_be_bytes());
}

#[test]
fn the_length_field_is_big_endian() {
    let data = vec![7u8; 0x0102];
    let chunk = Chunk::new(ChunkType::from_str("daTa").unwrap(), data);
    assert_eq!(chunk.length(), 0x0102);
    assert_eq!(chunk.as_bytes()[0..4], [0, 0, 1, 2]);
    let back = Chunk::try_from(chunk.as_bytes().as_slice()).unwrap();
    assert_eq!(back.length(), 0x0102);
    assert_eq!(back.data(), vec![7u8; 0x0102].as_slice());
}

#[test]
fn a_new_chunk_survives_writing_and_reading() {
    for data in [Vec::new(), b"x".to_vec(), b"hello".to_vec(), (0u8..=255).collect::<Vec<u8>>()] {
        let chunk = Chunk::new(ChunkType::from_str("RuSt").unwrap(), data.clone());
        let back = Chunk::try_from(chunk.as_bytes().as_slice()).unwrap();
        assert_eq!(back.chunk_type(), chunk.chunk_type());
        assert_eq!(back.data(), data.as_slice());
        assert_eq!(back.crc(), chunk.crc());
        assert_eq!(back.length(), chunk.length());
        assert_eq!(back.as_bytes(), chunk.as_bytes());
    }
}

#[test]
fn fewer_than_twelve_bytes_are_too_short() {
    for n in 0..12usize {
        let bytes = vec![0u8; n];
        assert_eq!(Chunk::try_from(bytes.as_slice()).err(), Some(PngError::TooShort { actual: n }));
    }
}

#[test]
fn twelve_bytes_pass_the_size_check() {
    let bytes = vec![0u8; 12];
    assert_eq!(Chunk::try_from(bytes.as_slice()).err(), Some(PngError::InvalidTypeCode));
}

#[test]
fn a_padded_or_shortened_chunk_has_a_length_mismatch() {
    let chunk = Chunk::new(ChunkType::from_str("RuSt").unwrap(), b"hello".to_vec());
    let good = chunk.as_bytes();

    let mut padded = good.clone();
    padded.insert(10, 0);
    assert_eq!(
        Chunk::try_from(padded.as_slice()).err(),
        Some(PngError::LengthMismatch { expected: 17, actual: 18 })
    );

    let mut shortened = good.clone();
    shortened.remove(10);
    assert_eq!(
        Chunk::try_from(shortened.as_slice()).err(),
        Some(PngError::LengthMismatch { expected: 17, actual: 16 })
    );
}

#[test]
fn the_largest_length_field_does_not_wrap() {
    let bytes = framed(u32::MAX, b"RuSt", b"", 0);
    assert_eq!(
        Chunk::try_from(bytes.as_slice()).err(),
        Some(PngError::LengthMismatch { expected: 12 + u32::MAX as u64, actual: 12 })
    );
}

#[test]
fn the_type_is_checked_before_the_checksum() {
    let bytes = framed(1, b"Ru1t", b"x", 0);
    assert_eq!(Chunk::try_from(bytes.as_slice()).err(), Some(PngError::InvalidTypeCode));
}

#[test]
fn the_length_is_checked_before_the_type() {
    let bytes = framed(2, b"Ru1t", b"x", 0);
    assert_eq!(
        Chunk::try_from(bytes.as_slice()).err(),
        Some(PngError::LengthMismatch { expected: 14, actual: 13 })
    );
}

#[test]
fn any_single_flipped_bit_in_the_data_is_a_checksum_mismatch() {
    let chunk = Chunk::new(ChunkType::from_str("RuSt").unwrap(), b"hello".to_vec());
    let good = chunk.as_bytes();
    for at in 8..13 {
        for bit in 0..8 {
            let mut bad = good.clone();
            bad[at] ^= 1 << bit;
            match Chunk::try_from(bad.as_slice()) {
                Err(PngError::CrcMismatch { computed, stored }) => {
                    assert_eq!(stored, chunk.crc());
                    assert_ne!(computed, stored);
                }
                _ => panic!("a flipped bit went unnoticed"),
            }
        }
    }
}

#[test]
fn a_flipped_bit_in_the_type_is_a_checksum_mismatch_while_it_stays_a_letter() {
    let chunk = Chunk::new(ChunkType::from_str("RuSt").unwrap(), b"hello".to_vec());
    let good = chunk.as_bytes();
    for at in 4..8 {
        for bit in 0..8 {
            let mut bad = good.clone();
            bad[at] ^= 1 << bit;
            let result = Chunk::try_from(bad.as_slice()).err();
            if bad[at].is_ascii_alphabetic() {
                assert!(matches!(result, Some(PngError::CrcMismatch { .. })));
            } else {
                assert_eq!(result, Some(PngError::InvalidTypeCode));
            }
        }
    }
}

#[test]
fn data_that_is_not_text_is_invalid_utf8() {
    let chunk = Chunk::new(ChunkType::from_str("RuSt").unwrap(), vec![0xff, 0xfe]);
    assert_eq!(chunk.data_as_string(), Err(PngError::InvalidUtf8));
    let chunk = Chunk::new(ChunkType::from_str("RuSt").unwrap(), vec![0xe2, 0x82]);
    assert_eq!(chunk.data_as_string(), Err(PngError::InvalidUtf8));
}

#[test]
fn data_that_is_text_is_decoded() {
    let chunk = Chunk::new(ChunkType::from_str("RuSt").unwrap(), "héllo €".as_bytes().to_vec());
    assert_eq!(chunk.data_as_string(), Ok(String::from("héllo €")));
    let empty = Chunk::new(ChunkType::from_str("RuSt").unwrap(), Vec::new());
    assert_eq!(empty.data_as_string(), Ok(String::new()));
}

#[test]
fn the_summary_lists_length_type_data_and_checksum() {
    let chunk = Chunk::new(ChunkType::from_str("RuSt").unwrap(), vec![104, 105, 0, 255]);
    let expected = format!(
        "Length: {}\nChunk Type: {}\nData: {:?}\nCRC: {}\n",
        4u32,
        "RuSt",
        vec![104u8, 105, 0, 255],
        chunk.crc()
    );
    assert_eq!(chunk.to_string(), expected);
    assert!(chunk.to_string().starts_with("Length: 4\nChunk Type: RuSt\nData: [104, 105, 0, 255]\nCRC: "));
}

#[test]
fn the_summary_of_an_empty_chunk_has_an_empty_list() {
    let chunk = Chunk::new(ChunkType::from_str("IEND").unwrap(), Vec::new());
    assert_eq!(chunk.to_string(), "Length: 0\nChunk Type: IEND\nData: []\nCRC: 2923585666\n");
}

#[test]
fn accessors_give_back_what_was_put_in() {
    let chunk = Chunk::new(ChunkType::from_str("teXt").unwrap(), b"abc".to_vec());
    assert_eq!(chunk.length(), 3);
    assert_eq!(chunk.chunk_type().bytes(), *b"teXt");
    assert_eq!(chunk.data(), b"abc");
}
