use adam::codec::{decode_words, encode_words};

#[test]
fn words_are_written_little_endian() {
    assert_eq!(encode_words(&[0x0403_0201, 0xFF00_00AA]), vec![1, 2, 3, 4, 0xAA, 0, 0, 0xFF]);
    assert!(encode_words(&[]).is_empty());
}

#[test]
fn reading_back_gives_the_written_words() {
    let words = [0u32, 1, 0x3f80_0000, u32::MAX, 0xdead_beef];
    assert_eq!(decode_words(&encode_words(&words)), words.to_vec());
}

#[test]
fn a_trailing_partial_group_is_ignored() {
    assert_eq!(decode_words(&[1, 0, 0, 0, 9, 9]), vec![1]);
    assert!(decode_words(&[1, 2, 3]).is_empty());
}

#[test]
fn float_bit_patterns_survive_the_round_trip() {
    let embedding = [0.0f32, 1.5, -2.25, 3.0e-8];
    let words: Vec<u32> = embedding.iter().map(|f| f.to_bits()).collect();
    let bytes = encode_words(&words);
    let expected: Vec<u8> = embedding.iter().flat_map(|f| f.to_le_bytes()).collect();
    assert_eq!(bytes, expected);
    let back: Vec<f32> = decode_words(&bytes).into_iter().map(f32::from_bits).collect();
    assert_eq!(back, embedding.to_vec());
}
