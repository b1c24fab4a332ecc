use rum::fault::Fault;
use rum::rumload::load;

#[test]
fn load_empty_image_gives_no_words() {
    assert_eq!(load(&[]), Ok(vec![]));
}

#[test]
fn load_reads_words_most_significant_byte_first() {
    let image = [0x70, 0x00, 0x00, 0x00, 0xD2, 0x00, 0x00, 0x41, 0x01, 0x02, 0x03, 0x04];
    assert_eq!(load(&image), Ok(vec![0x7000_0000, 0xD200_0041, 0x0102_0304]));
}

#[test]
fn load_gives_one_word_for_four_bytes() {
    let image: Vec<u8> = (0..40u8).collect();
    let words = load(&image).unwrap();
    assert_eq!(words.len(), 10);
    for (i, word) in words.iter().enumerate() {
        let expected = u32::from_be_bytes([
            image[4 * i],
            image[4 * i + 1],
            image[4 * i + 2],
            image[4 * i + 3],
        ]);
        assert_eq!(*word, expected);
    }
}

#[test]
fn load_handles_extreme_bytes() {
    assert_eq!(load(&[0xFF, 0xFF, 0xFF, 0xFF]), Ok(vec![0xFFFF_FFFF]));
    assert_eq!(load(&[0x00, 0x00, 0x00, 0x01]), Ok(vec![1]));
    assert_eq!(load(&[0x80, 0x00, 0x00, 0x00]), Ok(vec![0x8000_0000]));
}

#[test]
fn load_refuses_length_not_multiple_of_four() {
    assert_eq!(load(&[0x70]), Err(Fault::MalformedProgram));
    assert_eq!(load(&[0x70, 0, 0]), Err(Fault::MalformedProgram));
    assert_eq!(load(&[0x70, 0, 0, 0, 0x70]), Err(Fault::MalformedProgram));
    assert_eq!(load(&[0x70, 0, 0, 0, 0x70, 0, 0]), Err(Fault::MalformedProgram));
}
