use rpeg::words::{words_from_bytes, words_to_bytes};

#[test]
fn words_become_big_endian_bytes() {
    let bytes = words_to_bytes(&vec![0x0011_2233, 0x4455_6677]);
    assert_eq!(bytes, vec![[0x00, 0x11, 0x22, 0x33], [0x44, 0x55, 0x66, 0x77]]);
    assert_eq!(words_to_bytes(&vec![u32::MAX]), vec![[0xff; 4]]);
    assert!(words_to_bytes(&Vec::new()).is_empty());
}

#[test]
fn bytes_become_words() {
    let words = words_from_bytes(&vec![[0x96, 0x17, 0x60, 0x37], [0, 0, 0, 1]]);
    assert_eq!(words, vec![0x9617_6037, 1]);
}

#[test]
fn words_bytes_round_trip() {
    let words = vec![0, 1, 0x8000_0000, 0xdead_beef, u32::MAX];
    assert_eq!(words_from_bytes(&words_to_bytes(&words)), words);
    for &w in words.iter() {
        assert_eq!(words_to_bytes(&vec![w])[0], w.to_be_bytes());
    }
}
