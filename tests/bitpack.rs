use rpeg::bitpack::{fitss, fitsu, gets, getu, news, newu};

#[test]
fn fitss_examples() {
    assert!(fitss(15, 5));
    assert!(!fitss(16, 5));
    assert!(fitss(-16, 5));
    assert!(!fitss(-17, 5));
}

#[test]
fn fitss_full_width() {
    assert!(fitss(i64::MIN, 64));
    assert!(fitss(i64::MAX, 64));
    assert!(fitss(-1, 1));
    assert!(!fitss(1, 1));
}

#[test]
fn fitsu_examples() {
    assert!(fitsu(31, 5));
    assert!(!fitsu(32, 5));
    assert!(fitsu(u64::MAX, 64));
    assert!(!fitsu(2, 1));
}

#[test]
fn getu_reads_field() {
    assert_eq!(getu(0x3f4, 6, 2), Some(0x3d));
    assert_eq!(getu(0x8000_0000_0000_0000, 1, 63), Some(1));
    assert_eq!(getu(0x1234, 64, 0), Some(0x1234));
}

#[test]
fn gets_sign_extends() {
    assert_eq!(gets(0b11011 << 18, 5, 18), Some(-5));
    assert_eq!(gets(0b01111 << 18, 5, 18), Some(15));
    assert_eq!(gets(0b10000, 5, 0), Some(-16));
    assert_eq!(gets(u64::MAX, 64, 0), Some(-1));
}

#[test]
fn newu_replaces_only_the_span() {
    assert_eq!(newu(0x1234_5678_9abc_def0, 8, 8, 0xab), Some(0x1234_5678_9abc_abf0));
    assert_eq!(newu(0, 64, 0, u64::MAX), Some(u64::MAX));
}

#[test]
fn newu_rejects_out_of_range() {
    assert_eq!(newu(0, 5, 3, 32), None);
    assert_eq!(newu(7, 1, 0, 2), None);
}

#[test]
fn news_clears_then_sets() {
    assert_eq!(news(u64::MAX, 5, 18, -5), Some(0xffff_ffff_ffef_ffff));
    assert_eq!(news(0, 5, 18, -5), Some(27 << 18));
    assert_eq!(news(u64::MAX, 4, 0, 0), Some(0xffff_ffff_ffff_fff0));
}

#[test]
fn news_rejects_out_of_range() {
    assert_eq!(news(0, 5, 0, 16), None);
    assert_eq!(news(0, 5, 0, -17), None);
}

#[test]
fn insert_then_extract_unsigned() {
    let words = [0u64, u64::MAX, 0xdead_beef_cafe_f00d];
    for &word in words.iter() {
        for &(width, lsb, value) in [(9u64, 23u64, 300u64), (1, 63, 1), (64, 0, 42), (4, 0, 15)].iter() {
            let w = newu(word, width, lsb, value).unwrap();
            assert_eq!(getu(w, width, lsb), Some(value));
            for i in 0..64u64 {
                if i < lsb || i >= lsb + width {
                    assert_eq!((w >> i) & 1, (word >> i) & 1);
                }
            }
        }
    }
}

#[test]
fn insert_then_extract_signed() {
    for &word in [0u64, u64::MAX, 0x0123_4567_89ab_cdef].iter() {
        for &(width, lsb, value) in [(5u64, 18u64, -5i64), (5, 13, -16), (5, 8, 15), (64, 0, i64::MIN)].iter() {
            let w = news(word, width, lsb, value).unwrap();
            assert_eq!(gets(w, width, lsb), Some(value));
            for i in 0..64u64 {
                if i < lsb || i >= lsb + width {
                    assert_eq!((w >> i) & 1, (word >> i) & 1);
                }
            }
        }
    }
}
