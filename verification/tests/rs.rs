use ::gf256::rs::{rs26w16, rs255w223, rs64w8, gf2p64_rs26w16, gf16_rs15w8, gf2p23_rs26w16, rs26w16_all_params};
use ::gf256::rs::RsError;

#[test]
fn rs26w16() {
    let mut data = (0..26).collect::<Vec<u8>>();
    rs26w16::encode(&mut data);
    assert!(rs26w16::is_correct(&data));

    for i in 0..(26-16) {
        data[0..i].fill(b'x');
        let res = rs26w16::correct_erasures(&mut data, &(0..i).collect::<Vec<_>>());
        assert_eq!(res.ok(), Some(i));
        assert_eq!(&data[0..16], &(0..16).collect::<Vec<u8>>());
    }

    for i in 0..(26-16)/2 {
        data[0..i].fill(b'x');
        let res = rs26w16::correct_errors(&mut data);
        assert_eq!(res.ok(), Some(i));
        assert_eq!(&data[0..16], &(0..16).collect::<Vec<u8>>());
    }
}

#[test]
fn rs26w16_any() {
    let mut data = (0..26).collect::<Vec<u8>>();
    rs26w16::encode(&mut data);

    for i in 0..26 {
        data[i] = b'x';
        let res = rs26w16::correct_errors(&mut data);
        assert_eq!(res.ok(), Some(1));
        assert_eq!(&data[0..16], &(0..16).collect::<Vec<u8>>());
    }
}

#[test]
fn rs26w16_burst() {
    let mut data = (0..26).collect::<Vec<u8>>();
    rs26w16::encode(&mut data);

    for i in 0..26-((26-16)/2) {
        data[i..i+((26-16)/2)].fill(b'x');
        let res = rs26w16::correct_errors(&mut data);
        assert_eq!(res.ok(), Some((26-16)/2));
        assert_eq!(&data[0..16], &(0..16).collect::<Vec<u8>>());
    }
}

#[test]
fn rs255w223() {
    let mut data = (0..255).collect::<Vec<u8>>();
    rs255w223::encode(&mut data);
    assert!(rs255w223::is_correct(&data));

    for i in 0..(255-223) {
        data[0..i].fill(b'x');
        let res = rs255w223::correct_erasures(&mut data, &(0..i).collect::<Vec<_>>());
        assert_eq!(res.ok(), Some(i));
        assert_eq!(&data[0..223], &(0..223).collect::<Vec<u8>>());
    }

    for i in 0..(255-223)/2 {
        data[0..i].fill(b'x');
        let res = rs255w223::correct_errors(&mut data);
        assert_eq!(res.ok(), Some(i));
        assert_eq!(&data[0..223], &(0..223).collect::<Vec<u8>>());
    }
}

#[test]
fn rs255w223_any() {
    let mut data = (0..255).collect::<Vec<u8>>();
    rs255w223::encode(&mut data);

    for i in 0..255 {
        data[i] = b'\xff';
        let res = rs255w223::correct_errors(&mut data);
        assert_eq!(res.ok(), Some(1));
        assert_eq!(&data[0..223], &(0..223).collect::<Vec<u8>>());
    }
}

#[test]
fn rs255w223_burst() {
    let mut data = (0..255).collect::<Vec<u8>>();
    rs255w223::encode(&mut data);

    for i in 0..255-((255-223)/2) {
        data[i..i+((255-223)/2)].fill(b'\xff');
        let res = rs255w223::correct_errors(&mut data);
        assert_eq!(res.ok(), Some((255-223)/2));
        assert_eq!(&data[0..223], &(0..223).collect::<Vec<u8>>());
    }
}

#[test]
fn rs255w223_shortened() {
    let mut data = (0..40).collect::<Vec<u8>>();
    rs255w223::encode(&mut data);
    assert!(rs255w223::is_correct(&data));

    for i in 0..(40-8) {
        data[0..i].fill(b'x');
        let res = rs255w223::correct_erasures(&mut data, &(0..i).collect::<Vec<_>>());
        assert_eq!(res.ok(), Some(i));
        assert_eq!(&data[0..8], &(0..8).collect::<Vec<u8>>());
    }

    for i in 0..(40-8)/2 {
        data[0..i].fill(b'x');
        let res = rs255w223::correct_errors(&mut data);
        assert_eq!(res.ok(), Some(i));
        assert_eq!(&data[0..8], &(0..8).collect::<Vec<u8>>());
    }
}

#[test]
fn rs64w8() {
    let mut data = (0..64).collect::<Vec<u8>>();
    rs64w8::encode(&mut data);
    assert!(rs64w8::is_correct(&data));

    for i in 0..(64-8) {
        data[0..i].fill(b'x');
        let res = rs64w8::correct_erasures(&mut data, &(0..i).collect::<Vec<_>>());
        assert_eq!(res.ok(), Some(i));
        assert_eq!(&data[0..8], &(0..8).collect::<Vec<u8>>());
    }

    for i in 0..(64-8)/2 {
        data[0..i].fill(b'x');
        let res = rs64w8::correct_errors(&mut data);
        assert_eq!(res.ok(), Some(i));
        assert_eq!(&data[0..8], &(0..8).collect::<Vec<u8>>());
    }
}

#[test]
fn gf2p64_rs26w16() {
    let mut data = (0..26).collect::<Vec<u64>>();
    gf2p64_rs26w16::encode(&mut data);
    assert!(gf2p64_rs26w16::is_correct(&data));

    for i in 0..(26-16) {
        data[0..i].fill(0x7878787878787878);
        let res = gf2p64_rs26w16::correct_erasures(&mut data, &(0..i).collect::<Vec<_>>());
        assert_eq!(res.ok(), Some(i));
        assert_eq!(&data[0..16], &(0..16).collect::<Vec<u64>>());
    }

    for i in 0..(26-16)/2 {
        data[0..i].fill(0x7878787878787878);
        let res = gf2p64_rs26w16::correct_errors(&mut data);
        assert_eq!(res.ok(), Some(i));
        assert_eq!(&data[0..16], &(0..16).collect::<Vec<u64>>());
    }
}

#[test]
fn gf2p16_rs15w8() {
    let mut data = (0..15).collect::<Vec<u8>>();
    gf16_rs15w8::encode(&mut data);
    assert!(gf16_rs15w8::is_correct(&data));

    for i in 0..(15-8) {
        data[0..i].fill(0x7);
        let res = gf16_rs15w8::correct_erasures(&mut data, &(0..i).collect::<Vec<_>>());
        assert_eq!(res.ok(), Some(i));
        assert_eq!(&data[0..8], &(0..8).collect::<Vec<u8>>());
    }

    for i in 0..(15-8)/2 {
        data[0..i].fill(0x7);
        let res = gf16_rs15w8::correct_errors(&mut data);
        assert_eq!(res.ok(), Some(i));
        assert_eq!(&data[0..8], &(0..8).collect::<Vec<u8>>());
    }
}

#[test]
fn gf2p23_rs26w16() {
    let mut data = (0..26).collect::<Vec<u32>>();
    gf2p23_rs26w16::encode(&mut data);
    assert!(gf2p23_rs26w16::is_correct(&data));

    for i in 0..(26-16) {
        data[0..i].fill(0x787878);
        let res = gf2p23_rs26w16::correct_erasures(&mut data, &(0..i).collect::<Vec<_>>());
        assert_eq!(res.ok(), Some(i));
        assert_eq!(&data[0..16], &(0..16).collect::<Vec<u32>>());
    }

    for i in 0..(26-16)/2 {
        data[0..i].fill(0x787878);
        let res = gf2p23_rs26w16::correct_errors(&mut data);
        assert_eq!(res.ok(), Some(i));
        assert_eq!(&data[0..16], &(0..16).collect::<Vec<u32>>());
    }
}

#[test]
fn rs_all_params() {
    let mut data = (0..26).collect::<Vec<u8>>();
    rs26w16_all_params::encode(&mut data);
    assert!(rs26w16_all_params::is_correct(&data));

    for i in 0..(26-16) {
        data[0..i].fill(b'x');
        let res = rs26w16_all_params::correct_erasures(&mut data, &(0..i).collect::<Vec<_>>());
        assert_eq!(res.ok(), Some(i));
        assert_eq!(&data[0..16], &(0..16).collect::<Vec<u8>>());
    }

    for i in 0..(26-16)/2 {
        data[0..i].fill(b'x');
        let res = rs26w16_all_params::correct_errors(&mut data);
        assert_eq!(res.ok(), Some(i));
        assert_eq!(&data[0..16], &(0..16).collect::<Vec<u8>>());
    }
}

#[test]
fn rs_hello_world() {
    let mut buf = b"Hello World!".to_vec();
    buf.resize(buf.len() + 32, 0u8);
    rs255w223::encode(&mut buf);
    assert!(rs255w223::is_correct(&buf));

    buf[0..16].fill(b'x');
    assert!(!rs255w223::is_correct(&buf));
    let res = rs255w223::correct_errors(&mut buf);
    assert!(res.is_ok());
    assert_eq!(&buf[0..12], b"Hello World!");
}

#[test]
fn rs_too_many_erasures() {
    let mut data = (0..26).collect::<Vec<u8>>();
    rs26w16::encode(&mut data);
    data[0] = b'x';
    let before = data.clone();
    let res = rs26w16::correct_erasures(&mut data, &(0..11).collect::<Vec<_>>());
    assert_eq!(res, Err(RsError::TooManyErrors));
    assert_eq!(data, before);
    let res = rs26w16::correct(&mut data, &(0..11).collect::<Vec<_>>());
    assert_eq!(res, Err(rs26w16::Error::TooManyErrors));
    assert_eq!(data, before);
}

#[test]
fn rs_correct_mixed() {
    let mut data = (0..26).collect::<Vec<u8>>();
    rs26w16::encode(&mut data);
    let good = data.clone();

    // two known erasures and four unknown errors: 2*4 + 2 <= 10
    data[0..2].fill(b'x');
    data[10..14].fill(b'y');
    let res = rs26w16::correct(&mut data, &[0, 1]);
    assert_eq!(res, Ok(6));
    assert_eq!(data, good);

    // nothing to do
    let res = rs26w16::correct(&mut data, &[3]);
    assert_eq!(res, Ok(0));
    assert_eq!(data, good);
}

#[test]
fn rs_encode_values() {
    // the zero message has the zero codeword; a single non-zero word
    // does not
    let mut data = vec![0u8; 26];
    rs26w16::encode(&mut data);
    assert_eq!(data, vec![0u8; 26]);

    let mut data = vec![0u8; 11];
    data[0] = 1;
    rs26w16::encode(&mut data);
    assert!(rs26w16::is_correct(&data));
    assert_eq!(data[0], 1);
    assert!(data[1..].iter().any(|x| *x != 0));
}

#[test]
fn rs_correct_only_erasures() {
    let mut data = (0..26).collect::<Vec<u8>>();
    rs26w16::encode(&mut data);
    let good = data.clone();

    // all ten check words' worth of listed damage, none elsewhere
    data[3..13].fill(b'x');
    let res = rs26w16::correct(&mut data, &(3..13).collect::<Vec<_>>());
    assert_eq!(res, Ok(10));
    assert_eq!(data, good);

    // the same through the erasure decoder, over a wider field
    let mut words = (0..26).collect::<Vec<u64>>();
    gf2p64_rs26w16::encode(&mut words);
    let sent = words.clone();
    words[20..26].fill(0xffff_ffff_ffff_ffff);
    let res = gf2p64_rs26w16::correct_erasures(&mut words, &[20, 21, 22, 23, 24, 25]);
    assert_eq!(res, Ok(6));
    assert_eq!(words, sent);
}

#[test]
fn rs_single_error_each_position() {
    let mut sent: Vec<u8> = (0..26u8).map(|i| i.wrapping_mul(37)).collect();
    rs26w16::encode(&mut sent);
    for p in 0..sent.len() {
        let mut data = sent.clone();
        data[p] ^= 0x5a;
        assert_eq!(rs26w16::correct_errors(&mut data), Ok(1));
        assert_eq!(data, sent);
    }
    let mut sent16: Vec<u8> = (0..15u8).map(|i| i % 16).collect();
    gf16_rs15w8::encode(&mut sent16);
    for p in 0..sent16.len() {
        let mut data = sent16.clone();
        data[p] ^= 0x9;
        assert_eq!(gf16_rs15w8::correct_errors(&mut data), Ok(1));
        assert_eq!(data, sent16);
    }
}

#[test]
fn rs_erasures_and_one_error() {
    let mut sent: Vec<u8> = (0..26u8).map(|i| i.wrapping_mul(11).wrapping_add(3)).collect();
    rs26w16::encode(&mut sent);
    let erasures: Vec<usize> = vec![2, 7, 19, 25];
    for q in 0..sent.len() {
        let mut data = sent.clone();
        for &e in &erasures {
            data[e] = 0;
        }
        data[q] ^= 0xc3;
        assert!(rs26w16::correct(&mut data, &erasures).is_ok());
        assert_eq!(data, sent);
    }
}

#[test]
fn rs_many_errors_and_mixed() {
    let mut sent: Vec<u8> = (0..255u32).map(|i| (i * 31 + 7) as u8).collect();
    rs255w223::encode(&mut sent);
    // sixteen errors at unknown positions
    let mut data = sent.clone();
    for k in 0..16usize {
        data[k * 13 + 2] ^= (k as u8).wrapping_mul(17) | 1;
    }
    assert_eq!(rs255w223::correct_errors(&mut data), Ok(16));
    assert_eq!(data, sent);
    // ten erasures and eleven errors: 2 * 11 + 10 == 32
    let mut data = sent.clone();
    let erasures: Vec<usize> = (0..10).map(|k| k * 7 + 1).collect();
    for &e in &erasures {
        data[e] = 0;
    }
    for k in 0..11usize {
        data[k * 13 + 80] ^= 0x3c;
    }
    assert!(rs255w223::correct(&mut data, &erasures).is_ok());
    assert_eq!(data, sent);
}
