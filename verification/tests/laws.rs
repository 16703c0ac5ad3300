use ::gf256::gf::{gf16, gf256, gf256_rijndael, gf2p64};
use ::gf256::p::p8;
use ::gf256::lfsr::{Lfsr, Lfsr8, Lfsr16};
use ::gf256::crc::crc32;

#[test]
fn gf_field_axioms() {
    let a = gf256(0xfd);
    let b = gf256(0xfe);
    let c = gf256(0xff);
    assert_eq!(a * (b + c), a * b + a * c);
    assert_eq!((a + b) - b, a);
    assert_eq!((a * b) / b, a);
    assert_eq!(a.checked_div(gf256(0)), None);
    assert_eq!(a + gf256(0), a);
    assert_eq!(a * gf256(1), a);
    assert_eq!(a + (b + c), (a + b) + c);
    assert_eq!(a * (b * c), (a * b) * c);
    assert_eq!(a + b, b + a);
    assert_eq!(a * b, b * a);
    assert_eq!(gf256(1) + gf256(1), gf256(0));
    assert_ne!(a + a, gf256(2) * a);
}

#[test]
fn gf_division_undoes_multiplication() {
    for x in 0..=255u8 {
        for y in 1..=255u8 {
            assert_eq!((gf256(x) * gf256(y)) / gf256(y), gf256(x));
            assert_eq!((gf256_rijndael(x) * gf256_rijndael(y)) / gf256_rijndael(y), gf256_rijndael(x));
        }
        if x != 0 {
            assert_eq!(gf256(x) * gf256(x).recip(), gf256(1));
        }
    }
    for x in 0..16u8 {
        for y in 1..16u8 {
            assert_eq!((gf16(x) * gf16(y)) / gf16(y), gf16(x));
        }
    }
    let a = gf2p64(0x123456789abcdef1);
    let b = gf2p64(0xfedcba9876543210);
    assert_eq!((a * b) / b, a);
}

#[test]
fn p_division_identity() {
    let a = p8(0b1111110);
    let b = p8(0b1011);
    let q = a / b;
    let r = a % b;
    assert_eq!(q * b + r, a);
    assert_eq!((p8(0b1101) * b) / b, p8(0b1101));
    assert_eq!((p8(0b1101) * b) % b, p8(0));
}

#[test]
fn lfsr_prev_undoes_next() {
    let mut lfsr = Lfsr16::new(0x1234);
    let a = lfsr.next(16);
    let b = lfsr.next(7);
    assert_eq!(lfsr.prev(7), b);
    assert_eq!(lfsr.prev(16), a);
    assert_eq!(lfsr.next(16), a);

    let mut l = Lfsr::new(0x11d, true, 0x5a);
    let before = l.register_value();
    l.skip(1000);
    l.skip_backwards(1000);
    assert_eq!(l.register_value(), before);
}

#[test]
fn lfsr_skips_compose() {
    let mut a = Lfsr16::new(1);
    let mut b = Lfsr16::new(1);
    a.skip(100);
    a.skip(23);
    b.skip(123);
    assert_eq!(a.next(16), b.next(16));
}

#[test]
fn lfsr8_period() {
    let mut l = Lfsr8::new(0x37);
    let start = l.next(8);
    l.prev(8);
    for _ in 0..255 {
        l.next(1);
    }
    assert_eq!(l.next(8), start);
}

#[test]
fn crc_concatenation() {
    let whole = crc32(b"Hello World!", 0);
    let part = crc32(b"Hello ", 0);
    assert_eq!(crc32(b"World!", part), whole);
}
