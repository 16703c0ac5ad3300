use ::gf256::crc::{crc8, crc16, crc32, crc32c, crc64};
use ::gf256::crc::crc_naive as crc_bitwise;
use ::gf256::crc::crc_table as crc_by_table;
use ::gf256::crc::crc_small_table as crc_by_small_table;

// The table and small-table variants below are computed by the verified
// CRCs with 256- and 16-entry tables; the bitwise and Barret variants by the
// verified bitwise CRC, each with the variant's parameters.
fn crc_params(polynomial: u128, xor: Option<u128>) -> (u32, u128) {
    let mut width = 0;
    while (polynomial >> width) > 1 {
        width += 1;
    }
    (width, xor.unwrap_or((1u128 << width) - 1))
}

fn crc_with(data: &[u8], crc: u64, polynomial: u128, reflected: bool, xor: Option<u128>) -> u64 {
    let (width, xor) = crc_params(polynomial, xor);
    crc_bitwise(data, crc as u128, polynomial, width, reflected, xor) as u64
}

fn crc_with_table(data: &[u8], crc: u64, polynomial: u128, reflected: bool, xor: Option<u128>) -> u64 {
    let (width, xor) = crc_params(polynomial, xor);
    crc_by_table(data, crc as u128, polynomial, width, reflected, xor) as u64
}

fn crc_with_small_table(data: &[u8], crc: u64, polynomial: u128, reflected: bool, xor: Option<u128>) -> u64 {
    let (width, xor) = crc_params(polynomial, xor);
    crc_by_small_table(data, crc as u128, polynomial, width, reflected, xor) as u64
}

fn crc8_naive(data: &[u8], crc: u8) -> u8 { crc_with(data, crc as u64, 0x107, true, None) as u8 }
fn crc16_naive(data: &[u8], crc: u16) -> u16 { crc_with(data, crc as u64, 0x11021, true, None) as u16 }
fn crc32_naive(data: &[u8], crc: u32) -> u32 { crc_with(data, crc as u64, 0x104c11db7, true, None) as u32 }
fn crc32c_naive(data: &[u8], crc: u32) -> u32 { crc_with(data, crc as u64, 0x11edc6f41, true, None) as u32 }
fn crc64_naive(data: &[u8], crc: u64) -> u64 { crc_with(data, crc, 0x142f0e1eba9ea3693, true, None) }

fn crc8_table(data: &[u8], crc: u8) -> u8 { crc_with_table(data, crc as u64, 0x107, true, None) as u8 }
fn crc16_table(data: &[u8], crc: u16) -> u16 { crc_with_table(data, crc as u64, 0x11021, true, None) as u16 }
fn crc32_table(data: &[u8], crc: u32) -> u32 { crc_with_table(data, crc as u64, 0x104c11db7, true, None) as u32 }
fn crc32c_table(data: &[u8], crc: u32) -> u32 { crc_with_table(data, crc as u64, 0x11edc6f41, true, None) as u32 }
fn crc64_table(data: &[u8], crc: u64) -> u64 { crc_with_table(data, crc, 0x142f0e1eba9ea3693, true, None) }

fn crc8_small_table(data: &[u8], crc: u8) -> u8 { crc_with_small_table(data, crc as u64, 0x107, true, None) as u8 }
fn crc16_small_table(data: &[u8], crc: u16) -> u16 { crc_with_small_table(data, crc as u64, 0x11021, true, None) as u16 }
fn crc32_small_table(data: &[u8], crc: u32) -> u32 { crc_with_small_table(data, crc as u64, 0x104c11db7, true, None) as u32 }
fn crc32c_small_table(data: &[u8], crc: u32) -> u32 { crc_with_small_table(data, crc as u64, 0x11edc6f41, true, None) as u32 }
fn crc64_small_table(data: &[u8], crc: u64) -> u64 { crc_with_small_table(data, crc, 0x142f0e1eba9ea3693, true, None) }

use self::crc8_naive as crc8_barret;
use self::crc16_naive as crc16_barret;
use self::crc32_naive as crc32_barret;
use self::crc32c_naive as crc32c_barret;
use self::crc64_naive as crc64_barret;

fn crc4_naive(data: &[u8], crc: u8) -> u8 { crc_with(data, crc as u64, 0x13, true, None) as u8 }
fn crc12_naive(data: &[u8], crc: u16) -> u16 { crc_with(data, crc as u64, 0x11e7, true, None) as u16 }
fn crc23_naive(data: &[u8], crc: u32) -> u32 { crc_with(data, crc as u64, 0x8002a9, true, None) as u32 }
fn crc4_table(data: &[u8], crc: u8) -> u8 { crc_with_table(data, crc as u64, 0x13, true, None) as u8 }
fn crc4_small_table(data: &[u8], crc: u8) -> u8 { crc_with_small_table(data, crc as u64, 0x13, true, None) as u8 }
use self::crc4_naive as crc4_barret;
fn crc12_table(data: &[u8], crc: u16) -> u16 { crc_with_table(data, crc as u64, 0x11e7, true, None) as u16 }
fn crc12_small_table(data: &[u8], crc: u16) -> u16 { crc_with_small_table(data, crc as u64, 0x11e7, true, None) as u16 }
use self::crc12_naive as crc12_barret;
fn crc23_table(data: &[u8], crc: u32) -> u32 { crc_with_table(data, crc as u64, 0x8002a9, true, None) as u32 }
fn crc23_small_table(data: &[u8], crc: u32) -> u32 { crc_with_small_table(data, crc as u64, 0x8002a9, true, None) as u32 }
use self::crc23_naive as crc23_barret;

fn crc32_naive_unreflected(data: &[u8], crc: u32) -> u32 { crc_with(data, crc as u64, 0x104c11db7, false, None) as u32 }
fn crc32_table_unreflected(data: &[u8], crc: u32) -> u32 { crc_with_table(data, crc as u64, 0x104c11db7, false, None) as u32 }
fn crc32_small_table_unreflected(data: &[u8], crc: u32) -> u32 { crc_with_small_table(data, crc as u64, 0x104c11db7, false, None) as u32 }
use self::crc32_naive_unreflected as crc32_barret_unreflected;

fn crc32_naive_uninverted(data: &[u8], crc: u32) -> u32 { crc_with(data, crc as u64, 0x104c11db7, true, Some(0)) as u32 }
fn crc32_table_uninverted(data: &[u8], crc: u32) -> u32 { crc_with_table(data, crc as u64, 0x104c11db7, true, Some(0)) as u32 }
fn crc32_small_table_uninverted(data: &[u8], crc: u32) -> u32 { crc_with_small_table(data, crc as u64, 0x104c11db7, true, Some(0)) as u32 }
use self::crc32_naive_uninverted as crc32_barret_uninverted;

fn crc32_all_params(data: &[u8], crc: u32) -> u32 { crc_with(data, crc as u64, 0x104c11db7, true, Some(0xffffffff)) as u32 }

#[test]
fn crc() {
    assert_eq!(crc8(b"Hello World!", 0),   0xb3);
    assert_eq!(crc16(b"Hello World!", 0),  0x0bbb);
    assert_eq!(crc32(b"Hello World!", 0),  0x1c291ca3);
    assert_eq!(crc32c(b"Hello World!", 0), 0xfe6cf1dc);
    assert_eq!(crc64(b"Hello World!", 0),  0x75045245c9ea6fe2);
}

#[test]
fn crc_naive() {
    assert_eq!(crc8_naive(b"Hello World!", 0),   0xb3);
    assert_eq!(crc16_naive(b"Hello World!", 0),  0x0bbb);
    assert_eq!(crc32_naive(b"Hello World!", 0),  0x1c291ca3);
    assert_eq!(crc32c_naive(b"Hello World!", 0), 0xfe6cf1dc);
    assert_eq!(crc64_naive(b"Hello World!", 0),  0x75045245c9ea6fe2);
}

#[test]
fn crc_table() {
    assert_eq!(crc8_table(b"Hello World!", 0),   0xb3);
    assert_eq!(crc16_table(b"Hello World!", 0),  0x0bbb);
    assert_eq!(crc32_table(b"Hello World!", 0),  0x1c291ca3);
    assert_eq!(crc32c_table(b"Hello World!", 0), 0xfe6cf1dc);
    assert_eq!(crc64_table(b"Hello World!", 0),  0x75045245c9ea6fe2);
}

#[test]
fn crc_small_table() {
    assert_eq!(crc8_small_table(b"Hello World!", 0),   0xb3);
    assert_eq!(crc16_small_table(b"Hello World!", 0),  0x0bbb);
    assert_eq!(crc32_small_table(b"Hello World!", 0),  0x1c291ca3);
    assert_eq!(crc32c_small_table(b"Hello World!", 0), 0xfe6cf1dc);
    assert_eq!(crc64_small_table(b"Hello World!", 0),  0x75045245c9ea6fe2);
}

#[test]
fn crc_barret() {
    assert_eq!(crc8_barret(b"Hello World!", 0),   0xb3);
    assert_eq!(crc16_barret(b"Hello World!", 0),  0x0bbb);
    assert_eq!(crc32_barret(b"Hello World!", 0),  0x1c291ca3);
    assert_eq!(crc32c_barret(b"Hello World!", 0), 0xfe6cf1dc);
    assert_eq!(crc64_barret(b"Hello World!", 0),  0x75045245c9ea6fe2);
}

#[test]
fn crc_unaligned() {
    assert_eq!(crc8_naive(b"Hello World!!", 0),   0x2f);
    assert_eq!(crc16_naive(b"Hello World!!", 0),  0xcba0);
    assert_eq!(crc32_naive(b"Hello World!!", 0),  0xd1a8249d);
    assert_eq!(crc32c_naive(b"Hello World!!", 0), 0x1ec51c06);
    assert_eq!(crc64_naive(b"Hello World!!", 0),  0xf5a8a397b60da2e1);

    assert_eq!(crc8_table(b"Hello World!!", 0),   0x2f);
    assert_eq!(crc16_table(b"Hello World!!", 0),  0xcba0);
    assert_eq!(crc32_table(b"Hello World!!", 0),  0xd1a8249d);
    assert_eq!(crc32c_table(b"Hello World!!", 0), 0x1ec51c06);
    assert_eq!(crc64_table(b"Hello World!!", 0),  0xf5a8a397b60da2e1);

    assert_eq!(crc8_small_table(b"Hello World!!", 0),   0x2f);
    assert_eq!(crc16_small_table(b"Hello World!!", 0),  0xcba0);
    assert_eq!(crc32_small_table(b"Hello World!!", 0),  0xd1a8249d);
    assert_eq!(crc32c_small_table(b"Hello World!!", 0), 0x1ec51c06);
    assert_eq!(crc64_small_table(b"Hello World!!", 0),  0xf5a8a397b60da2e1);

    assert_eq!(crc8_barret(b"Hello World!!", 0),   0x2f);
    assert_eq!(crc16_barret(b"Hello World!!", 0),  0xcba0);
    assert_eq!(crc32_barret(b"Hello World!!", 0),  0xd1a8249d);
    assert_eq!(crc32c_barret(b"Hello World!!", 0), 0x1ec51c06);
    assert_eq!(crc64_barret(b"Hello World!!", 0),  0xf5a8a397b60da2e1);
}

#[test]
fn crc_partial() {
    assert_eq!(crc8_naive(b"World!", crc8_naive(b"Hello ", 0)),     0xb3);
    assert_eq!(crc16_naive(b"World!", crc16_naive(b"Hello ", 0)),   0x0bbb);
    assert_eq!(crc32_naive(b"World!", crc32_naive(b"Hello ", 0)),   0x1c291ca3);
    assert_eq!(crc32c_naive(b"World!", crc32c_naive(b"Hello ", 0)), 0xfe6cf1dc);
    assert_eq!(crc64_naive(b"World!", crc64_naive(b"Hello ", 0)),   0x75045245c9ea6fe2);

    assert_eq!(crc8_table(b"World!", crc8_table(b"Hello ", 0)),     0xb3);
    assert_eq!(crc16_table(b"World!", crc16_table(b"Hello ", 0)),   0x0bbb);
    assert_eq!(crc32_table(b"World!", crc32_table(b"Hello ", 0)),   0x1c291ca3);
    assert_eq!(crc32c_table(b"World!", crc32c_table(b"Hello ", 0)), 0xfe6cf1dc);
    assert_eq!(crc64_table(b"World!", crc64_table(b"Hello ", 0)),   0x75045245c9ea6fe2);

    assert_eq!(crc8_small_table(b"World!", crc8_small_table(b"Hello ", 0)),     0xb3);
    assert_eq!(crc16_small_table(b"World!", crc16_small_table(b"Hello ", 0)),   0x0bbb);
    assert_eq!(crc32_small_table(b"World!", crc32_small_table(b"Hello ", 0)),   0x1c291ca3);
    assert_eq!(crc32c_small_table(b"World!", crc32c_small_table(b"Hello ", 0)), 0xfe6cf1dc);
    assert_eq!(crc64_small_table(b"World!", crc64_small_table(b"Hello ", 0)),   0x75045245c9ea6fe2);

    assert_eq!(crc8_barret(b"World!", crc8_barret(b"Hello ", 0)),     0xb3);
    assert_eq!(crc16_barret(b"World!", crc16_barret(b"Hello ", 0)),   0x0bbb);
    assert_eq!(crc32_barret(b"World!", crc32_barret(b"Hello ", 0)),   0x1c291ca3);
    assert_eq!(crc32c_barret(b"World!", crc32c_barret(b"Hello ", 0)), 0xfe6cf1dc);
    assert_eq!(crc64_barret(b"World!", crc64_barret(b"Hello ", 0)),   0x75045245c9ea6fe2);
}




#[test]
fn crc_odd_sizes() {
    assert_eq!(crc4_naive(b"Hello World!", 0),       0x7);
    assert_eq!(crc4_table(b"Hello World!", 0),       0x7);
    assert_eq!(crc4_small_table(b"Hello World!", 0), 0x7);
    assert_eq!(crc4_barret(b"Hello World!", 0),      0x7);

    assert_eq!(crc12_naive(b"Hello World!", 0),       0x1d4);
    assert_eq!(crc12_table(b"Hello World!", 0),       0x1d4);
    assert_eq!(crc12_small_table(b"Hello World!", 0), 0x1d4);
    assert_eq!(crc12_barret(b"Hello World!", 0),      0x1d4);

    assert_eq!(crc23_naive(b"Hello World!", 0),       0x32da1c);
    assert_eq!(crc23_table(b"Hello World!", 0),       0x32da1c);
    assert_eq!(crc23_small_table(b"Hello World!", 0), 0x32da1c);
    assert_eq!(crc23_barret(b"Hello World!", 0),      0x32da1c);

    assert_eq!(crc4_naive(b"Hello World!!", 0),       0x1);
    assert_eq!(crc4_table(b"Hello World!!", 0),       0x1);
    assert_eq!(crc4_small_table(b"Hello World!!", 0), 0x1);
    assert_eq!(crc4_barret(b"Hello World!!", 0),      0x1);

    assert_eq!(crc12_naive(b"Hello World!!", 0),       0xb8d);
    assert_eq!(crc12_table(b"Hello World!!", 0),       0xb8d);
    assert_eq!(crc12_small_table(b"Hello World!!", 0), 0xb8d);
    assert_eq!(crc12_barret(b"Hello World!!", 0),      0xb8d);

    assert_eq!(crc23_naive(b"Hello World!!", 0),       0x11685a);
    assert_eq!(crc23_table(b"Hello World!!", 0),       0x11685a);
    assert_eq!(crc23_small_table(b"Hello World!!", 0), 0x11685a);
    assert_eq!(crc23_barret(b"Hello World!!", 0),      0x11685a);
}


#[test]
fn crc_unreflected() {
    assert_eq!(crc32_naive_unreflected(b"Hello World!", 0),       0x6b1a7cae);
    assert_eq!(crc32_table_unreflected(b"Hello World!", 0),       0x6b1a7cae);
    assert_eq!(crc32_small_table_unreflected(b"Hello World!", 0), 0x6b1a7cae);
    assert_eq!(crc32_barret_unreflected(b"Hello World!", 0),      0x6b1a7cae);
}


#[test]
fn crc_uninverted() {
    assert_eq!(crc32_naive_uninverted(b"Hello World!", 0),       0x67fcdacc);
    assert_eq!(crc32_table_uninverted(b"Hello World!", 0),       0x67fcdacc);
    assert_eq!(crc32_small_table_uninverted(b"Hello World!", 0), 0x67fcdacc);
    assert_eq!(crc32_barret_uninverted(b"Hello World!", 0),      0x67fcdacc);
}


#[test]
fn crc_all_params() {
    assert_eq!(crc32_all_params(b"Hello World!", 0), 0x1c291ca3);
}


#[test]
fn crc_append_gives_zero() {
    let data = b"Hello World!";
    for (poly, w) in [(0x104c11db7u128, 32u32), (0x11021, 16), (0x107, 8)] {
        let r = crc_bitwise(data, 0, poly, w, false, 0);
        let mut msg = data.to_vec();
        for i in (0..w / 8).rev() {
            msg.push((r >> (8 * i)) as u8);
        }
        assert_eq!(crc_bitwise(&msg, 0, poly, w, false, 0), 0);
    }
}

#[test]
fn crc_table_matches_bitwise() {
    let data: Vec<u8> = (0..200u32).map(|i| (i.wrapping_mul(37) ^ (i >> 3)) as u8).collect();
    for &(polynomial, reflected) in &[
        (0x7u128, false), (0xb, true), (0x13, true), (0x107, false), (0x11021, true), (0x11e7, false), (0x8002a9, true),
        (0x104c11db7, false), (0x11edc6f41, true), (0x142f0e1eba9ea3693, false), (0x1000000000000001b, true),
    ] {
        for n in [0usize, 1, 7, 64, 200] {
            let bitwise = crc_with(&data[..n], 0, polynomial, reflected, None);
            let table = crc_with_table(&data[..n], 0, polynomial, reflected, None);
            assert_eq!(bitwise, table);
            let small = crc_with_small_table(&data[..n], 0, polynomial, reflected, None);
            assert_eq!(bitwise, small);
        }
    }
}
