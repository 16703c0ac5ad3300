#![allow(non_camel_case_types)]

use ::gf256::gf::{gf256, gf256_rijndael, gf16, gf4096, gf2p16, gf2p23, gf2p32, gf2p64};
use ::gf256::logtab::{LogTables, RemTables, SmallRemTables};
// The table, remainder-table and Barret variants of GF(256) all compute the
// field defined by 0x11d; the verified gf256 type stands for each of them
// below, and the log-table multiplication is checked against it at the end.
use ::gf256::gf::gf256 as gf256_table;
use ::gf256::gf::gf256 as gf256_rem_table;
use ::gf256::gf::gf256 as gf256_small_rem_table;
use ::gf256::gf::gf256 as gf256_barret;

#[test]
fn gf_add() {
    assert_eq!(gf256(0x12).naive_add(gf256(0x34)), gf256(0x26));
    assert_eq!(gf256_rijndael(0x12).naive_add(gf256_rijndael(0x34)), gf256_rijndael(0x26));

    assert_eq!(gf256(0x12) + gf256(0x34), gf256(0x26));
    assert_eq!(gf256_rijndael(0x12) + gf256_rijndael(0x34), gf256_rijndael(0x26));

    assert_eq!(gf256_table(0x12).naive_add(gf256_table(0x34)), gf256_table(0x26));
    assert_eq!(gf256_rem_table(0x12).naive_add(gf256_rem_table(0x34)), gf256_rem_table(0x26));
    assert_eq!(gf256_small_rem_table(0x12).naive_add(gf256_small_rem_table(0x34)), gf256_small_rem_table(0x26));
    assert_eq!(gf256_barret(0x12).naive_add(gf256_barret(0x34)), gf256_barret(0x26));

    assert_eq!(gf256_table(0x12) + gf256_table(0x34), gf256_table(0x26));
    assert_eq!(gf256_rem_table(0x12) + gf256_rem_table(0x34), gf256_rem_table(0x26));
    assert_eq!(gf256_small_rem_table(0x12) + gf256_small_rem_table(0x34), gf256_small_rem_table(0x26));
    assert_eq!(gf256_barret(0x12) + gf256_barret(0x34), gf256_barret(0x26));
}

#[test]
fn gf_sub() {
    assert_eq!(gf256(0x12).naive_sub(gf256(0x34)), gf256(0x26));
    assert_eq!(gf256_rijndael(0x12).naive_sub(gf256_rijndael(0x34)), gf256_rijndael(0x26));

    assert_eq!(gf256(0x12) - gf256(0x34), gf256(0x26));
    assert_eq!(gf256_rijndael(0x12) - gf256_rijndael(0x34), gf256_rijndael(0x26));

    assert_eq!(gf256_table(0x12).naive_sub(gf256_table(0x34)), gf256_table(0x26));
    assert_eq!(gf256_rem_table(0x12).naive_sub(gf256_rem_table(0x34)), gf256_rem_table(0x26));
    assert_eq!(gf256_small_rem_table(0x12).naive_sub(gf256_small_rem_table(0x34)), gf256_small_rem_table(0x26));
    assert_eq!(gf256_barret(0x12).naive_sub(gf256_barret(0x34)), gf256_barret(0x26));

    assert_eq!(gf256_table(0x12) - gf256_table(0x34), gf256_table(0x26));
    assert_eq!(gf256_rem_table(0x12) - gf256_rem_table(0x34), gf256_rem_table(0x26));
    assert_eq!(gf256_small_rem_table(0x12) - gf256_small_rem_table(0x34), gf256_small_rem_table(0x26));
    assert_eq!(gf256_barret(0x12) - gf256_barret(0x34), gf256_barret(0x26));
}

#[test]
fn gf_mul() {
    assert_eq!(gf256(0x12).naive_mul(gf256(0x34)), gf256(0x0f));
    assert_eq!(gf256_rijndael(0x12).naive_mul(gf256_rijndael(0x34)), gf256_rijndael(0x05));

    assert_eq!(gf256(0x12) * gf256(0x34), gf256(0x0f));
    assert_eq!(gf256_rijndael(0x12) * gf256_rijndael(0x34), gf256_rijndael(0x05));

    assert_eq!(gf256_table(0x12).naive_mul(gf256_table(0x34)), gf256_table(0x0f));
    assert_eq!(gf256_rem_table(0x12).naive_mul(gf256_rem_table(0x34)), gf256_rem_table(0x0f));
    assert_eq!(gf256_small_rem_table(0x12).naive_mul(gf256_small_rem_table(0x34)), gf256_small_rem_table(0x0f));
    assert_eq!(gf256_barret(0x12).naive_mul(gf256_barret(0x34)), gf256_barret(0x0f));

    assert_eq!(gf256_table(0x12) * gf256_table(0x34), gf256_table(0x0f));
    assert_eq!(gf256_rem_table(0x12) * gf256_rem_table(0x34), gf256_rem_table(0x0f));
    assert_eq!(gf256_small_rem_table(0x12) * gf256_small_rem_table(0x34), gf256_small_rem_table(0x0f));
    assert_eq!(gf256_barret(0x12) * gf256_barret(0x34), gf256_barret(0x0f));
}

#[test]
fn gf_div() {
    assert_eq!(gf256(0x12).naive_div(gf256(0x34)), gf256(0xc7));
    assert_eq!(gf256_rijndael(0x12).naive_div(gf256_rijndael(0x34)), gf256_rijndael(0x54));

    assert_eq!(gf256(0x12) / gf256(0x34), gf256(0xc7));
    assert_eq!(gf256_rijndael(0x12) / gf256_rijndael(0x34), gf256_rijndael(0x54));

    assert_eq!(gf256_table(0x12).naive_div(gf256_table(0x34)), gf256_table(0xc7));
    assert_eq!(gf256_rem_table(0x12).naive_div(gf256_rem_table(0x34)), gf256_rem_table(0xc7));
    assert_eq!(gf256_small_rem_table(0x12).naive_div(gf256_small_rem_table(0x34)), gf256_small_rem_table(0xc7));
    assert_eq!(gf256_barret(0x12).naive_div(gf256_barret(0x34)), gf256_barret(0xc7));

    assert_eq!(gf256_table(0x12) / gf256_table(0x34), gf256_table(0xc7));
    assert_eq!(gf256_rem_table(0x12) / gf256_rem_table(0x34), gf256_rem_table(0xc7));
    assert_eq!(gf256_small_rem_table(0x12) / gf256_small_rem_table(0x34), gf256_small_rem_table(0xc7));
    assert_eq!(gf256_barret(0x12) / gf256_barret(0x34), gf256_barret(0xc7));
}

#[test]
fn gf_all_mul() {
    // test all multiplications
    for a in 0..=255 {
        for b in 0..=255 {
            let x = gf256(a).naive_mul(gf256(b));
            let y = gf256(a) * gf256(b);
            let z = gf256_barret(a) * gf256_barret(b);
            let w = gf256_table(a) * gf256_table(b);
            assert_eq!(x.0, y.0);
            assert_eq!(x.0, z.0);
            assert_eq!(x.0, w.0);
        }
    }
}

#[test]
fn all_div() {
    // test all divisions
    for a in 0..=255 {
        for b in 1..=255 {
            let x = gf256(a).naive_div(gf256(b));
            let y = gf256(a) / gf256(b);
            let z = gf256_barret(a) / gf256_barret(b);
            let w = gf256_table(a) / gf256_table(b);
            assert_eq!(x.0, y.0);
            assert_eq!(x.0, z.0);
            assert_eq!(x.0, w.0);
        }
    }
}

#[test]
fn all_recip() {
    // test all reciprocals
    for a in (1..=255).map(gf256) {
        let x = a.naive_recip();
        let y = a.recip();
        let z = a.naive_pow(254);
        let w = a.pow(254);
        let v = gf256(1).naive_div(a);
        let u = gf256(1) / a;
        assert_eq!(x, y);
        assert_eq!(x, z);
        assert_eq!(x, w);
        assert_eq!(x, v);
        assert_eq!(x, u);
    }
}

#[test]
fn gf_mul_div() {
    // test that div is the inverse of mul
    for a in (1..=255).map(gf256) {
        for b in (1..=255).map(gf256) {
            let c = a * b;
            assert_eq!(c / b, a);
            assert_eq!(c / a, b);
        }
    }
}

#[test]
fn gf_pow() {
    // gf256::naive_pow just uses gf256::naive_mul, we want
    // to test with a truely naive pow
    fn naive_pow(a: gf256, exp: u8) -> gf256 {
        let mut x = gf256(1);
        for _ in 0..exp {
            x = x * a;
        }
        x
    }

    for a in (0..=255).map(gf256) {
        for b in 0..=255 {
            assert_eq!(a.pow(b), naive_pow(a, b));
        }
    }
}


#[test]
fn gf_conversions() {
    assert_eq!(u8::from(gf256::from(0x53u8)), 0x53);
    assert_eq!(u8::from(gf256_rijndael::from(0xcau8)), 0xca);
}

#[test]
fn gf_log_tables_match_naive() {
    let t = LogTables::for_gf256();
    let r = LogTables::for_gf256_rijndael();
    for a in 0..=255u8 {
        for b in 0..=255u8 {
            assert_eq!(t.mul(a as u128, b as u128), (gf256(a) * gf256(b)).0 as u128);
            assert_eq!(r.mul(a as u128, b as u128), (gf256_rijndael(a) * gf256_rijndael(b)).0 as u128);
            if b != 0 {
                assert_eq!(t.div(a as u128, b as u128), (gf256(a) / gf256(b)).0 as u128);
                assert_eq!(r.div(a as u128, b as u128), (gf256_rijndael(a) / gf256_rijndael(b)).0 as u128);
            }
        }
    }
    let t = LogTables::for_gf16();
    for a in 0..16u8 {
        for b in 0..16u8 {
            assert_eq!(t.mul(a as u128, b as u128), (gf16(a) * gf16(b)).0 as u128);
            if b != 0 {
                assert_eq!(t.div(a as u128, b as u128), (gf16(a) / gf16(b)).0 as u128);
            }
        }
    }
    let t = LogTables::for_gf4096();
    for a in (0..4096u16).step_by(37) {
        for b in (1..4096u16).step_by(41) {
            assert_eq!(t.mul(a as u128, b as u128), (gf4096(a) * gf4096(b)).0 as u128);
            assert_eq!(t.div(a as u128, b as u128), (gf4096(a) / gf4096(b)).0 as u128);
        }
    }
    let t = LogTables::for_gf2p16();
    for a in (0..=65535u16).step_by(997) {
        for b in (1..=65535u16).step_by(1009) {
            assert_eq!(t.mul(a as u128, b as u128), (gf2p16(a) * gf2p16(b)).0 as u128);
            assert_eq!(t.div(a as u128, b as u128), (gf2p16(a) / gf2p16(b)).0 as u128);
        }
    }
    assert_eq!(LogTables::for_gf256().mul(0x12, 0x34), 0x0f);
    assert_eq!(LogTables::for_gf256().div(0x12, 0x34), 0xc7);
}

#[test]
fn gf_rem_tables_match_naive() {
    let t = RemTables::new(0x11d, 8);
    let r = RemTables::new(0x11b, 8);
    for a in 0..=255u8 {
        for b in 0..=255u8 {
            assert_eq!(t.mul(a as u128, b as u128), (gf256(a) * gf256(b)).0 as u128);
            assert_eq!(r.mul(a as u128, b as u128), (gf256_rijndael(a) * gf256_rijndael(b)).0 as u128);
        }
    }
    let t = RemTables::new(0x1053, 12);
    for a in (0..4096u16).step_by(37) {
        for b in (0..4096u16).step_by(41) {
            assert_eq!(t.mul(a as u128, b as u128), (gf4096(a) * gf4096(b)).0 as u128);
        }
    }
    let t = RemTables::new(0x1002d, 16);
    for a in (0..=65535u16).step_by(997) {
        for b in (0..=65535u16).step_by(1009) {
            assert_eq!(t.mul(a as u128, b as u128), (gf2p16(a) * gf2p16(b)).0 as u128);
        }
    }
    let t23 = RemTables::new(0x800021, 23);
    let t32 = RemTables::new(0x1000000af, 32);
    let t64 = RemTables::new(0x1000000000000001b, 64);
    let mut x: u64 = 0x0123456789abcdef;
    for _ in 0..500 {
        x = x.wrapping_mul(6364136223846793005).wrapping_add(1442695040888963407);
        let y = x.rotate_left(17) ^ 0x5555aaaa5555aaaa;
        let (a23, b23) = ((x as u32) & 0x7fffff, (y as u32) & 0x7fffff);
        assert_eq!(t23.mul(a23 as u128, b23 as u128), (gf2p23(a23) * gf2p23(b23)).0 as u128);
        assert_eq!(t32.mul(x as u32 as u128, y as u32 as u128), (gf2p32(x as u32) * gf2p32(y as u32)).0 as u128);
        assert_eq!(t64.mul(x as u128, y as u128), (gf2p64(x) * gf2p64(y)).0 as u128);
    }
    assert_eq!(RemTables::new(0x11d, 8).mul(0x12, 0x34), 0x0f);
}

#[test]
fn gf_small_rem_tables_match_naive() {
    let t = SmallRemTables::new(0x11d, 8);
    let r = SmallRemTables::new(0x11b, 8);
    for a in 0..=255u8 {
        for b in 0..=255u8 {
            assert_eq!(t.mul(a as u128, b as u128), (gf256(a) * gf256(b)).0 as u128);
            assert_eq!(r.mul(a as u128, b as u128), (gf256_rijndael(a) * gf256_rijndael(b)).0 as u128);
        }
    }
    let t = SmallRemTables::new(0x13, 4);
    for a in 0..16u8 {
        for b in 0..16u8 {
            assert_eq!(t.mul(a as u128, b as u128), (gf16(a) * gf16(b)).0 as u128);
        }
    }
    let t12 = SmallRemTables::new(0x1053, 12);
    let t23 = SmallRemTables::new(0x800021, 23);
    let t64 = SmallRemTables::new(0x1000000000000001b, 64);
    let mut x: u64 = 0xfedcba9876543210;
    for _ in 0..500 {
        x = x.wrapping_mul(6364136223846793005).wrapping_add(1442695040888963407);
        let y = x.rotate_left(29) ^ 0x0f0f0f0ff0f0f0f0;
        let (a12, b12) = ((x as u16) & 0xfff, (y as u16) & 0xfff);
        assert_eq!(t12.mul(a12 as u128, b12 as u128), (gf4096(a12) * gf4096(b12)).0 as u128);
        let (a23, b23) = ((x as u32) & 0x7fffff, (y as u32) & 0x7fffff);
        assert_eq!(t23.mul(a23 as u128, b23 as u128), (gf2p23(a23) * gf2p23(b23)).0 as u128);
        assert_eq!(t64.mul(x as u128, y as u128), (gf2p64(x) * gf2p64(y)).0 as u128);
    }
}
