use ::gf256::shamir::shamir as gf256_shamir;
use ::gf256::shamir::{shamir_all_params, gf16_shamir, gf2p23_shamir, gf2p64_shamir};
use core::convert::TryFrom;



#[test]
fn shamir5w4() {
    let input = b"Hello World!";
    let shares = gf256_shamir::generate(input, 5, 4);
    assert_eq!(shares.len(), 5);
    for i in 0..5 {
        let output = gf256_shamir::reconstruct(&shares[..i]);
        if i < 4 {
            assert_ne!(output, input);
        } else {
            assert_eq!(output, input);
        }
    }
}

#[test]
fn shamir255w100() {
    let input = b"Hello World!";
    let shares = gf256_shamir::generate(input, 255, 100);
    assert_eq!(shares.len(), 255);
    for i in (0..255).step_by(51) {
        let output = gf256_shamir::reconstruct(&shares[..i]);
        if i < 100 {
            assert_ne!(output, input);
        } else {
            assert_eq!(output, input);
        }
    }
}


#[test]
fn gf2p64_shamir300w100() {
    let input = b"Hello World!\0\0\0\0"
        .chunks(8)
        .map(|chunk| u64::from_le_bytes(<_>::try_from(chunk).unwrap()))
        .collect::<Vec<_>>();
    let shares = gf2p64_shamir::generate(&input, 300, 100);
    assert_eq!(shares.len(), 300);
    for i in (0..300).step_by(50) {
        let output = gf2p64_shamir::reconstruct(&shares[..i]);
        if i < 100 {
            assert_ne!(output, input);
        } else {
            assert_eq!(output, input);
        }
    }
}



#[test]
fn gf16_shamir15w10() {
    let input = b"Hello World!"
        .iter()
        .map(|b| [(b >> 0) & 0xf, (b >> 4) & 0xf])
        .flatten()
        .collect::<Vec<_>>();
    let shares = gf16_shamir::generate(&input, 15, 10);
    assert_eq!(shares.len(), 15);
    for i in 0..15 {
        let output = gf16_shamir::reconstruct(&shares[..i]);
        if i < 10 {
            assert_ne!(output, input);
        } else {
            assert_eq!(output, input);
        }
    }
}

#[test]
fn gf2p23_shamir300w100() {
    let input = b"Hello World!"
        .chunks(2)
        .map(|chunk| u32::from(u16::from_le_bytes(<_>::try_from(chunk).unwrap())))
        .collect::<Vec<_>>();
    let shares = gf2p23_shamir::generate(&input, 300, 100);
    assert_eq!(shares.len(), 300);
    for i in (0..300).step_by(50) {
        let output = gf2p23_shamir::reconstruct(&shares[..i]);
        if i < 100 {
            assert_ne!(output, input);
        } else {
            assert_eq!(output, input);
        }
    }
}



#[test]
fn shamir_all_params() {
    let input = b"Hello World!";
    let shares = shamir_all_params::generate(input, 255, 100);
    assert_eq!(shares.len(), 255);
    for i in (0..255).step_by(10) {
        let output = shamir_all_params::reconstruct(&shares[..i]);
        if i < 100 {
            assert_ne!(output, input);
        } else {
            assert_eq!(output, input);
        }
    }
}

#[test]
fn shamir_threshold_zero_is_one() {
    let input = b"secret";
    let shares = gf256_shamir::generate(input, 3, 0);
    assert_eq!(shares.len(), 3);
    for s in &shares {
        assert_eq!(gf256_shamir::reconstruct(&[s.clone()]), input.to_vec());
    }
}

#[test]
fn shamir_generate_with_given_coefficients() {
    let shares = gf256_shamir::generate_with(&[5u8], 3, &[vec![3u8]]);
    assert_eq!(shares, vec![vec![1, 6], vec![2, 3], vec![3, 0]]);
    assert_eq!(gf256_shamir::reconstruct(&shares[1..]), vec![5u8]);
}
