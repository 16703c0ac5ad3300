use ::gf256::xmul::{xmul8, xmul16, xmul32, xmul64, xmul128};

#[test]
fn xmul() {
    assert_eq!(xmul8(0x12, 0x12), (0x04, 0x01));
    assert_eq!(xmul16(0x1234, 0x1234), (0x0510, 0x0104));
    assert_eq!(xmul32(0x12345678, 0x12345678), (0x11141540, 0x01040510));
    assert_eq!(xmul64(0x123456789abcdef1, 0x123456789abcdef1), (0x4144455051545501, 0x0104051011141540));
    assert_eq!(xmul128(0x123456789abcdef123456789abcdef12, 0x123456789abcdef123456789abcdef12), (0x04051011141540414445505154550104, 0x01040510111415404144455051545501));
}

#[test]
fn xmul_edges() {
    // multiplying by one keeps the factor in the low half
    assert_eq!(xmul8(0xff, 0x01), (0xff, 0x00));
    assert_eq!(xmul64(u64::MAX, 1), (u64::MAX, 0));
    // the top digits meet at the top of the high half
    assert_eq!(xmul8(0x80, 0x80), (0x00, 0x40));
    assert_eq!(xmul128(1 << 127, 1 << 127), (0, 1 << 126));
    // zero annihilates
    assert_eq!(xmul32(0, 0xdeadbeef), (0, 0));
}
