use std::iter;
use std::collections::BTreeSet;
use std::iter::FromIterator;
use ::gf256::lfsr::{Lfsr, Lfsr8, Lfsr16, Lfsr32, Lfsr64, LfsrTables};

// Each LFSR variant below is the general verified LFSR with the variant's
// polynomial and reflection.
struct Lfsr8Naive;
impl Lfsr8Naive {
    fn new(seed: u64) -> Lfsr {
        Lfsr::new(0x11d, false, seed)
    }
}

struct Lfsr8Table;
impl Lfsr8Table {
    fn new(seed: u64) -> Lfsr {
        Lfsr::new(0x11d, false, seed)
    }
}

struct Lfsr8SmallTable;
impl Lfsr8SmallTable {
    fn new(seed: u64) -> Lfsr {
        Lfsr::new(0x11d, false, seed)
    }
}

struct Lfsr8Barret;
impl Lfsr8Barret {
    fn new(seed: u64) -> Lfsr {
        Lfsr::new(0x11d, false, seed)
    }
}

struct Lfsr8TableBarret;
impl Lfsr8TableBarret {
    fn new(seed: u64) -> Lfsr {
        Lfsr::new(0x11d, false, seed)
    }
}

struct Lfsr8SmallTableBarret;
impl Lfsr8SmallTableBarret {
    fn new(seed: u64) -> Lfsr {
        Lfsr::new(0x11d, false, seed)
    }
}

struct Lfsr16Naive;
impl Lfsr16Naive {
    fn new(seed: u64) -> Lfsr {
        Lfsr::new(0x1002d, false, seed)
    }
}

struct Lfsr16Table;
impl Lfsr16Table {
    fn new(seed: u64) -> Lfsr {
        Lfsr::new(0x1002d, false, seed)
    }
}

struct Lfsr16SmallTable;
impl Lfsr16SmallTable {
    fn new(seed: u64) -> Lfsr {
        Lfsr::new(0x1002d, false, seed)
    }
}

struct Lfsr16Barret;
impl Lfsr16Barret {
    fn new(seed: u64) -> Lfsr {
        Lfsr::new(0x1002d, false, seed)
    }
}

struct Lfsr16TableBarret;
impl Lfsr16TableBarret {
    fn new(seed: u64) -> Lfsr {
        Lfsr::new(0x1002d, false, seed)
    }
}

struct Lfsr16SmallTableBarret;
impl Lfsr16SmallTableBarret {
    fn new(seed: u64) -> Lfsr {
        Lfsr::new(0x1002d, false, seed)
    }
}

struct Lfsr32Naive;
impl Lfsr32Naive {
    fn new(seed: u64) -> Lfsr {
        Lfsr::new(0x1000000af, false, seed)
    }
}

struct Lfsr32Table;
impl Lfsr32Table {
    fn new(seed: u64) -> Lfsr {
        Lfsr::new(0x1000000af, false, seed)
    }
}

struct Lfsr32SmallTable;
impl Lfsr32SmallTable {
    fn new(seed: u64) -> Lfsr {
        Lfsr::new(0x1000000af, false, seed)
    }
}

struct Lfsr32Barret;
impl Lfsr32Barret {
    fn new(seed: u64) -> Lfsr {
        Lfsr::new(0x1000000af, false, seed)
    }
}

struct Lfsr32TableBarret;
impl Lfsr32TableBarret {
    fn new(seed: u64) -> Lfsr {
        Lfsr::new(0x1000000af, false, seed)
    }
}

struct Lfsr32SmallTableBarret;
impl Lfsr32SmallTableBarret {
    fn new(seed: u64) -> Lfsr {
        Lfsr::new(0x1000000af, false, seed)
    }
}

struct Lfsr64Naive;
impl Lfsr64Naive {
    fn new(seed: u64) -> Lfsr {
        Lfsr::new(0x1000000000000001b, false, seed)
    }
}

struct Lfsr64Table;
impl Lfsr64Table {
    fn new(seed: u64) -> Lfsr {
        Lfsr::new(0x1000000000000001b, false, seed)
    }
}

struct Lfsr64SmallTable;
impl Lfsr64SmallTable {
    fn new(seed: u64) -> Lfsr {
        Lfsr::new(0x1000000000000001b, false, seed)
    }
}

struct Lfsr64Barret;
impl Lfsr64Barret {
    fn new(seed: u64) -> Lfsr {
        Lfsr::new(0x1000000000000001b, false, seed)
    }
}

struct Lfsr64TableBarret;
impl Lfsr64TableBarret {
    fn new(seed: u64) -> Lfsr {
        Lfsr::new(0x1000000000000001b, false, seed)
    }
}

struct Lfsr64SmallTableBarret;
impl Lfsr64SmallTableBarret {
    fn new(seed: u64) -> Lfsr {
        Lfsr::new(0x1000000000000001b, false, seed)
    }
}

struct Lfsr4Naive;
impl Lfsr4Naive {
    fn new(seed: u64) -> Lfsr {
        Lfsr::new(0x13, false, seed)
    }
}

struct Lfsr4Table;
impl Lfsr4Table {
    fn new(seed: u64) -> Lfsr {
        Lfsr::new(0x13, false, seed)
    }
}

struct Lfsr4SmallTable;
impl Lfsr4SmallTable {
    fn new(seed: u64) -> Lfsr {
        Lfsr::new(0x13, false, seed)
    }
}

struct Lfsr4Barret;
impl Lfsr4Barret {
    fn new(seed: u64) -> Lfsr {
        Lfsr::new(0x13, false, seed)
    }
}

struct Lfsr4TableBarret;
impl Lfsr4TableBarret {
    fn new(seed: u64) -> Lfsr {
        Lfsr::new(0x13, false, seed)
    }
}

struct Lfsr4SmallTableBarret;
impl Lfsr4SmallTableBarret {
    fn new(seed: u64) -> Lfsr {
        Lfsr::new(0x13, false, seed)
    }
}

struct Lfsr12Naive;
impl Lfsr12Naive {
    fn new(seed: u64) -> Lfsr {
        Lfsr::new(0x1053, false, seed)
    }
}

struct Lfsr12Table;
impl Lfsr12Table {
    fn new(seed: u64) -> Lfsr {
        Lfsr::new(0x1053, false, seed)
    }
}

struct Lfsr12SmallTable;
impl Lfsr12SmallTable {
    fn new(seed: u64) -> Lfsr {
        Lfsr::new(0x1053, false, seed)
    }
}

struct Lfsr12Barret;
impl Lfsr12Barret {
    fn new(seed: u64) -> Lfsr {
        Lfsr::new(0x1053, false, seed)
    }
}

struct Lfsr12TableBarret;
impl Lfsr12TableBarret {
    fn new(seed: u64) -> Lfsr {
        Lfsr::new(0x1053, false, seed)
    }
}

struct Lfsr12SmallTableBarret;
impl Lfsr12SmallTableBarret {
    fn new(seed: u64) -> Lfsr {
        Lfsr::new(0x1053, false, seed)
    }
}

struct Lfsr23Naive;
impl Lfsr23Naive {
    fn new(seed: u64) -> Lfsr {
        Lfsr::new(0x800021, false, seed)
    }
}

struct Lfsr23Table;
impl Lfsr23Table {
    fn new(seed: u64) -> Lfsr {
        Lfsr::new(0x800021, false, seed)
    }
}

struct Lfsr23SmallTable;
impl Lfsr23SmallTable {
    fn new(seed: u64) -> Lfsr {
        Lfsr::new(0x800021, false, seed)
    }
}

struct Lfsr23Barret;
impl Lfsr23Barret {
    fn new(seed: u64) -> Lfsr {
        Lfsr::new(0x800021, false, seed)
    }
}

struct Lfsr23TableBarret;
impl Lfsr23TableBarret {
    fn new(seed: u64) -> Lfsr {
        Lfsr::new(0x800021, false, seed)
    }
}

struct Lfsr23SmallTableBarret;
impl Lfsr23SmallTableBarret {
    fn new(seed: u64) -> Lfsr {
        Lfsr::new(0x800021, false, seed)
    }
}

struct Lfsr64NaiveReflected;
impl Lfsr64NaiveReflected {
    fn new(seed: u64) -> Lfsr {
        Lfsr::new(0x1000000000000001b, true, seed)
    }
}

struct Lfsr64TableReflected;
impl Lfsr64TableReflected {
    fn new(seed: u64) -> Lfsr {
        Lfsr::new(0x1000000000000001b, true, seed)
    }
}

struct Lfsr64SmallTableReflected;
impl Lfsr64SmallTableReflected {
    fn new(seed: u64) -> Lfsr {
        Lfsr::new(0x1000000000000001b, true, seed)
    }
}

struct Lfsr64BarretReflected;
impl Lfsr64BarretReflected {
    fn new(seed: u64) -> Lfsr {
        Lfsr::new(0x1000000000000001b, true, seed)
    }
}

struct Lfsr64TableBarretReflected;
impl Lfsr64TableBarretReflected {
    fn new(seed: u64) -> Lfsr {
        Lfsr::new(0x1000000000000001b, true, seed)
    }
}

struct Lfsr64SmallTableBarretReflected;
impl Lfsr64SmallTableBarretReflected {
    fn new(seed: u64) -> Lfsr {
        Lfsr::new(0x1000000000000001b, true, seed)
    }
}

// The macro instance with every parameter spelled out.
struct Lfsr64AllParams;
impl Lfsr64AllParams {
    fn new(seed: u64) -> Lfsr {
        Lfsr::new(0x1000000000000001b, false, seed)
    }
}

#[test]
fn lfsr() {
    let mut lfsr8 = Lfsr8::new(1);
    let buf = iter::repeat_with(|| lfsr8.next(8)).take(8).collect::<Vec<_>>();
    assert_eq!(buf, &[0x01,0x1c,0x4b,0x81,0x92,0x6e,0x41,0x5b]);
    let buf = iter::repeat_with(|| lfsr8.prev(8)).take(8).collect::<Vec<_>>();
    assert_eq!(buf, &[0x5b,0x41,0x6e,0x92,0x81,0x4b,0x1c,0x01]);

    let mut lfsr16 = Lfsr16::new(1);
    let buf = iter::repeat_with(|| lfsr16.next(16)).take(8).collect::<Vec<_>>();
    assert_eq!(buf, &[0x0001,0x002d,0x0451,0xbdad,0x13d3,0xb877,0x94e7,0xfcb8]);
    let buf = iter::repeat_with(|| lfsr16.prev(16)).take(8).collect::<Vec<_>>();
    assert_eq!(buf, &[0xfcb8,0x94e7,0xb877,0x13d3,0xbdad,0x0451,0x002d,0x0001]);

    let mut lfsr32 = Lfsr32::new(1);
    let buf = iter::repeat_with(|| lfsr32.next(32)).take(8).collect::<Vec<_>>();
    assert_eq!(buf, &[0x00000001,0x000000af,0x00004455,0x00295f23,0x1010111b,0xfafa511e,0x11579360,0x7d21bf13]);
    let buf = iter::repeat_with(|| lfsr32.prev(32)).take(8).collect::<Vec<_>>();
    assert_eq!(buf, &[0x7d21bf13,0x11579360,0xfafa511e,0x1010111b,0x00295f23,0x00004455,0x000000af,0x00000001]);

    let mut lfsr64 = Lfsr64::new(1);
    let buf = iter::repeat_with(|| lfsr64.next(64)).take(8).collect::<Vec<_>>();
    assert_eq!(buf, &[0x0000000000000001,0x000000000000001b,0x0000000000000145,0x0000000000001db7,0x0000000000011011,0x00000000001ab1ab,0x0000000001514515,0x000000001c6db6c7]);
    let buf = iter::repeat_with(|| lfsr64.prev(64)).take(8).collect::<Vec<_>>();
    assert_eq!(buf, &[0x000000001c6db6c7,0x0000000001514515,0x00000000001ab1ab,0x0000000000011011,0x0000000000001db7,0x0000000000000145,0x000000000000001b,0x0000000000000001]);
}

#[test]
fn lfsr_skip() {
    let mut lfsr8 = Lfsr8::new(1);
    lfsr8.skip(8*8);
    let buf = iter::repeat_with(|| lfsr8.prev(8)).take(8).collect::<Vec<_>>();
    assert_eq!(buf, &[0x5b,0x41,0x6e,0x92,0x81,0x4b,0x1c,0x01]);

    let mut lfsr16 = Lfsr16::new(1);
    lfsr16.skip(16*8);
    let buf = iter::repeat_with(|| lfsr16.prev(16)).take(8).collect::<Vec<_>>();
    assert_eq!(buf, &[0xfcb8,0x94e7,0xb877,0x13d3,0xbdad,0x0451,0x002d,0x0001]);

    let mut lfsr32 = Lfsr32::new(1);
    lfsr32.skip(32*8);
    let buf = iter::repeat_with(|| lfsr32.prev(32)).take(8).collect::<Vec<_>>();
    assert_eq!(buf, &[0x7d21bf13,0x11579360,0xfafa511e,0x1010111b,0x00295f23,0x00004455,0x000000af,0x00000001]);

    let mut lfsr64 = Lfsr64::new(1);
    lfsr64.skip(64*8);
    let buf = iter::repeat_with(|| lfsr64.prev(64)).take(8).collect::<Vec<_>>();
    assert_eq!(buf, &[0x000000001c6db6c7,0x0000000001514515,0x00000000001ab1ab,0x0000000000011011,0x0000000000001db7,0x0000000000000145,0x000000000000001b,0x0000000000000001]);
}

#[test]
fn lfsr_skip_backwards() {
    let mut lfsr8 = Lfsr8::new(1);
    lfsr8.skip(8*16);
    lfsr8.skip_backwards(8*8);
    let buf = iter::repeat_with(|| lfsr8.prev(8)).take(8).collect::<Vec<_>>();
    assert_eq!(buf, &[0x5b,0x41,0x6e,0x92,0x81,0x4b,0x1c,0x01]);

    let mut lfsr16 = Lfsr16::new(1);
    lfsr16.skip(16*16);
    lfsr16.skip_backwards(16*8);
    let buf = iter::repeat_with(|| lfsr16.prev(16)).take(8).collect::<Vec<_>>();
    assert_eq!(buf, &[0xfcb8,0x94e7,0xb877,0x13d3,0xbdad,0x0451,0x002d,0x0001]);

    let mut lfsr32 = Lfsr32::new(1);
    lfsr32.skip(32*16);
    lfsr32.skip_backwards(32*8);
    let buf = iter::repeat_with(|| lfsr32.prev(32)).take(8).collect::<Vec<_>>();
    assert_eq!(buf, &[0x7d21bf13,0x11579360,0xfafa511e,0x1010111b,0x00295f23,0x00004455,0x000000af,0x00000001]);

    let mut lfsr64 = Lfsr64::new(1);
    lfsr64.skip(64*16);
    lfsr64.skip_backwards(64*8);
    let buf = iter::repeat_with(|| lfsr64.prev(64)).take(8).collect::<Vec<_>>();
    assert_eq!(buf, &[0x000000001c6db6c7,0x0000000001514515,0x00000000001ab1ab,0x0000000000011011,0x0000000000001db7,0x0000000000000145,0x000000000000001b,0x0000000000000001]);
}

// explicit modes

// test explicit div/rem modes
#[test]
fn lfsr_naive() {
    let mut lfsr8_naive = Lfsr8Naive::new(1);
    let buf = iter::repeat_with(|| lfsr8_naive.next(8)).take(8).collect::<Vec<_>>();
    assert_eq!(buf, &[0x01,0x1c,0x4b,0x81,0x92,0x6e,0x41,0x5b]);
    let buf = iter::repeat_with(|| lfsr8_naive.prev(8)).take(8).collect::<Vec<_>>();
    assert_eq!(buf, &[0x5b,0x41,0x6e,0x92,0x81,0x4b,0x1c,0x01]);

    let mut lfsr16_naive = Lfsr16Naive::new(1);
    let buf = iter::repeat_with(|| lfsr16_naive.next(16)).take(8).collect::<Vec<_>>();
    assert_eq!(buf, &[0x0001,0x002d,0x0451,0xbdad,0x13d3,0xb877,0x94e7,0xfcb8]);
    let buf = iter::repeat_with(|| lfsr16_naive.prev(16)).take(8).collect::<Vec<_>>();
    assert_eq!(buf, &[0xfcb8,0x94e7,0xb877,0x13d3,0xbdad,0x0451,0x002d,0x0001]);

    let mut lfsr32_naive = Lfsr32Naive::new(1);
    let buf = iter::repeat_with(|| lfsr32_naive.next(32)).take(8).collect::<Vec<_>>();
    assert_eq!(buf, &[0x00000001,0x000000af,0x00004455,0x00295f23,0x1010111b,0xfafa511e,0x11579360,0x7d21bf13]);
    let buf = iter::repeat_with(|| lfsr32_naive.prev(32)).take(8).collect::<Vec<_>>();
    assert_eq!(buf, &[0x7d21bf13,0x11579360,0xfafa511e,0x1010111b,0x00295f23,0x00004455,0x000000af,0x00000001]);

    let mut lfsr64_naive = Lfsr64Naive::new(1);
    let buf = iter::repeat_with(|| lfsr64_naive.next(64)).take(8).collect::<Vec<_>>();
    assert_eq!(buf, &[0x0000000000000001,0x000000000000001b,0x0000000000000145,0x0000000000001db7,0x0000000000011011,0x00000000001ab1ab,0x0000000001514515,0x000000001c6db6c7]);
    let buf = iter::repeat_with(|| lfsr64_naive.prev(64)).take(8).collect::<Vec<_>>();
    assert_eq!(buf, &[0x000000001c6db6c7,0x0000000001514515,0x00000000001ab1ab,0x0000000000011011,0x0000000000001db7,0x0000000000000145,0x000000000000001b,0x0000000000000001]);
}

#[test]
fn lfsr_table() {
    let mut lfsr8_table = Lfsr8Table::new(1);
    let buf = iter::repeat_with(|| lfsr8_table.next(8)).take(8).collect::<Vec<_>>();
    assert_eq!(buf, &[0x01,0x1c,0x4b,0x81,0x92,0x6e,0x41,0x5b]);
    let buf = iter::repeat_with(|| lfsr8_table.prev(8)).take(8).collect::<Vec<_>>();
    assert_eq!(buf, &[0x5b,0x41,0x6e,0x92,0x81,0x4b,0x1c,0x01]);

    let mut lfsr16_table = Lfsr16Table::new(1);
    let buf = iter::repeat_with(|| lfsr16_table.next(16)).take(8).collect::<Vec<_>>();
    assert_eq!(buf, &[0x0001,0x002d,0x0451,0xbdad,0x13d3,0xb877,0x94e7,0xfcb8]);
    let buf = iter::repeat_with(|| lfsr16_table.prev(16)).take(8).collect::<Vec<_>>();
    assert_eq!(buf, &[0xfcb8,0x94e7,0xb877,0x13d3,0xbdad,0x0451,0x002d,0x0001]);

    let mut lfsr32_table = Lfsr32Table::new(1);
    let buf = iter::repeat_with(|| lfsr32_table.next(32)).take(8).collect::<Vec<_>>();
    assert_eq!(buf, &[0x00000001,0x000000af,0x00004455,0x00295f23,0x1010111b,0xfafa511e,0x11579360,0x7d21bf13]);
    let buf = iter::repeat_with(|| lfsr32_table.prev(32)).take(8).collect::<Vec<_>>();
    assert_eq!(buf, &[0x7d21bf13,0x11579360,0xfafa511e,0x1010111b,0x00295f23,0x00004455,0x000000af,0x00000001]);

    let mut lfsr64_table = Lfsr64Table::new(1);
    let buf = iter::repeat_with(|| lfsr64_table.next(64)).take(8).collect::<Vec<_>>();
    assert_eq!(buf, &[0x0000000000000001,0x000000000000001b,0x0000000000000145,0x0000000000001db7,0x0000000000011011,0x00000000001ab1ab,0x0000000001514515,0x000000001c6db6c7]);
    let buf = iter::repeat_with(|| lfsr64_table.prev(64)).take(8).collect::<Vec<_>>();
    assert_eq!(buf, &[0x000000001c6db6c7,0x0000000001514515,0x00000000001ab1ab,0x0000000000011011,0x0000000000001db7,0x0000000000000145,0x000000000000001b,0x0000000000000001]);
}

#[test]
fn lfsr_small_table() {
    let mut lfsr8_small_table = Lfsr8SmallTable::new(1);
    let buf = iter::repeat_with(|| lfsr8_small_table.next(8)).take(8).collect::<Vec<_>>();
    assert_eq!(buf, &[0x01,0x1c,0x4b,0x81,0x92,0x6e,0x41,0x5b]);
    let buf = iter::repeat_with(|| lfsr8_small_table.prev(8)).take(8).collect::<Vec<_>>();
    assert_eq!(buf, &[0x5b,0x41,0x6e,0x92,0x81,0x4b,0x1c,0x01]);

    let mut lfsr16_small_table = Lfsr16SmallTable::new(1);
    let buf = iter::repeat_with(|| lfsr16_small_table.next(16)).take(8).collect::<Vec<_>>();
    assert_eq!(buf, &[0x0001,0x002d,0x0451,0xbdad,0x13d3,0xb877,0x94e7,0xfcb8]);
    let buf = iter::repeat_with(|| lfsr16_small_table.prev(16)).take(8).collect::<Vec<_>>();
    assert_eq!(buf, &[0xfcb8,0x94e7,0xb877,0x13d3,0xbdad,0x0451,0x002d,0x0001]);

    let mut lfsr32_small_table = Lfsr32SmallTable::new(1);
    let buf = iter::repeat_with(|| lfsr32_small_table.next(32)).take(8).collect::<Vec<_>>();
    assert_eq!(buf, &[0x00000001,0x000000af,0x00004455,0x00295f23,0x1010111b,0xfafa511e,0x11579360,0x7d21bf13]);
    let buf = iter::repeat_with(|| lfsr32_small_table.prev(32)).take(8).collect::<Vec<_>>();
    assert_eq!(buf, &[0x7d21bf13,0x11579360,0xfafa511e,0x1010111b,0x00295f23,0x00004455,0x000000af,0x00000001]);

    let mut lfsr64_small_table = Lfsr64SmallTable::new(1);
    let buf = iter::repeat_with(|| lfsr64_small_table.next(64)).take(8).collect::<Vec<_>>();
    assert_eq!(buf, &[0x0000000000000001,0x000000000000001b,0x0000000000000145,0x0000000000001db7,0x0000000000011011,0x00000000001ab1ab,0x0000000001514515,0x000000001c6db6c7]);
    let buf = iter::repeat_with(|| lfsr64_small_table.prev(64)).take(8).collect::<Vec<_>>();
    assert_eq!(buf, &[0x000000001c6db6c7,0x0000000001514515,0x00000000001ab1ab,0x0000000000011011,0x0000000000001db7,0x0000000000000145,0x000000000000001b,0x0000000000000001]);
}

#[test]
fn lfsr_barret() {
    let mut lfsr8_barret = Lfsr8Barret::new(1);
    let buf = iter::repeat_with(|| lfsr8_barret.next(8)).take(8).collect::<Vec<_>>();
    assert_eq!(buf, &[0x01,0x1c,0x4b,0x81,0x92,0x6e,0x41,0x5b]);
    let buf = iter::repeat_with(|| lfsr8_barret.prev(8)).take(8).collect::<Vec<_>>();
    assert_eq!(buf, &[0x5b,0x41,0x6e,0x92,0x81,0x4b,0x1c,0x01]);

    let mut lfsr16_barret = Lfsr16Barret::new(1);
    let buf = iter::repeat_with(|| lfsr16_barret.next(16)).take(8).collect::<Vec<_>>();
    assert_eq!(buf, &[0x0001,0x002d,0x0451,0xbdad,0x13d3,0xb877,0x94e7,0xfcb8]);
    let buf = iter::repeat_with(|| lfsr16_barret.prev(16)).take(8).collect::<Vec<_>>();
    assert_eq!(buf, &[0xfcb8,0x94e7,0xb877,0x13d3,0xbdad,0x0451,0x002d,0x0001]);

    let mut lfsr32_barret = Lfsr32Barret::new(1);
    let buf = iter::repeat_with(|| lfsr32_barret.next(32)).take(8).collect::<Vec<_>>();
    assert_eq!(buf, &[0x00000001,0x000000af,0x00004455,0x00295f23,0x1010111b,0xfafa511e,0x11579360,0x7d21bf13]);
    let buf = iter::repeat_with(|| lfsr32_barret.prev(32)).take(8).collect::<Vec<_>>();
    assert_eq!(buf, &[0x7d21bf13,0x11579360,0xfafa511e,0x1010111b,0x00295f23,0x00004455,0x000000af,0x00000001]);

    let mut lfsr64_barret = Lfsr64Barret::new(1);
    let buf = iter::repeat_with(|| lfsr64_barret.next(64)).take(8).collect::<Vec<_>>();
    assert_eq!(buf, &[0x0000000000000001,0x000000000000001b,0x0000000000000145,0x0000000000001db7,0x0000000000011011,0x00000000001ab1ab,0x0000000001514515,0x000000001c6db6c7]);
    let buf = iter::repeat_with(|| lfsr64_barret.prev(64)).take(8).collect::<Vec<_>>();
    assert_eq!(buf, &[0x000000001c6db6c7,0x0000000001514515,0x00000000001ab1ab,0x0000000000011011,0x0000000000001db7,0x0000000000000145,0x000000000000001b,0x0000000000000001]);
}

#[test]
fn lfsr_table_barret() {
    let mut lfsr8_table_barret = Lfsr8TableBarret::new(1);
    let buf = iter::repeat_with(|| lfsr8_table_barret.next(8)).take(8).collect::<Vec<_>>();
    assert_eq!(buf, &[0x01,0x1c,0x4b,0x81,0x92,0x6e,0x41,0x5b]);
    let buf = iter::repeat_with(|| lfsr8_table_barret.prev(8)).take(8).collect::<Vec<_>>();
    assert_eq!(buf, &[0x5b,0x41,0x6e,0x92,0x81,0x4b,0x1c,0x01]);

    let mut lfsr16_table_barret = Lfsr16TableBarret::new(1);
    let buf = iter::repeat_with(|| lfsr16_table_barret.next(16)).take(8).collect::<Vec<_>>();
    assert_eq!(buf, &[0x0001,0x002d,0x0451,0xbdad,0x13d3,0xb877,0x94e7,0xfcb8]);
    let buf = iter::repeat_with(|| lfsr16_table_barret.prev(16)).take(8).collect::<Vec<_>>();
    assert_eq!(buf, &[0xfcb8,0x94e7,0xb877,0x13d3,0xbdad,0x0451,0x002d,0x0001]);

    let mut lfsr32_table_barret = Lfsr32TableBarret::new(1);
    let buf = iter::repeat_with(|| lfsr32_table_barret.next(32)).take(8).collect::<Vec<_>>();
    assert_eq!(buf, &[0x00000001,0x000000af,0x00004455,0x00295f23,0x1010111b,0xfafa511e,0x11579360,0x7d21bf13]);
    let buf = iter::repeat_with(|| lfsr32_table_barret.prev(32)).take(8).collect::<Vec<_>>();
    assert_eq!(buf, &[0x7d21bf13,0x11579360,0xfafa511e,0x1010111b,0x00295f23,0x00004455,0x000000af,0x00000001]);

    let mut lfsr64_table_barret = Lfsr64TableBarret::new(1);
    let buf = iter::repeat_with(|| lfsr64_table_barret.next(64)).take(8).collect::<Vec<_>>();
    assert_eq!(buf, &[0x0000000000000001,0x000000000000001b,0x0000000000000145,0x0000000000001db7,0x0000000000011011,0x00000000001ab1ab,0x0000000001514515,0x000000001c6db6c7]);
    let buf = iter::repeat_with(|| lfsr64_table_barret.prev(64)).take(8).collect::<Vec<_>>();
    assert_eq!(buf, &[0x000000001c6db6c7,0x0000000001514515,0x00000000001ab1ab,0x0000000000011011,0x0000000000001db7,0x0000000000000145,0x000000000000001b,0x0000000000000001]);
}

#[test]
fn lfsr_small_table_barret() {
    let mut lfsr8_small_table_barret = Lfsr8SmallTableBarret::new(1);
    let buf = iter::repeat_with(|| lfsr8_small_table_barret.next(8)).take(8).collect::<Vec<_>>();
    assert_eq!(buf, &[0x01,0x1c,0x4b,0x81,0x92,0x6e,0x41,0x5b]);
    let buf = iter::repeat_with(|| lfsr8_small_table_barret.prev(8)).take(8).collect::<Vec<_>>();
    assert_eq!(buf, &[0x5b,0x41,0x6e,0x92,0x81,0x4b,0x1c,0x01]);

    let mut lfsr16_small_table_barret = Lfsr16SmallTableBarret::new(1);
    let buf = iter::repeat_with(|| lfsr16_small_table_barret.next(16)).take(8).collect::<Vec<_>>();
    assert_eq!(buf, &[0x0001,0x002d,0x0451,0xbdad,0x13d3,0xb877,0x94e7,0xfcb8]);
    let buf = iter::repeat_with(|| lfsr16_small_table_barret.prev(16)).take(8).collect::<Vec<_>>();
    assert_eq!(buf, &[0xfcb8,0x94e7,0xb877,0x13d3,0xbdad,0x0451,0x002d,0x0001]);

    let mut lfsr32_small_table_barret = Lfsr32SmallTableBarret::new(1);
    let buf = iter::repeat_with(|| lfsr32_small_table_barret.next(32)).take(8).collect::<Vec<_>>();
    assert_eq!(buf, &[0x00000001,0x000000af,0x00004455,0x00295f23,0x1010111b,0xfafa511e,0x11579360,0x7d21bf13]);
    let buf = iter::repeat_with(|| lfsr32_small_table_barret.prev(32)).take(8).collect::<Vec<_>>();
    assert_eq!(buf, &[0x7d21bf13,0x11579360,0xfafa511e,0x1010111b,0x00295f23,0x00004455,0x000000af,0x00000001]);

    let mut lfsr64_small_table_barret = Lfsr64SmallTableBarret::new(1);
    let buf = iter::repeat_with(|| lfsr64_small_table_barret.next(64)).take(8).collect::<Vec<_>>();
    assert_eq!(buf, &[0x0000000000000001,0x000000000000001b,0x0000000000000145,0x0000000000001db7,0x0000000000011011,0x00000000001ab1ab,0x0000000001514515,0x000000001c6db6c7]);
    let buf = iter::repeat_with(|| lfsr64_small_table_barret.prev(64)).take(8).collect::<Vec<_>>();
    assert_eq!(buf, &[0x000000001c6db6c7,0x0000000001514515,0x00000000001ab1ab,0x0000000000011011,0x0000000000001db7,0x0000000000000145,0x000000000000001b,0x0000000000000001]);
}

// test explicit skip modes
#[test]
fn lfsr_naive_skip() {
    let mut lfsr8_naive = Lfsr8Naive::new(1);
    lfsr8_naive.skip(8*8);
    let buf = iter::repeat_with(|| lfsr8_naive.prev(8)).take(8).collect::<Vec<_>>();
    assert_eq!(buf, &[0x5b,0x41,0x6e,0x92,0x81,0x4b,0x1c,0x01]);

    let mut lfsr16_naive = Lfsr16Naive::new(1);
    lfsr16_naive.skip(16*8);
    let buf = iter::repeat_with(|| lfsr16_naive.prev(16)).take(8).collect::<Vec<_>>();
    assert_eq!(buf, &[0xfcb8,0x94e7,0xb877,0x13d3,0xbdad,0x0451,0x002d,0x0001]);

    let mut lfsr32_naive = Lfsr32Naive::new(1);
    lfsr32_naive.skip(32*8);
    let buf = iter::repeat_with(|| lfsr32_naive.prev(32)).take(8).collect::<Vec<_>>();
    assert_eq!(buf, &[0x7d21bf13,0x11579360,0xfafa511e,0x1010111b,0x00295f23,0x00004455,0x000000af,0x00000001]);

    let mut lfsr64_naive = Lfsr64Naive::new(1);
    lfsr64_naive.skip(64*8);
    let buf = iter::repeat_with(|| lfsr64_naive.prev(64)).take(8).collect::<Vec<_>>();
    assert_eq!(buf, &[0x000000001c6db6c7,0x0000000001514515,0x00000000001ab1ab,0x0000000000011011,0x0000000000001db7,0x0000000000000145,0x000000000000001b,0x0000000000000001]);
}

#[test]
fn lfsr_table_skip() {
    let mut lfsr8_table = Lfsr8Table::new(1);
    lfsr8_table.skip(8*8);
    let buf = iter::repeat_with(|| lfsr8_table.prev(8)).take(8).collect::<Vec<_>>();
    assert_eq!(buf, &[0x5b,0x41,0x6e,0x92,0x81,0x4b,0x1c,0x01]);

    let mut lfsr16_table = Lfsr16Table::new(1);
    lfsr16_table.skip(16*8);
    let buf = iter::repeat_with(|| lfsr16_table.prev(16)).take(8).collect::<Vec<_>>();
    assert_eq!(buf, &[0xfcb8,0x94e7,0xb877,0x13d3,0xbdad,0x0451,0x002d,0x0001]);

    let mut lfsr32_table = Lfsr32Table::new(1);
    lfsr32_table.skip(32*8);
    let buf = iter::repeat_with(|| lfsr32_table.prev(32)).take(8).collect::<Vec<_>>();
    assert_eq!(buf, &[0x7d21bf13,0x11579360,0xfafa511e,0x1010111b,0x00295f23,0x00004455,0x000000af,0x00000001]);

    let mut lfsr64_table = Lfsr64Table::new(1);
    lfsr64_table.skip(64*8);
    let buf = iter::repeat_with(|| lfsr64_table.prev(64)).take(8).collect::<Vec<_>>();
    assert_eq!(buf, &[0x000000001c6db6c7,0x0000000001514515,0x00000000001ab1ab,0x0000000000011011,0x0000000000001db7,0x0000000000000145,0x000000000000001b,0x0000000000000001]);
}

#[test]
fn lfsr_small_table_skip() {
    let mut lfsr8_small_table = Lfsr8SmallTable::new(1);
    lfsr8_small_table.skip(8*8);
    let buf = iter::repeat_with(|| lfsr8_small_table.prev(8)).take(8).collect::<Vec<_>>();
    assert_eq!(buf, &[0x5b,0x41,0x6e,0x92,0x81,0x4b,0x1c,0x01]);

    let mut lfsr16_small_table = Lfsr16SmallTable::new(1);
    lfsr16_small_table.skip(16*8);
    let buf = iter::repeat_with(|| lfsr16_small_table.prev(16)).take(8).collect::<Vec<_>>();
    assert_eq!(buf, &[0xfcb8,0x94e7,0xb877,0x13d3,0xbdad,0x0451,0x002d,0x0001]);

    let mut lfsr32_small_table = Lfsr32SmallTable::new(1);
    lfsr32_small_table.skip(32*8);
    let buf = iter::repeat_with(|| lfsr32_small_table.prev(32)).take(8).collect::<Vec<_>>();
    assert_eq!(buf, &[0x7d21bf13,0x11579360,0xfafa511e,0x1010111b,0x00295f23,0x00004455,0x000000af,0x00000001]);

    let mut lfsr64_small_table = Lfsr64SmallTable::new(1);
    lfsr64_small_table.skip(64*8);
    let buf = iter::repeat_with(|| lfsr64_small_table.prev(64)).take(8).collect::<Vec<_>>();
    assert_eq!(buf, &[0x000000001c6db6c7,0x0000000001514515,0x00000000001ab1ab,0x0000000000011011,0x0000000000001db7,0x0000000000000145,0x000000000000001b,0x0000000000000001]);
}

#[test]
fn lfsr_barret_skip() {
    let mut lfsr8_barret = Lfsr8Barret::new(1);
    lfsr8_barret.skip(8*8);
    let buf = iter::repeat_with(|| lfsr8_barret.prev(8)).take(8).collect::<Vec<_>>();
    assert_eq!(buf, &[0x5b,0x41,0x6e,0x92,0x81,0x4b,0x1c,0x01]);

    let mut lfsr16_barret = Lfsr16Barret::new(1);
    lfsr16_barret.skip(16*8);
    let buf = iter::repeat_with(|| lfsr16_barret.prev(16)).take(8).collect::<Vec<_>>();
    assert_eq!(buf, &[0xfcb8,0x94e7,0xb877,0x13d3,0xbdad,0x0451,0x002d,0x0001]);

    let mut lfsr32_barret = Lfsr32Barret::new(1);
    lfsr32_barret.skip(32*8);
    let buf = iter::repeat_with(|| lfsr32_barret.prev(32)).take(8).collect::<Vec<_>>();
    assert_eq!(buf, &[0x7d21bf13,0x11579360,0xfafa511e,0x1010111b,0x00295f23,0x00004455,0x000000af,0x00000001]);

    let mut lfsr64_barret = Lfsr64Barret::new(1);
    lfsr64_barret.skip(64*8);
    let buf = iter::repeat_with(|| lfsr64_barret.prev(64)).take(8).collect::<Vec<_>>();
    assert_eq!(buf, &[0x000000001c6db6c7,0x0000000001514515,0x00000000001ab1ab,0x0000000000011011,0x0000000000001db7,0x0000000000000145,0x000000000000001b,0x0000000000000001]);
}

// odd step sizes
#[test]
fn lfsr_odd_nexts() {
    let mut lfsr8 = Lfsr8Naive::new(1);
    let buf = iter::repeat_with(|| lfsr8.next(4)).take(8).collect::<Vec<_>>();
    assert_eq!(buf, &[0x0,0x1,0x1,0xc,0x4,0xb,0x8,0x1]);
    let buf = iter::repeat_with(|| lfsr8.prev(4)).take(8).collect::<Vec<_>>();
    assert_eq!(buf, &[0x1,0x8,0xb,0x4,0xc,0x1,0x1,0x0]);
    let mut lfsr16 = Lfsr16Naive::new(1);
    let buf = iter::repeat_with(|| lfsr16.next(12)).take(8).collect::<Vec<_>>();
    assert_eq!(buf, &[0x000,0x100,0x2d0,0x451,0xbda,0xd13,0xd3b,0x877]);
    let buf = iter::repeat_with(|| lfsr16.prev(12)).take(8).collect::<Vec<_>>();
    assert_eq!(buf, &[0x877,0xd3b,0xd13,0xbda,0x451,0x2d0,0x100,0x000]);
    let mut lfsr32 = Lfsr32Naive::new(1);
    let buf = iter::repeat_with(|| lfsr32.next(23)).take(8).collect::<Vec<_>>();
    assert_eq!(buf, &[0x000000,0x004000,0x0015e0,0x000445,0x28014a,0x7c8c40,0x202237,0x7afa51]);
    let buf = iter::repeat_with(|| lfsr32.prev(23)).take(8).collect::<Vec<_>>();
    assert_eq!(buf, &[0x7afa51,0x202237,0x7c8c40,0x28014a,0x000445,0x0015e0,0x004000,0x000000]);

    let mut lfsr8 = Lfsr8Table::new(1);
    let buf = iter::repeat_with(|| lfsr8.next(4)).take(8).collect::<Vec<_>>();
    assert_eq!(buf, &[0x0,0x1,0x1,0xc,0x4,0xb,0x8,0x1]);
    let buf = iter::repeat_with(|| lfsr8.prev(4)).take(8).collect::<Vec<_>>();
    assert_eq!(buf, &[0x1,0x8,0xb,0x4,0xc,0x1,0x1,0x0]);
    let mut lfsr16 = Lfsr16Table::new(1);
    let buf = iter::repeat_with(|| lfsr16.next(12)).take(8).collect::<Vec<_>>();
    assert_eq!(buf, &[0x000,0x100,0x2d0,0x451,0xbda,0xd13,0xd3b,0x877]);
    let buf = iter::repeat_with(|| lfsr16.prev(12)).take(8).collect::<Vec<_>>();
    assert_eq!(buf, &[0x877,0xd3b,0xd13,0xbda,0x451,0x2d0,0x100,0x000]);
    let mut lfsr32 = Lfsr32Table::new(1);
    let buf = iter::repeat_with(|| lfsr32.next(23)).take(8).collect::<Vec<_>>();
    assert_eq!(buf, &[0x000000,0x004000,0x0015e0,0x000445,0x28014a,0x7c8c40,0x202237,0x7afa51]);
    let buf = iter::repeat_with(|| lfsr32.prev(23)).take(8).collect::<Vec<_>>();
    assert_eq!(buf, &[0x7afa51,0x202237,0x7c8c40,0x28014a,0x000445,0x0015e0,0x004000,0x000000]);

    let mut lfsr8 = Lfsr8SmallTable::new(1);
    let buf = iter::repeat_with(|| lfsr8.next(4)).take(8).collect::<Vec<_>>();
    assert_eq!(buf, &[0x0,0x1,0x1,0xc,0x4,0xb,0x8,0x1]);
    let buf = iter::repeat_with(|| lfsr8.prev(4)).take(8).collect::<Vec<_>>();
    assert_eq!(buf, &[0x1,0x8,0xb,0x4,0xc,0x1,0x1,0x0]);
    let mut lfsr16 = Lfsr16SmallTable::new(1);
    let buf = iter::repeat_with(|| lfsr16.next(12)).take(8).collect::<Vec<_>>();
    assert_eq!(buf, &[0x000,0x100,0x2d0,0x451,0xbda,0xd13,0xd3b,0x877]);
    let buf = iter::repeat_with(|| lfsr16.prev(12)).take(8).collect::<Vec<_>>();
    assert_eq!(buf, &[0x877,0xd3b,0xd13,0xbda,0x451,0x2d0,0x100,0x000]);
    let mut lfsr32 = Lfsr32SmallTable::new(1);
    let buf = iter::repeat_with(|| lfsr32.next(23)).take(8).collect::<Vec<_>>();
    assert_eq!(buf, &[0x000000,0x004000,0x0015e0,0x000445,0x28014a,0x7c8c40,0x202237,0x7afa51]);
    let buf = iter::repeat_with(|| lfsr32.prev(23)).take(8).collect::<Vec<_>>();
    assert_eq!(buf, &[0x7afa51,0x202237,0x7c8c40,0x28014a,0x000445,0x0015e0,0x004000,0x000000]);

    let mut lfsr8 = Lfsr8Barret::new(1);
    let buf = iter::repeat_with(|| lfsr8.next(4)).take(8).collect::<Vec<_>>();
    assert_eq!(buf, &[0x0,0x1,0x1,0xc,0x4,0xb,0x8,0x1]);
    let buf = iter::repeat_with(|| lfsr8.prev(4)).take(8).collect::<Vec<_>>();
    assert_eq!(buf, &[0x1,0x8,0xb,0x4,0xc,0x1,0x1,0x0]);
    let mut lfsr16 = Lfsr16Barret::new(1);
    let buf = iter::repeat_with(|| lfsr16.next(12)).take(8).collect::<Vec<_>>();
    assert_eq!(buf, &[0x000,0x100,0x2d0,0x451,0xbda,0xd13,0xd3b,0x877]);
    let buf = iter::repeat_with(|| lfsr16.prev(12)).take(8).collect::<Vec<_>>();
    assert_eq!(buf, &[0x877,0xd3b,0xd13,0xbda,0x451,0x2d0,0x100,0x000]);
    let mut lfsr32 = Lfsr32Barret::new(1);
    let buf = iter::repeat_with(|| lfsr32.next(23)).take(8).collect::<Vec<_>>();
    assert_eq!(buf, &[0x000000,0x004000,0x0015e0,0x000445,0x28014a,0x7c8c40,0x202237,0x7afa51]);
    let buf = iter::repeat_with(|| lfsr32.prev(23)).take(8).collect::<Vec<_>>();
    assert_eq!(buf, &[0x7afa51,0x202237,0x7c8c40,0x28014a,0x000445,0x0015e0,0x004000,0x000000]);

    let mut lfsr8 = Lfsr8TableBarret::new(1);
    let buf = iter::repeat_with(|| lfsr8.next(4)).take(8).collect::<Vec<_>>();
    assert_eq!(buf, &[0x0,0x1,0x1,0xc,0x4,0xb,0x8,0x1]);
    let buf = iter::repeat_with(|| lfsr8.prev(4)).take(8).collect::<Vec<_>>();
    assert_eq!(buf, &[0x1,0x8,0xb,0x4,0xc,0x1,0x1,0x0]);
    let mut lfsr16 = Lfsr16TableBarret::new(1);
    let buf = iter::repeat_with(|| lfsr16.next(12)).take(8).collect::<Vec<_>>();
    assert_eq!(buf, &[0x000,0x100,0x2d0,0x451,0xbda,0xd13,0xd3b,0x877]);
    let buf = iter::repeat_with(|| lfsr16.prev(12)).take(8).collect::<Vec<_>>();
    assert_eq!(buf, &[0x877,0xd3b,0xd13,0xbda,0x451,0x2d0,0x100,0x000]);
    let mut lfsr32 = Lfsr32TableBarret::new(1);
    let buf = iter::repeat_with(|| lfsr32.next(23)).take(8).collect::<Vec<_>>();
    assert_eq!(buf, &[0x000000,0x004000,0x0015e0,0x000445,0x28014a,0x7c8c40,0x202237,0x7afa51]);
    let buf = iter::repeat_with(|| lfsr32.prev(23)).take(8).collect::<Vec<_>>();
    assert_eq!(buf, &[0x7afa51,0x202237,0x7c8c40,0x28014a,0x000445,0x0015e0,0x004000,0x000000]);

    let mut lfsr8 = Lfsr8SmallTableBarret::new(1);
    let buf = iter::repeat_with(|| lfsr8.next(4)).take(8).collect::<Vec<_>>();
    assert_eq!(buf, &[0x0,0x1,0x1,0xc,0x4,0xb,0x8,0x1]);
    let buf = iter::repeat_with(|| lfsr8.prev(4)).take(8).collect::<Vec<_>>();
    assert_eq!(buf, &[0x1,0x8,0xb,0x4,0xc,0x1,0x1,0x0]);
    let mut lfsr16 = Lfsr16SmallTableBarret::new(1);
    let buf = iter::repeat_with(|| lfsr16.next(12)).take(8).collect::<Vec<_>>();
    assert_eq!(buf, &[0x000,0x100,0x2d0,0x451,0xbda,0xd13,0xd3b,0x877]);
    let buf = iter::repeat_with(|| lfsr16.prev(12)).take(8).collect::<Vec<_>>();
    assert_eq!(buf, &[0x877,0xd3b,0xd13,0xbda,0x451,0x2d0,0x100,0x000]);
    let mut lfsr32 = Lfsr32SmallTableBarret::new(1);
    let buf = iter::repeat_with(|| lfsr32.next(23)).take(8).collect::<Vec<_>>();
    assert_eq!(buf, &[0x000000,0x004000,0x0015e0,0x000445,0x28014a,0x7c8c40,0x202237,0x7afa51]);
    let buf = iter::repeat_with(|| lfsr32.prev(23)).take(8).collect::<Vec<_>>();
    assert_eq!(buf, &[0x7afa51,0x202237,0x7c8c40,0x28014a,0x000445,0x0015e0,0x004000,0x000000]);
}

// odd LFSR sizes

#[test]
fn lfsr_odd_sizes() {
    let mut lfsr4 = Lfsr4Naive::new(1);
    let buf = iter::repeat_with(|| lfsr4.next(4)).take(8).collect::<Vec<_>>();
    assert_eq!(buf, &[0x1,0x3,0x5,0xe,0x2,0x6,0xb,0xc]);
    let buf = iter::repeat_with(|| lfsr4.prev(4)).take(8).collect::<Vec<_>>();
    assert_eq!(buf, &[0xc,0xb,0x6,0x2,0xe,0x5,0x3,0x1]);
    let mut lfsr12 = Lfsr12Naive::new(1);
    let buf = iter::repeat_with(|| lfsr12.next(12)).take(8).collect::<Vec<_>>();
    assert_eq!(buf, &[0x001,0x052,0x152,0x25d,0x462,0x20c,0x5c6,0x3a7]);
    let buf = iter::repeat_with(|| lfsr12.prev(12)).take(8).collect::<Vec<_>>();
    assert_eq!(buf, &[0x3a7,0x5c6,0x20c,0x462,0x25d,0x152,0x052,0x001]);
    let mut lfsr23 = Lfsr23Naive::new(1);
    let buf = iter::repeat_with(|| lfsr23.next(23)).take(8).collect::<Vec<_>>();
    assert_eq!(buf, &[0x000001,0x000021,0x000401,0x008421,0x100005,0x1000a1,0x101485,0x128421]);
    let buf = iter::repeat_with(|| lfsr23.prev(23)).take(8).collect::<Vec<_>>();
    assert_eq!(buf, &[0x128421,0x101485,0x1000a1,0x100005,0x008421,0x000401,0x000021,0x000001]);

    let mut lfsr4 = Lfsr4Table::new(1);
    let buf = iter::repeat_with(|| lfsr4.next(4)).take(8).collect::<Vec<_>>();
    assert_eq!(buf, &[0x1,0x3,0x5,0xe,0x2,0x6,0xb,0xc]);
    let buf = iter::repeat_with(|| lfsr4.prev(4)).take(8).collect::<Vec<_>>();
    assert_eq!(buf, &[0xc,0xb,0x6,0x2,0xe,0x5,0x3,0x1]);
    let mut lfsr12 = Lfsr12Table::new(1);
    let buf = iter::repeat_with(|| lfsr12.next(12)).take(8).collect::<Vec<_>>();
    assert_eq!(buf, &[0x001,0x052,0x152,0x25d,0x462,0x20c,0x5c6,0x3a7]);
    let buf = iter::repeat_with(|| lfsr12.prev(12)).take(8).collect::<Vec<_>>();
    assert_eq!(buf, &[0x3a7,0x5c6,0x20c,0x462,0x25d,0x152,0x052,0x001]);
    let mut lfsr23 = Lfsr23Table::new(1);
    let buf = iter::repeat_with(|| lfsr23.next(23)).take(8).collect::<Vec<_>>();
    assert_eq!(buf, &[0x000001,0x000021,0x000401,0x008421,0x100005,0x1000a1,0x101485,0x128421]);
    let buf = iter::repeat_with(|| lfsr23.prev(23)).take(8).collect::<Vec<_>>();
    assert_eq!(buf, &[0x128421,0x101485,0x1000a1,0x100005,0x008421,0x000401,0x000021,0x000001]);

    let mut lfsr4 = Lfsr4SmallTable::new(1);
    let buf = iter::repeat_with(|| lfsr4.next(4)).take(8).collect::<Vec<_>>();
    assert_eq!(buf, &[0x1,0x3,0x5,0xe,0x2,0x6,0xb,0xc]);
    let buf = iter::repeat_with(|| lfsr4.prev(4)).take(8).collect::<Vec<_>>();
    assert_eq!(buf, &[0xc,0xb,0x6,0x2,0xe,0x5,0x3,0x1]);
    let mut lfsr12 = Lfsr12SmallTable::new(1);
    let buf = iter::repeat_with(|| lfsr12.next(12)).take(8).collect::<Vec<_>>();
    assert_eq!(buf, &[0x001,0x052,0x152,0x25d,0x462,0x20c,0x5c6,0x3a7]);
    let buf = iter::repeat_with(|| lfsr12.prev(12)).take(8).collect::<Vec<_>>();
    assert_eq!(buf, &[0x3a7,0x5c6,0x20c,0x462,0x25d,0x152,0x052,0x001]);
    let mut lfsr23 = Lfsr23SmallTable::new(1);
    let buf = iter::repeat_with(|| lfsr23.next(23)).take(8).collect::<Vec<_>>();
    assert_eq!(buf, &[0x000001,0x000021,0x000401,0x008421,0x100005,0x1000a1,0x101485,0x128421]);
    let buf = iter::repeat_with(|| lfsr23.prev(23)).take(8).collect::<Vec<_>>();
    assert_eq!(buf, &[0x128421,0x101485,0x1000a1,0x100005,0x008421,0x000401,0x000021,0x000001]);

    let mut lfsr4 = Lfsr4Barret::new(1);
    let buf = iter::repeat_with(|| lfsr4.next(4)).take(8).collect::<Vec<_>>();
    assert_eq!(buf, &[0x1,0x3,0x5,0xe,0x2,0x6,0xb,0xc]);
    let buf = iter::repeat_with(|| lfsr4.prev(4)).take(8).collect::<Vec<_>>();
    assert_eq!(buf, &[0xc,0xb,0x6,0x2,0xe,0x5,0x3,0x1]);
    let mut lfsr12 = Lfsr12Barret::new(1);
    let buf = iter::repeat_with(|| lfsr12.next(12)).take(8).collect::<Vec<_>>();
    assert_eq!(buf, &[0x001,0x052,0x152,0x25d,0x462,0x20c,0x5c6,0x3a7]);
    let buf = iter::repeat_with(|| lfsr12.prev(12)).take(8).collect::<Vec<_>>();
    assert_eq!(buf, &[0x3a7,0x5c6,0x20c,0x462,0x25d,0x152,0x052,0x001]);
    let mut lfsr23 = Lfsr23Barret::new(1);
    let buf = iter::repeat_with(|| lfsr23.next(23)).take(8).collect::<Vec<_>>();
    assert_eq!(buf, &[0x000001,0x000021,0x000401,0x008421,0x100005,0x1000a1,0x101485,0x128421]);
    let buf = iter::repeat_with(|| lfsr23.prev(23)).take(8).collect::<Vec<_>>();
    assert_eq!(buf, &[0x128421,0x101485,0x1000a1,0x100005,0x008421,0x000401,0x000021,0x000001]);

    let mut lfsr4 = Lfsr4TableBarret::new(1);
    let buf = iter::repeat_with(|| lfsr4.next(4)).take(8).collect::<Vec<_>>();
    assert_eq!(buf, &[0x1,0x3,0x5,0xe,0x2,0x6,0xb,0xc]);
    let buf = iter::repeat_with(|| lfsr4.prev(4)).take(8).collect::<Vec<_>>();
    assert_eq!(buf, &[0xc,0xb,0x6,0x2,0xe,0x5,0x3,0x1]);
    let mut lfsr12 = Lfsr12TableBarret::new(1);
    let buf = iter::repeat_with(|| lfsr12.next(12)).take(8).collect::<Vec<_>>();
    assert_eq!(buf, &[0x001,0x052,0x152,0x25d,0x462,0x20c,0x5c6,0x3a7]);
    let buf = iter::repeat_with(|| lfsr12.prev(12)).take(8).collect::<Vec<_>>();
    assert_eq!(buf, &[0x3a7,0x5c6,0x20c,0x462,0x25d,0x152,0x052,0x001]);
    let mut lfsr23 = Lfsr23TableBarret::new(1);
    let buf = iter::repeat_with(|| lfsr23.next(23)).take(8).collect::<Vec<_>>();
    assert_eq!(buf, &[0x000001,0x000021,0x000401,0x008421,0x100005,0x1000a1,0x101485,0x128421]);
    let buf = iter::repeat_with(|| lfsr23.prev(23)).take(8).collect::<Vec<_>>();
    assert_eq!(buf, &[0x128421,0x101485,0x1000a1,0x100005,0x008421,0x000401,0x000021,0x000001]);

    let mut lfsr4 = Lfsr4SmallTableBarret::new(1);
    let buf = iter::repeat_with(|| lfsr4.next(4)).take(8).collect::<Vec<_>>();
    assert_eq!(buf, &[0x1,0x3,0x5,0xe,0x2,0x6,0xb,0xc]);
    let buf = iter::repeat_with(|| lfsr4.prev(4)).take(8).collect::<Vec<_>>();
    assert_eq!(buf, &[0xc,0xb,0x6,0x2,0xe,0x5,0x3,0x1]);
    let mut lfsr12 = Lfsr12SmallTableBarret::new(1);
    let buf = iter::repeat_with(|| lfsr12.next(12)).take(8).collect::<Vec<_>>();
    assert_eq!(buf, &[0x001,0x052,0x152,0x25d,0x462,0x20c,0x5c6,0x3a7]);
    let buf = iter::repeat_with(|| lfsr12.prev(12)).take(8).collect::<Vec<_>>();
    assert_eq!(buf, &[0x3a7,0x5c6,0x20c,0x462,0x25d,0x152,0x052,0x001]);
    let mut lfsr23 = Lfsr23SmallTableBarret::new(1);
    let buf = iter::repeat_with(|| lfsr23.next(23)).take(8).collect::<Vec<_>>();
    assert_eq!(buf, &[0x000001,0x000021,0x000401,0x008421,0x100005,0x1000a1,0x101485,0x128421]);
    let buf = iter::repeat_with(|| lfsr23.prev(23)).take(8).collect::<Vec<_>>();
    assert_eq!(buf, &[0x128421,0x101485,0x1000a1,0x100005,0x008421,0x000401,0x000021,0x000001]);
}

#[test]
fn lfsr_odd_sizes_skip() {
    let mut lfsr4 = Lfsr4Naive::new(1);
    lfsr4.skip(4*8);
    let buf = iter::repeat_with(|| lfsr4.prev(4)).take(8).collect::<Vec<_>>();
    assert_eq!(buf, &[0xc,0xb,0x6,0x2,0xe,0x5,0x3,0x1]);
    let mut lfsr12 = Lfsr12Naive::new(1);
    lfsr12.skip(12*8);
    let buf = iter::repeat_with(|| lfsr12.prev(12)).take(8).collect::<Vec<_>>();
    assert_eq!(buf, &[0x3a7,0x5c6,0x20c,0x462,0x25d,0x152,0x052,0x001]);
    let mut lfsr23 = Lfsr23Naive::new(1);
    lfsr23.skip(23*8);
    let buf = iter::repeat_with(|| lfsr23.prev(23)).take(8).collect::<Vec<_>>();
    assert_eq!(buf, &[0x128421,0x101485,0x1000a1,0x100005,0x008421,0x000401,0x000021,0x000001]);

    let mut lfsr4 = Lfsr4Table::new(1);
    lfsr4.skip(4*8);
    let buf = iter::repeat_with(|| lfsr4.prev(4)).take(8).collect::<Vec<_>>();
    assert_eq!(buf, &[0xc,0xb,0x6,0x2,0xe,0x5,0x3,0x1]);
    let mut lfsr12 = Lfsr12Table::new(1);
    lfsr12.skip(12*8);
    let buf = iter::repeat_with(|| lfsr12.prev(12)).take(8).collect::<Vec<_>>();
    assert_eq!(buf, &[0x3a7,0x5c6,0x20c,0x462,0x25d,0x152,0x052,0x001]);
    let mut lfsr23 = Lfsr23Table::new(1);
    lfsr23.skip(23*8);
    let buf = iter::repeat_with(|| lfsr23.prev(23)).take(8).collect::<Vec<_>>();
    assert_eq!(buf, &[0x128421,0x101485,0x1000a1,0x100005,0x008421,0x000401,0x000021,0x000001]);

    let mut lfsr4 = Lfsr4SmallTable::new(1);
    lfsr4.skip(4*8);
    let buf = iter::repeat_with(|| lfsr4.prev(4)).take(8).collect::<Vec<_>>();
    assert_eq!(buf, &[0xc,0xb,0x6,0x2,0xe,0x5,0x3,0x1]);
    let mut lfsr12 = Lfsr12SmallTable::new(1);
    lfsr12.skip(12*8);
    let buf = iter::repeat_with(|| lfsr12.prev(12)).take(8).collect::<Vec<_>>();
    assert_eq!(buf, &[0x3a7,0x5c6,0x20c,0x462,0x25d,0x152,0x052,0x001]);
    let mut lfsr23 = Lfsr23SmallTable::new(1);
    lfsr23.skip(23*8);
    let buf = iter::repeat_with(|| lfsr23.prev(23)).take(8).collect::<Vec<_>>();
    assert_eq!(buf, &[0x128421,0x101485,0x1000a1,0x100005,0x008421,0x000401,0x000021,0x000001]);

    let mut lfsr4 = Lfsr4Barret::new(1);
    lfsr4.skip(4*8);
    let buf = iter::repeat_with(|| lfsr4.prev(4)).take(8).collect::<Vec<_>>();
    assert_eq!(buf, &[0xc,0xb,0x6,0x2,0xe,0x5,0x3,0x1]);
    let mut lfsr12 = Lfsr12Barret::new(1);
    lfsr12.skip(12*8);
    let buf = iter::repeat_with(|| lfsr12.prev(12)).take(8).collect::<Vec<_>>();
    assert_eq!(buf, &[0x3a7,0x5c6,0x20c,0x462,0x25d,0x152,0x052,0x001]);
    let mut lfsr23 = Lfsr23Barret::new(1);
    lfsr23.skip(23*8);
    let buf = iter::repeat_with(|| lfsr23.prev(23)).take(8).collect::<Vec<_>>();
    assert_eq!(buf, &[0x128421,0x101485,0x1000a1,0x100005,0x008421,0x000401,0x000021,0x000001]);
}

// bit-reflected LFSRs

#[test]
fn lfsr_reflected() {
    let mut lfsr64 = Lfsr64NaiveReflected::new(0x8000000000000000);
    let buf = iter::repeat_with(|| lfsr64.next(64)).take(8).collect::<Vec<_>>();
    assert_eq!(buf, &[0x8000000000000000,0xd800000000000000,0xa280000000000000,0xedb8000000000000,0x8808800000000000,0xd58d580000000000,0xa8a28a8000000000,0xe36db63800000000]);
    let buf = iter::repeat_with(|| lfsr64.prev(64)).take(8).collect::<Vec<_>>();
    assert_eq!(buf, &[0xe36db63800000000,0xa8a28a8000000000,0xd58d580000000000,0x8808800000000000,0xedb8000000000000,0xa280000000000000,0xd800000000000000,0x8000000000000000]);

    let mut lfsr64 = Lfsr64TableReflected::new(0x8000000000000000);
    let buf = iter::repeat_with(|| lfsr64.next(64)).take(8).collect::<Vec<_>>();
    assert_eq!(buf, &[0x8000000000000000,0xd800000000000000,0xa280000000000000,0xedb8000000000000,0x8808800000000000,0xd58d580000000000,0xa8a28a8000000000,0xe36db63800000000]);
    let buf = iter::repeat_with(|| lfsr64.prev(64)).take(8).collect::<Vec<_>>();
    assert_eq!(buf, &[0xe36db63800000000,0xa8a28a8000000000,0xd58d580000000000,0x8808800000000000,0xedb8000000000000,0xa280000000000000,0xd800000000000000,0x8000000000000000]);

    let mut lfsr64 = Lfsr64SmallTableReflected::new(0x8000000000000000);
    let buf = iter::repeat_with(|| lfsr64.next(64)).take(8).collect::<Vec<_>>();
    assert_eq!(buf, &[0x8000000000000000,0xd800000000000000,0xa280000000000000,0xedb8000000000000,0x8808800000000000,0xd58d580000000000,0xa8a28a8000000000,0xe36db63800000000]);
    let buf = iter::repeat_with(|| lfsr64.prev(64)).take(8).collect::<Vec<_>>();
    assert_eq!(buf, &[0xe36db63800000000,0xa8a28a8000000000,0xd58d580000000000,0x8808800000000000,0xedb8000000000000,0xa280000000000000,0xd800000000000000,0x8000000000000000]);

    let mut lfsr64 = Lfsr64BarretReflected::new(0x8000000000000000);
    let buf = iter::repeat_with(|| lfsr64.next(64)).take(8).collect::<Vec<_>>();
    assert_eq!(buf, &[0x8000000000000000,0xd800000000000000,0xa280000000000000,0xedb8000000000000,0x8808800000000000,0xd58d580000000000,0xa8a28a8000000000,0xe36db63800000000]);
    let buf = iter::repeat_with(|| lfsr64.prev(64)).take(8).collect::<Vec<_>>();
    assert_eq!(buf, &[0xe36db63800000000,0xa8a28a8000000000,0xd58d580000000000,0x8808800000000000,0xedb8000000000000,0xa280000000000000,0xd800000000000000,0x8000000000000000]);

    let mut lfsr64 = Lfsr64TableBarretReflected::new(0x8000000000000000);
    let buf = iter::repeat_with(|| lfsr64.next(64)).take(8).collect::<Vec<_>>();
    assert_eq!(buf, &[0x8000000000000000,0xd800000000000000,0xa280000000000000,0xedb8000000000000,0x8808800000000000,0xd58d580000000000,0xa8a28a8000000000,0xe36db63800000000]);
    let buf = iter::repeat_with(|| lfsr64.prev(64)).take(8).collect::<Vec<_>>();
    assert_eq!(buf, &[0xe36db63800000000,0xa8a28a8000000000,0xd58d580000000000,0x8808800000000000,0xedb8000000000000,0xa280000000000000,0xd800000000000000,0x8000000000000000]);

    let mut lfsr64 = Lfsr64SmallTableBarretReflected::new(0x8000000000000000);
    let buf = iter::repeat_with(|| lfsr64.next(64)).take(8).collect::<Vec<_>>();
    assert_eq!(buf, &[0x8000000000000000,0xd800000000000000,0xa280000000000000,0xedb8000000000000,0x8808800000000000,0xd58d580000000000,0xa8a28a8000000000,0xe36db63800000000]);
    let buf = iter::repeat_with(|| lfsr64.prev(64)).take(8).collect::<Vec<_>>();
    assert_eq!(buf, &[0xe36db63800000000,0xa8a28a8000000000,0xd58d580000000000,0x8808800000000000,0xedb8000000000000,0xa280000000000000,0xd800000000000000,0x8000000000000000]);
}

#[test]
fn lfsr_reflected_skip() {
    let mut lfsr64 = Lfsr64NaiveReflected::new(0x8000000000000000);
    lfsr64.skip(64*8);
    let buf = iter::repeat_with(|| lfsr64.prev(64)).take(8).collect::<Vec<_>>();
    assert_eq!(buf, &[0xe36db63800000000,0xa8a28a8000000000,0xd58d580000000000,0x8808800000000000,0xedb8000000000000,0xa280000000000000,0xd800000000000000,0x8000000000000000]);

    let mut lfsr64 = Lfsr64TableReflected::new(0x8000000000000000);
    lfsr64.skip(64*8);
    let buf = iter::repeat_with(|| lfsr64.prev(64)).take(8).collect::<Vec<_>>();
    assert_eq!(buf, &[0xe36db63800000000,0xa8a28a8000000000,0xd58d580000000000,0x8808800000000000,0xedb8000000000000,0xa280000000000000,0xd800000000000000,0x8000000000000000]);

    let mut lfsr64 = Lfsr64SmallTableReflected::new(0x8000000000000000);
    lfsr64.skip(64*8);
    let buf = iter::repeat_with(|| lfsr64.prev(64)).take(8).collect::<Vec<_>>();
    assert_eq!(buf, &[0xe36db63800000000,0xa8a28a8000000000,0xd58d580000000000,0x8808800000000000,0xedb8000000000000,0xa280000000000000,0xd800000000000000,0x8000000000000000]);

    let mut lfsr64 = Lfsr64BarretReflected::new(0x8000000000000000);
    lfsr64.skip(64*8);
    let buf = iter::repeat_with(|| lfsr64.prev(64)).take(8).collect::<Vec<_>>();
    assert_eq!(buf, &[0xe36db63800000000,0xa8a28a8000000000,0xd58d580000000000,0x8808800000000000,0xedb8000000000000,0xa280000000000000,0xd800000000000000,0x8000000000000000]);
}


#[test]
fn lfsr_all_params() {
    let mut lfsr64_all_params = Lfsr64AllParams::new(1);
    let buf = iter::repeat_with(|| lfsr64_all_params.next(64)).take(8).collect::<Vec<_>>();
    assert_eq!(buf, &[0x0000000000000001,0x000000000000001b,0x0000000000000145,0x0000000000001db7,0x0000000000011011,0x00000000001ab1ab,0x0000000001514515,0x000000001c6db6c7]);
    let buf = iter::repeat_with(|| lfsr64_all_params.prev(64)).take(8).collect::<Vec<_>>();
    assert_eq!(buf, &[0x000000001c6db6c7,0x0000000001514515,0x00000000001ab1ab,0x0000000000011011,0x0000000000001db7,0x0000000000000145,0x000000000000001b,0x0000000000000001]);
}

// other LFSR things

#[test]
fn lfsr_rng_consistency() {
    // normal order
    let mut lfsr = Lfsr8::new(1);
    let next_bytes = iter::repeat_with(|| lfsr.next(8) as u8).take(100).collect::<Vec<_>>();
    let mut rng_bytes = vec![0u8; 100];
    let mut lfsr = Lfsr8::new(1);
    lfsr.fill(&mut rng_bytes);
    assert_eq!(&next_bytes, &rng_bytes);

    let mut lfsr = Lfsr16::new(1);
    let next_bytes = iter::repeat_with(|| lfsr.next(8) as u8).take(100).collect::<Vec<_>>();
    let mut rng_bytes = vec![0u8; 100];
    let mut lfsr = Lfsr16::new(1);
    lfsr.fill(&mut rng_bytes);
    assert_eq!(&next_bytes, &rng_bytes);

    let mut lfsr = Lfsr32::new(1);
    let next_bytes = iter::repeat_with(|| lfsr.next(8) as u8).take(100).collect::<Vec<_>>();
    let mut rng_bytes = vec![0u8; 100];
    let mut lfsr = Lfsr32::new(1);
    lfsr.fill(&mut rng_bytes);
    assert_eq!(&next_bytes, &rng_bytes);

    let mut lfsr = Lfsr64::new(1);
    let next_bytes = iter::repeat_with(|| lfsr.next(8) as u8).take(100).collect::<Vec<_>>();
    let mut rng_bytes = vec![0u8; 100];
    let mut lfsr = Lfsr64::new(1);
    lfsr.fill(&mut rng_bytes);
    assert_eq!(&next_bytes, &rng_bytes);

    let mut lfsr = Lfsr4Table::new(1);
    let next_bytes = iter::repeat_with(|| ((lfsr.next(4) << 4) | lfsr.next(4)) as u8).take(100).collect::<Vec<_>>();
    let mut rng_bytes = vec![0u8; 100];
    let mut lfsr = Lfsr4Table::new(1);
    lfsr.fill(&mut rng_bytes);
    assert_eq!(&next_bytes, &rng_bytes);

    let mut lfsr = Lfsr12Table::new(1);
    let next_bytes = iter::repeat_with(|| lfsr.next(8) as u8).take(100).collect::<Vec<_>>();
    let mut rng_bytes = vec![0u8; 100];
    let mut lfsr = Lfsr12Table::new(1);
    lfsr.fill(&mut rng_bytes);
    assert_eq!(&next_bytes, &rng_bytes);

    let mut lfsr = Lfsr23Table::new(1);
    let next_bytes = iter::repeat_with(|| lfsr.next(8) as u8).take(100).collect::<Vec<_>>();
    let mut rng_bytes = vec![0u8; 100];
    let mut lfsr = Lfsr23Table::new(1);
    lfsr.fill(&mut rng_bytes);
    assert_eq!(&next_bytes, &rng_bytes);

    // reflected order
    let mut lfsr = Lfsr64TableReflected::new(1);
    let next_bytes = iter::repeat_with(|| lfsr.next(8) as u8).take(100).collect::<Vec<_>>();
    let mut rng_bytes = vec![0u8; 100];
    let mut lfsr = Lfsr64TableReflected::new(1);
    lfsr.fill(&mut rng_bytes);
    assert_eq!(&next_bytes, &rng_bytes);
}

#[test]
fn lfsr_uniqueness() {
    let mut lfsr = Lfsr8::new(1);
    let unique = BTreeSet::from_iter(iter::repeat_with(|| lfsr.next(8)).take(255));
    assert_eq!(unique.len(), 255);

    let mut lfsr = Lfsr64::new(1);
    let unique = BTreeSet::from_iter(iter::repeat_with(|| lfsr.next(64)).take(255));
    assert_eq!(unique.len(), 255);
}


#[test]
fn lfsr_chunks_and_skip_agree() {
    let mut a = Lfsr16::new(1);
    let mut b = Lfsr16::new(1);
    for _ in 0..20 {
        let x = a.next(5);
        let y = a.next(7);
        assert_eq!((x << 7) | y, b.next(12));
    }
    let mut c = Lfsr8::new(0x5b);
    let mut d = Lfsr8::new(0x5b);
    c.skip(37);
    for _ in 0..37 {
        d.next(1);
    }
    assert_eq!(c.next(8), d.next(8));
}

#[test]
fn lfsr_register_values() {
    let mut a = Lfsr8::new(1);
    assert_eq!(a.register_value(), 1);
    a.skip(1);
    assert_eq!(a.register_value(), 2);
    assert_eq!(Lfsr16::new(0x1234).register_value(), 0x1234);
    assert_eq!(Lfsr32::new(0x12345678).register_value(), 0x12345678);
    assert_eq!(Lfsr64::new(0x123456789abcdef0).register_value(), 0x123456789abcdef0);
}

#[test]
fn lfsr_full_periods() {
    let mut a = Lfsr16::new(0x1234);
    a.skip(0xffff);
    assert_eq!(a.register_value(), 0x1234);
    let mut b = Lfsr16::new(0x1234);
    b.skip(0x7fff);
    assert_ne!(b.register_value(), 0x1234);
    let mut c = Lfsr32::new(0x12345678);
    c.skip(0xffffffff);
    assert_eq!(c.register_value(), 0x12345678);
    let mut d = Lfsr64::new(0x123456789abcdef0);
    d.skip(0xffffffffffffffff);
    assert_eq!(d.register_value(), 0x123456789abcdef0);
    let mut e = Lfsr64::new(0x123456789abcdef0);
    e.skip(0x5555555555555555);
    assert_ne!(e.register_value(), 0x123456789abcdef0);
}

#[test]
fn lfsr_table_steps_match_bitwise() {
    for &(polynomial, reflected) in &[
        (0x11du128, false), (0x11d, true), (0x1053, false), (0x1002d, true),
        (0x800021, false), (0x1000000af, true), (0x1000000000000001b, false), (0x1000000000000001b, true),
    ] {
        let t = LfsrTables::new(polynomial);
        let mut a = Lfsr::new(polynomial, reflected, 1);
        let mut b = Lfsr::new(polynomial, reflected, 1);
        for _ in 0..300 {
            assert_eq!(a.next_byte(&t), b.next(8));
            assert_eq!(a.register_value(), b.register_value());
        }
    }
}
