use ::gf256::raid::{raid0, raid5, raid6, raid7, raid7_all_params, gf16_raid7, gf2p23_raid7, gf2p64_raid7};
use ::gf256::raid::RaidError;

#[test]
fn raid5() {
    let mut blocks = [
        (80..90).collect::<Vec<u8>>(),
        (20..30).collect::<Vec<u8>>(),
        (30..40).collect::<Vec<u8>>(),
    ];
    let mut p = (40..50).collect::<Vec<u8>>();

    // format
    raid5::format(&mut blocks, &mut p);

    // update
    raid5::update(0, &mut blocks[0], &(10..20).collect::<Vec<u8>>(), &mut p);
    blocks[0].copy_from_slice(&(10..20).collect::<Vec<u8>>());
    assert_eq!(&blocks[0], &(10..20).collect::<Vec<u8>>());
    assert_eq!(&blocks[1], &(20..30).collect::<Vec<u8>>());
    assert_eq!(&blocks[2], &(30..40).collect::<Vec<u8>>());

    for i in 0..blocks.len()+1 {
        // clobber
        if i < blocks.len() { blocks[i].fill(b'x'); }
        // repair
        raid5::repair(&mut blocks, &mut p, &[i]).unwrap();
        assert_eq!(&blocks[0], &(10..20).collect::<Vec<u8>>());
        assert_eq!(&blocks[1], &(20..30).collect::<Vec<u8>>());
        assert_eq!(&blocks[2], &(30..40).collect::<Vec<u8>>());
    }
}

#[test]
fn raid5_large() {
    let mut blocks = Vec::new();
    for i in 0..255 {
        blocks.push(((i+1)*10..(i+2)*10).map(|x| x as u8).collect::<Vec<u8>>());
    }
    let mut p = (10..20).collect::<Vec<u8>>();

    // format
    raid5::format(&mut blocks, &mut p);

    // mount and update
    raid5::update(0, &mut blocks[0], &(10..20).collect::<Vec<u8>>(), &mut p);
    blocks[0].copy_from_slice(&(10..20).collect::<Vec<u8>>());
    for i in 0..255 {
        assert_eq!(&blocks[i], &((i+1)*10..(i+2)*10).map(|x| x as u8).collect::<Vec<u8>>());
    }

    for i in 0..255 {
        // clobber
        blocks[i].fill(b'x');
        // repair
        raid5::repair(&mut blocks, &mut p, &[i]).unwrap();

        for i in 0..255 {
            assert_eq!(&blocks[i], &((i+1)*10..(i+2)*10).map(|x| x as u8).collect::<Vec<u8>>());
        }
    }
}

#[test]
fn raid6() {
    let mut blocks = [
        (80..90).collect::<Vec<u8>>(),
        (20..30).collect::<Vec<u8>>(),
        (30..40).collect::<Vec<u8>>(),
    ];
    let mut p = (40..50).collect::<Vec<u8>>();
    let mut q = (50..60).collect::<Vec<u8>>();

    // format
    raid6::format(&mut blocks, &mut p, &mut q);

    // update
    raid6::update(0, &mut blocks[0], &(10..20).collect::<Vec<u8>>(), &mut p, &mut q);
    blocks[0].copy_from_slice(&(10..20).collect::<Vec<u8>>());
    assert_eq!(&blocks[0], &(10..20).collect::<Vec<u8>>());
    assert_eq!(&blocks[1], &(20..30).collect::<Vec<u8>>());
    assert_eq!(&blocks[2], &(30..40).collect::<Vec<u8>>());

    for i in 0..blocks.len()+2 {
        // clobber
        if i < blocks.len() { blocks[i].fill(b'x'); }
        // repair
        raid6::repair(&mut blocks, &mut p, &mut q, &[i]).unwrap();
        assert_eq!(&blocks[0], &(10..20).collect::<Vec<u8>>());
        assert_eq!(&blocks[1], &(20..30).collect::<Vec<u8>>());
        assert_eq!(&blocks[2], &(30..40).collect::<Vec<u8>>());
    }

    for i in 0..blocks.len()+2 {
        for j in 0..blocks.len()+2 {
            if i == j {
                continue;
            }

            // clobber
            if i < blocks.len() { blocks[i].fill(b'x'); }
            if j < blocks.len() { blocks[j].fill(b'x'); }
            // repair
            raid6::repair(&mut blocks, &mut p, &mut q, &[i, j]).unwrap();
            assert_eq!(&blocks[0], &(10..20).collect::<Vec<u8>>());
            assert_eq!(&blocks[1], &(20..30).collect::<Vec<u8>>());
            assert_eq!(&blocks[2], &(30..40).collect::<Vec<u8>>());
        }
    }
}

#[test]
fn raid6_large() {
    let mut blocks = Vec::new();
    for i in 0..255 {
        blocks.push(((i+1)*10..(i+2)*10).map(|x| x as u8).collect::<Vec<u8>>());
    }
    let mut p = (10..20).collect::<Vec<u8>>();
    let mut q = (10..20).collect::<Vec<u8>>();

    // format
    raid6::format(&mut blocks, &mut p, &mut q);

    // mount and update
    raid6::update(0, &mut blocks[0], &(10..20).collect::<Vec<u8>>(), &mut p, &mut q);
    blocks[0].copy_from_slice(&(10..20).collect::<Vec<u8>>());
    for i in 0..255 {
        assert_eq!(&blocks[i], &((i+1)*10..(i+2)*10).map(|x| x as u8).collect::<Vec<u8>>());
    }

    for i in 0..255-1 {
        // clobber
        blocks[i+0].fill(b'x');
        blocks[i+1].fill(b'x');
        // repair
        raid6::repair(&mut blocks, &mut p, &mut q, &[i+0, i+1]).unwrap();

        for i in 0..255 {
            assert_eq!(&blocks[i], &((i+1)*10..(i+2)*10).map(|x| x as u8).collect::<Vec<u8>>());
        }
    }
}

#[test]
fn raid7() {
    let mut blocks = [
        (80..90).collect::<Vec<u8>>(),
        (20..30).collect::<Vec<u8>>(),
        (30..40).collect::<Vec<u8>>(),
    ];
    let mut p = (40..50).collect::<Vec<u8>>();
    let mut q = (50..60).collect::<Vec<u8>>();
    let mut r = (60..70).collect::<Vec<u8>>();

    // format
    raid7::format(&mut blocks, &mut p, &mut q, &mut r);

    // update
    raid7::update(0, &mut blocks[0], &(10..20).collect::<Vec<u8>>(), &mut p, &mut q, &mut r);
    blocks[0].copy_from_slice(&(10..20).collect::<Vec<u8>>());
    assert_eq!(&blocks[0], &(10..20).collect::<Vec<u8>>());
    assert_eq!(&blocks[1], &(20..30).collect::<Vec<u8>>());
    assert_eq!(&blocks[2], &(30..40).collect::<Vec<u8>>());

    for i in 0..blocks.len()+3 {
        // clobber
        if i < blocks.len() { blocks[i].fill(b'x'); }
        // repair
        raid7::repair(&mut blocks, &mut p, &mut q, &mut r, &[i]).unwrap();
        assert_eq!(&blocks[0], &(10..20).collect::<Vec<u8>>());
        assert_eq!(&blocks[1], &(20..30).collect::<Vec<u8>>());
        assert_eq!(&blocks[2], &(30..40).collect::<Vec<u8>>());
    }

    for i in 0..blocks.len()+3 {
        for j in 0..blocks.len()+3 {
            if i == j {
                continue;
            }

            // clobber
            if i < blocks.len() { blocks[i].fill(b'x'); }
            if j < blocks.len() { blocks[j].fill(b'x'); }
            // repair
            raid7::repair(&mut blocks, &mut p, &mut q, &mut r, &[i, j]).unwrap();
            assert_eq!(&blocks[0], &(10..20).collect::<Vec<u8>>());
            assert_eq!(&blocks[1], &(20..30).collect::<Vec<u8>>());
            assert_eq!(&blocks[2], &(30..40).collect::<Vec<u8>>());
        }
    }

    for i in 0..blocks.len()+3 {
        for j in 0..blocks.len()+3 {
            for k in 0..blocks.len()+3 {
                if i == j || i == k || j == k {
                    continue;
                }

                // clobber
                if i < blocks.len() { blocks[i].fill(b'x'); }
                if j < blocks.len() { blocks[j].fill(b'x'); }
                if k < blocks.len() { blocks[k].fill(b'x'); }
                // repair
                raid7::repair(&mut blocks, &mut p, &mut q, &mut r, &[i, j, k]).unwrap();
                assert_eq!(&blocks[0], &(10..20).collect::<Vec<u8>>());
                assert_eq!(&blocks[1], &(20..30).collect::<Vec<u8>>());
                assert_eq!(&blocks[2], &(30..40).collect::<Vec<u8>>());
            }
        }
    }
}

#[test]
fn raid7_large() {
    let mut blocks = Vec::new();
    for i in 0..255 {
        blocks.push(((i+1)*10..(i+2)*10).map(|x| x as u8).collect::<Vec<u8>>());
    }
    let mut p = (10..20).collect::<Vec<u8>>();
    let mut q = (10..20).collect::<Vec<u8>>();
    let mut r = (10..20).collect::<Vec<u8>>();

    // format
    raid7::format(&mut blocks, &mut p, &mut q, &mut r);

    // mount and update
    raid7::update(0, &mut blocks[0], &(10..20).collect::<Vec<u8>>(), &mut p, &mut q, &mut r);
    blocks[0].copy_from_slice(&(10..20).collect::<Vec<u8>>());
    for i in 0..255 {
        assert_eq!(&blocks[i], &((i+1)*10..(i+2)*10).map(|x| x as u8).collect::<Vec<u8>>());
    }

    for i in 0..255-2 {
        // clobber
        blocks[i+0].fill(b'x');
        blocks[i+1].fill(b'x');
        blocks[i+2].fill(b'x');
        // repair
        raid7::repair(&mut blocks, &mut p, &mut q, &mut r, &[i+0, i+1, i+2]).unwrap();

        for i in 0..255 {
            assert_eq!(&blocks[i], &((i+1)*10..(i+2)*10).map(|x| x as u8).collect::<Vec<u8>>());
        }
    }
}


#[test]
fn raid0() {
    let mut blocks = [
        (80..90).collect::<Vec<u8>>(),
        (20..30).collect::<Vec<u8>>(),
        (30..40).collect::<Vec<u8>>(),
    ];

    // format
    raid0::format(&mut blocks);

    // update
    raid0::update(0, &mut blocks[0], &(10..20).collect::<Vec<u8>>());
    blocks[0].copy_from_slice(&(10..20).collect::<Vec<u8>>());
    assert_eq!(&blocks[0], &(10..20).collect::<Vec<u8>>());
    assert_eq!(&blocks[1], &(20..30).collect::<Vec<u8>>());
    assert_eq!(&blocks[2], &(30..40).collect::<Vec<u8>>());
}


#[test]
fn gf2p64_raid7() {
    let mut blocks = [
        (80..90).collect::<Vec<u64>>(),
        (20..30).collect::<Vec<u64>>(),
        (30..40).collect::<Vec<u64>>(),
    ];
    let mut p = (40..50).collect::<Vec<u64>>();
    let mut q = (50..60).collect::<Vec<u64>>();
    let mut r = (60..70).collect::<Vec<u64>>();

    // format
    gf2p64_raid7::format(&mut blocks, &mut p, &mut q, &mut r);

    // update
    gf2p64_raid7::update(0, &mut blocks[0], &(10..20).collect::<Vec<u64>>(), &mut p, &mut q, &mut r);
    blocks[0].copy_from_slice(&(10..20).collect::<Vec<u64>>());
    assert_eq!(&blocks[0], &(10..20).collect::<Vec<u64>>());
    assert_eq!(&blocks[1], &(20..30).collect::<Vec<u64>>());
    assert_eq!(&blocks[2], &(30..40).collect::<Vec<u64>>());

    for i in 0..blocks.len()+3 {
        // clobber
        if i < blocks.len() { blocks[i].fill(0x7878787878787878); }
        // repair
        gf2p64_raid7::repair(&mut blocks, &mut p, &mut q, &mut r, &[i]).unwrap();
        assert_eq!(&blocks[0], &(10..20).collect::<Vec<u64>>());
        assert_eq!(&blocks[1], &(20..30).collect::<Vec<u64>>());
        assert_eq!(&blocks[2], &(30..40).collect::<Vec<u64>>());
    }

    for i in 0..blocks.len()+3 {
        for j in 0..blocks.len()+3 {
            if i == j {
                continue;
            }

            // clobber
            if i < blocks.len() { blocks[i].fill(0x7878787878787878); }
            if j < blocks.len() { blocks[j].fill(0x7878787878787878); }
            // repair
            gf2p64_raid7::repair(&mut blocks, &mut p, &mut q, &mut r, &[i, j]).unwrap();
            assert_eq!(&blocks[0], &(10..20).collect::<Vec<u64>>());
            assert_eq!(&blocks[1], &(20..30).collect::<Vec<u64>>());
            assert_eq!(&blocks[2], &(30..40).collect::<Vec<u64>>());
        }
    }

    for i in 0..blocks.len()+3 {
        for j in 0..blocks.len()+3 {
            for k in 0..blocks.len()+3 {
                if i == j || i == k || j == k {
                    continue;
                }

                // clobber
                if i < blocks.len() { blocks[i].fill(0x7878787878787878); }
                if j < blocks.len() { blocks[j].fill(0x7878787878787878); }
                if k < blocks.len() { blocks[k].fill(0x7878787878787878); }
                // repair
                gf2p64_raid7::repair(&mut blocks, &mut p, &mut q, &mut r, &[i, j, k]).unwrap();
                assert_eq!(&blocks[0], &(10..20).collect::<Vec<u64>>());
                assert_eq!(&blocks[1], &(20..30).collect::<Vec<u64>>());
                assert_eq!(&blocks[2], &(30..40).collect::<Vec<u64>>());
            }
        }
    }
}



#[test]
fn gf16_raid7() {
    let mut blocks = [
        (80..90).map(|x| x%16).collect::<Vec<u8>>(),
        (20..30).map(|x| x%16).collect::<Vec<u8>>(),
        (30..40).map(|x| x%16).collect::<Vec<u8>>(),
    ];
    let mut p = (40..50).map(|x| x%16).collect::<Vec<u8>>();
    let mut q = (50..60).map(|x| x%16).collect::<Vec<u8>>();
    let mut r = (60..70).map(|x| x%16).collect::<Vec<u8>>();

    // format
    gf16_raid7::format(&mut blocks, &mut p, &mut q, &mut r);

    // update
    gf16_raid7::update(0, &mut blocks[0], &(10..20).map(|x| x%16).collect::<Vec<u8>>(), &mut p, &mut q, &mut r);
    blocks[0].copy_from_slice(&(10..20).map(|x| x%16).collect::<Vec<u8>>());
    assert_eq!(&blocks[0], &(10..20).map(|x| x%16).collect::<Vec<u8>>());
    assert_eq!(&blocks[1], &(20..30).map(|x| x%16).collect::<Vec<u8>>());
    assert_eq!(&blocks[2], &(30..40).map(|x| x%16).collect::<Vec<u8>>());

    for i in 0..blocks.len()+3 {
        // clobber
        if i < blocks.len() { blocks[i].fill(0x7); }
        // repair
        gf16_raid7::repair(&mut blocks, &mut p, &mut q, &mut r, &[i]).unwrap();
        assert_eq!(&blocks[0], &(10..20).map(|x| x%16).collect::<Vec<u8>>());
        assert_eq!(&blocks[1], &(20..30).map(|x| x%16).collect::<Vec<u8>>());
        assert_eq!(&blocks[2], &(30..40).map(|x| x%16).collect::<Vec<u8>>());
    }

    for i in 0..blocks.len()+3 {
        for j in 0..blocks.len()+3 {
            if i == j {
                continue;
            }

            // clobber
            if i < blocks.len() { blocks[i].fill(0x7); }
            if j < blocks.len() { blocks[j].fill(0x7); }
            // repair
            gf16_raid7::repair(&mut blocks, &mut p, &mut q, &mut r, &[i, j]).unwrap();
            assert_eq!(&blocks[0], &(10..20).map(|x| x%16).collect::<Vec<u8>>());
            assert_eq!(&blocks[1], &(20..30).map(|x| x%16).collect::<Vec<u8>>());
            assert_eq!(&blocks[2], &(30..40).map(|x| x%16).collect::<Vec<u8>>());
        }
    }

    for i in 0..blocks.len()+3 {
        for j in 0..blocks.len()+3 {
            for k in 0..blocks.len()+3 {
                if i == j || i == k || j == k {
                    continue;
                }

                // clobber
                if i < blocks.len() { blocks[i].fill(0x7); }
                if j < blocks.len() { blocks[j].fill(0x7); }
                if k < blocks.len() { blocks[k].fill(0x7); }
                // repair
                gf16_raid7::repair(&mut blocks, &mut p, &mut q, &mut r, &[i, j, k]).unwrap();
                assert_eq!(&blocks[0], &(10..20).map(|x| x%16).collect::<Vec<u8>>());
                assert_eq!(&blocks[1], &(20..30).map(|x| x%16).collect::<Vec<u8>>());
                assert_eq!(&blocks[2], &(30..40).map(|x| x%16).collect::<Vec<u8>>());
            }
        }
    }
}

#[test]
fn gf2p23_raid7() {
    let mut blocks = [
        (80..90).collect::<Vec<u32>>(),
        (20..30).collect::<Vec<u32>>(),
        (30..40).collect::<Vec<u32>>(),
    ];
    let mut p = (40..50).collect::<Vec<u32>>();
    let mut q = (50..60).collect::<Vec<u32>>();
    let mut r = (60..70).collect::<Vec<u32>>();

    // format
    gf2p23_raid7::format(&mut blocks, &mut p, &mut q, &mut r);

    // update
    gf2p23_raid7::update(0, &mut blocks[0], &(10..20).collect::<Vec<u32>>(), &mut p, &mut q, &mut r);
    blocks[0].copy_from_slice(&(10..20).collect::<Vec<u32>>());
    assert_eq!(&blocks[0], &(10..20).collect::<Vec<u32>>());
    assert_eq!(&blocks[1], &(20..30).collect::<Vec<u32>>());
    assert_eq!(&blocks[2], &(30..40).collect::<Vec<u32>>());

    for i in 0..blocks.len()+3 {
        // clobber
        if i < blocks.len() { blocks[i].fill(0x787878); }
        // repair
        gf2p23_raid7::repair(&mut blocks, &mut p, &mut q, &mut r, &[i]).unwrap();
        assert_eq!(&blocks[0], &(10..20).collect::<Vec<u32>>());
        assert_eq!(&blocks[1], &(20..30).collect::<Vec<u32>>());
        assert_eq!(&blocks[2], &(30..40).collect::<Vec<u32>>());
    }

    for i in 0..blocks.len()+3 {
        for j in 0..blocks.len()+3 {
            if i == j {
                continue;
            }

            // clobber
            if i < blocks.len() { blocks[i].fill(0x787878); }
            if j < blocks.len() { blocks[j].fill(0x787878); }
            // repair
            gf2p23_raid7::repair(&mut blocks, &mut p, &mut q, &mut r, &[i, j]).unwrap();
            assert_eq!(&blocks[0], &(10..20).collect::<Vec<u32>>());
            assert_eq!(&blocks[1], &(20..30).collect::<Vec<u32>>());
            assert_eq!(&blocks[2], &(30..40).collect::<Vec<u32>>());
        }
    }

    for i in 0..blocks.len()+3 {
        for j in 0..blocks.len()+3 {
            for k in 0..blocks.len()+3 {
                if i == j || i == k || j == k {
                    continue;
                }

                // clobber
                if i < blocks.len() { blocks[i].fill(0x787878); }
                if j < blocks.len() { blocks[j].fill(0x787878); }
                if k < blocks.len() { blocks[k].fill(0x787878); }
                // repair
                gf2p23_raid7::repair(&mut blocks, &mut p, &mut q, &mut r, &[i, j, k]).unwrap();
                assert_eq!(&blocks[0], &(10..20).collect::<Vec<u32>>());
                assert_eq!(&blocks[1], &(20..30).collect::<Vec<u32>>());
                assert_eq!(&blocks[2], &(30..40).collect::<Vec<u32>>());
            }
        }
    }
}


#[test]
fn gf16_raid7_exhaustive() {
    let mut blocks = Vec::new();
    for i in 0..15 {
        blocks.push(((i+1)*10..(i+2)*10).map(|x| (x as u8)%16).collect::<Vec<u8>>());
    }
    let mut p = (10..20).collect::<Vec<u8>>();
    let mut q = (10..20).collect::<Vec<u8>>();
    let mut r = (10..20).collect::<Vec<u8>>();

    // format
    gf16_raid7::format(&mut blocks, &mut p, &mut q, &mut r);

    for i in 0..blocks.len() {
        for j in 0..blocks.len() {
            for k in 0..blocks.len() {
                if i == j || i == k || j == k {
                    continue;
                }

                // clobber
                blocks[i].fill(0x7);
                blocks[j].fill(0x7);
                blocks[k].fill(0x7);

                // repair
                gf16_raid7::repair(&mut blocks, &mut p, &mut q, &mut r, &[i, j, k]).unwrap();

                assert_eq!(&blocks[i], &((i+1)*10..(i+2)*10).map(|x| (x as u8)%16).collect::<Vec<u8>>());
                assert_eq!(&blocks[j], &((j+1)*10..(j+2)*10).map(|x| (x as u8)%16).collect::<Vec<u8>>());
                assert_eq!(&blocks[k], &((k+1)*10..(k+2)*10).map(|x| (x as u8)%16).collect::<Vec<u8>>());
            }
        }
    }
}


#[test]
fn raid_all_params() {
    let mut blocks = [
        (80..90).collect::<Vec<u8>>(),
        (20..30).collect::<Vec<u8>>(),
        (30..40).collect::<Vec<u8>>(),
    ];
    let mut p = (40..50).collect::<Vec<u8>>();
    let mut q = (50..60).collect::<Vec<u8>>();
    let mut r = (60..70).collect::<Vec<u8>>();

    // format
    raid7_all_params::format(&mut blocks, &mut p, &mut q, &mut r);

    // update
    raid7_all_params::update(0, &mut blocks[0], &(10..20).collect::<Vec<u8>>(), &mut p, &mut q, &mut r);
    blocks[0].copy_from_slice(&(10..20).collect::<Vec<u8>>());
    assert_eq!(&blocks[0], &(10..20).collect::<Vec<u8>>());
    assert_eq!(&blocks[1], &(20..30).collect::<Vec<u8>>());
    assert_eq!(&blocks[2], &(30..40).collect::<Vec<u8>>());

    for i in 0..blocks.len()+3 {
        // clobber
        if i < blocks.len() { blocks[i].fill(b'x'); }
        // repair
        raid7_all_params::repair(&mut blocks, &mut p, &mut q, &mut r, &[i]).unwrap();
        assert_eq!(&blocks[0], &(10..20).collect::<Vec<u8>>());
        assert_eq!(&blocks[1], &(20..30).collect::<Vec<u8>>());
        assert_eq!(&blocks[2], &(30..40).collect::<Vec<u8>>());
    }

    for i in 0..blocks.len()+3 {
        for j in 0..blocks.len()+3 {
            if i == j {
                continue;
            }

            // clobber
            if i < blocks.len() { blocks[i].fill(b'x'); }
            if j < blocks.len() { blocks[j].fill(b'x'); }
            // repair
            raid7_all_params::repair(&mut blocks, &mut p, &mut q, &mut r, &[i, j]).unwrap();
            assert_eq!(&blocks[0], &(10..20).collect::<Vec<u8>>());
            assert_eq!(&blocks[1], &(20..30).collect::<Vec<u8>>());
            assert_eq!(&blocks[2], &(30..40).collect::<Vec<u8>>());
        }
    }

    for i in 0..blocks.len()+3 {
        for j in 0..blocks.len()+3 {
            for k in 0..blocks.len()+3 {
                if i == j || i == k || j == k {
                    continue;
                }

                // clobber
                if i < blocks.len() { blocks[i].fill(b'x'); }
                if j < blocks.len() { blocks[j].fill(b'x'); }
                if k < blocks.len() { blocks[k].fill(b'x'); }
                // repair
                raid7_all_params::repair(&mut blocks, &mut p, &mut q, &mut r, &[i, j, k]).unwrap();
                assert_eq!(&blocks[0], &(10..20).collect::<Vec<u8>>());
                assert_eq!(&blocks[1], &(20..30).collect::<Vec<u8>>());
                assert_eq!(&blocks[2], &(30..40).collect::<Vec<u8>>());
            }
        }
    }
}

#[test]
fn raid_too_many_bad_blocks() {
    let mut blocks = [
        (80..90).collect::<Vec<u8>>(),
        (20..30).collect::<Vec<u8>>(),
        (30..40).collect::<Vec<u8>>(),
    ];
    let mut p = vec![0u8; 10];
    let mut q = vec![0u8; 10];
    raid6::format(&mut blocks, &mut p, &mut q);
    let before = blocks.clone();
    assert_eq!(raid6::repair(&mut blocks, &mut p, &mut q, &[0, 1, 2]), Err(RaidError::TooManyBadBlocks));
    assert_eq!(blocks, before);
    assert_eq!(raid5::repair(&mut blocks, &mut p, &[0, 1]), Err(RaidError::TooManyBadBlocks));
    assert_eq!(raid0::repair(&mut blocks, &[0]), Err(RaidError::TooManyBadBlocks));
    assert_eq!(raid0::repair(&mut blocks, &[]), Ok(()));
}

#[test]
fn raid_parity_values() {
    // p is the exclusive or of the blocks; q weights block j by 2^j in GF(2^8)
    let blocks = [vec![0x01u8, 0x80], vec![0x01u8, 0x80]];
    let mut p = vec![0u8; 2];
    let mut q = vec![0u8; 2];
    raid6::format(&blocks, &mut p, &mut q);
    assert_eq!(p, vec![0x00, 0x00]);
    // 0x01*1 + 0x01*2 = 0x03; 0x80*1 + 0x80*2 = 0x80 + 0x1d = 0x9d
    assert_eq!(q, vec![0x03, 0x9d]);
}

#[test]
fn raid_add_remove() {
    let mut blocks = vec![
        (80..90).collect::<Vec<u8>>(),
        (20..30).collect::<Vec<u8>>(),
    ];
    let mut p = vec![0u8; 10];
    let mut q = vec![0u8; 10];
    let mut r = vec![0u8; 10];
    raid7::format(&blocks, &mut p, &mut q, &mut r);
    let (p0, q0, r0) = (p.clone(), q.clone(), r.clone());

    // adding a third block gives the parity of the three blocks
    let new = (30..40).collect::<Vec<u8>>();
    raid7::add(2, &new, &mut p, &mut q, &mut r);
    blocks.push(new.clone());
    let mut p3 = vec![0u8; 10];
    let mut q3 = vec![0u8; 10];
    let mut r3 = vec![0u8; 10];
    raid7::format(&blocks, &mut p3, &mut q3, &mut r3);
    assert_eq!((&p, &q, &r), (&p3, &q3, &r3));

    // removing it again gives back the parity of the two blocks
    raid7::remove(2, &new, &mut p, &mut q, &mut r);
    assert_eq!((p, q, r), (p0, q0, r0));
}

#[test]
fn raid5_many_blocks() {
    let mut blocks: Vec<Vec<u8>> = (0..300usize)
        .map(|i| (0..8usize).map(|j| (i * 7 + j * 13) as u8).collect())
        .collect();
    let mut p = vec![0u8; 8];
    raid5::format(&blocks, &mut p);
    let sent = blocks.clone();
    for i in [0usize, 150, 299] {
        blocks[i] = vec![0xaa; 8];
        raid5::repair(&mut blocks, &mut p, &[i]).unwrap();
        assert_eq!(blocks, sent);
    }
}
