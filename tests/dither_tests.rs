use ditherfx::dither::{dither_block, encode_levels, encode_pair, sub_pixel};

#[test]
fn blocks_follow_the_two_tables() {
    assert_eq!(dither_block(0, false), [0, 0, 0, 0]);
    assert_eq!(dither_block(4, true), [1, 1, 1, 1]);
    assert_eq!(dither_block(5, false), [1, 2, 1, 1]);
    assert_eq!(dither_block(5, true), [1, 1, 1, 2]);
    assert_eq!(dither_block(6, false), [2, 1, 1, 2]);
    assert_eq!(dither_block(6, true), [2, 1, 1, 2]);
    assert_eq!(dither_block(7, false), [2, 1, 2, 2]);
    assert_eq!(dither_block(7, true), [2, 2, 2, 1]);
    assert_eq!(dither_block(11, false), [3, 2, 3, 3]);
    assert_eq!(dither_block(12, false), [3, 3, 3, 3]);
    assert_eq!(dither_block(12, true), [3, 3, 3, 3]);
}

#[test]
fn block_sum_equals_level() {
    for level in 0u8..=12 {
        for odd in [false, true] {
            let b = dither_block(level, odd);
            let sum: u32 = b.iter().map(|&p| p as u32).sum();
            assert_eq!(sum, level as u32);
            if level < 12 {
                let base = level / 4;
                let promoted = b.iter().filter(|&&p| p == base + 1).count();
                assert_eq!(promoted, (level % 4) as usize);
            }
        }
    }
}

#[test]
fn tables_agree_on_even_remainders_only() {
    for level in 0u8..12 {
        let same = dither_block(level, false) == dither_block(level, true);
        assert_eq!(same, level % 2 == 0);
    }
}

#[test]
fn sub_pixel_matches_block() {
    let b = dither_block(9, true);
    for p in 0..4u8 {
        assert_eq!(sub_pixel(9, true, p), b[p as usize]);
    }
}

#[test]
fn pair_packs_even_cell_low() {
    // level 5 even: [1,2,1,1]; level 0 odd: zeros
    assert_eq!(encode_pair(5, 0), (0b1001, 0b0101));
    assert_eq!(encode_pair(0, 12), (0xF0, 0xF0));
}

#[test]
fn uniform_level_six_is_a_checkerboard() {
    let levels = vec![6u8; 6400];
    let mut fb = vec![0u8; 6400];
    encode_levels(&mut fb, &levels);
    let mut twos = 0;
    let mut ones = 0;
    for py in 0..160usize {
        for px in 0..160usize {
            let p = (fb[py * 40 + px / 4] >> ((px % 4) * 2)) & 3;
            if (px + py) % 2 == 0 {
                assert_eq!(p, 2);
            } else {
                assert_eq!(p, 1);
            }
            if p == 2 {
                twos += 1;
            } else if p == 1 {
                ones += 1;
            }
        }
    }
    assert_eq!(twos, 12800);
    assert_eq!(ones, 12800);
}

#[test]
fn encode_places_cells_in_rows() {
    let mut levels = vec![0u8; 6400];
    // cell (u = 3, v = 1): odd column, byte column 1, rows 2 and 3
    levels[80 + 3] = 12;
    let mut fb = vec![0x55u8; 6400];
    encode_levels(&mut fb, &levels);
    assert_eq!(fb[2 * 40 + 1], 0xF0);
    assert_eq!(fb[3 * 40 + 1], 0xF0);
    let touched = fb.iter().filter(|&&b| b != 0).count();
    assert_eq!(touched, 2);
}
