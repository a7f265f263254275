use ditherfx::tile::Tile;

fn columns_tile() -> Tile {
    let mut colors = [0u8; 16];
    for r in 0..8 {
        colors[r * 2] = 0x11;
        colors[r * 2 + 1] = 0x22;
    }
    Tile { colors, opacity_mask: [0xFF; 16] }
}

fn solid_tile() -> Tile {
    Tile { colors: [0xFF; 16], opacity_mask: [0xFF; 16] }
}

#[test]
fn tile_interior_copies_both_columns() {
    let t = columns_tile();
    let mut fb = vec![0u8; 6400];
    t.blit_as_tile(&mut fb, 3, 2);
    for row in 0..160 {
        for col in 0..40 {
            let expected = if (8..16).contains(&row) && col == 3 {
                0x11
            } else if (8..16).contains(&row) && col == 4 {
                0x22
            } else {
                0
            };
            assert_eq!(fb[row * 40 + col], expected);
        }
    }
}

#[test]
fn tile_at_left_edge_writes_second_column_only() {
    let t = columns_tile();
    let mut fb = vec![0u8; 6400];
    t.blit_as_tile(&mut fb, -1, 5);
    for row in 0..160 {
        for col in 0..40 {
            let expected = if (20..28).contains(&row) && col == 0 { 0x22 } else { 0 };
            assert_eq!(fb[row * 40 + col], expected);
        }
    }
}

#[test]
fn tile_at_top_left_corner_skips_first_rows() {
    let mut colors = [0u8; 16];
    for (i, c) in colors.iter_mut().enumerate() {
        *c = i as u8;
    }
    let t = Tile { colors, opacity_mask: [0xFF; 16] };
    let mut fb = vec![0u8; 6400];
    t.blit_as_tile(&mut fb, -1, -1);
    for row in 0..4 {
        assert_eq!(fb[row * 40], ((row + 4) * 2 + 1) as u8);
        assert_eq!(fb[row * 40 + 1], 0);
    }
    assert_eq!(fb[4 * 40], 0);
}

#[test]
fn tile_at_far_corner_skips_last_rows_and_column() {
    let t = columns_tile();
    let mut fb = vec![0u8; 6400];
    t.blit_as_tile(&mut fb, 39, 39);
    for row in 156..160 {
        assert_eq!(fb[row * 40 + 39], 0x11);
    }
    assert_eq!(fb.iter().filter(|&&b| b != 0).count(), 4);
}

#[test]
fn tile_out_of_range_is_a_no_op() {
    let t = solid_tile();
    let mut fb = vec![7u8; 6400];
    t.blit_as_tile(&mut fb, 40, 0);
    t.blit_as_tile(&mut fb, 0, -2);
    assert!(fb.iter().all(|&b| b == 7));
}

#[test]
fn tile_merges_through_the_mask() {
    let t = Tile { colors: [0b1010_1010; 16], opacity_mask: [0b0000_1111; 16] };
    let mut fb = vec![0b0101_0101u8; 6400];
    t.blit_as_tile(&mut fb, 0, 0);
    assert_eq!(fb[0], 0b0101_1010);
    assert_eq!(fb[2], 0b0101_0101);
}

#[test]
fn aligned_sprite_equals_tile() {
    let mut colors = [0u8; 16];
    let mut mask = [0u8; 16];
    for i in 0..16 {
        colors[i] = (i as u8).wrapping_mul(37);
        mask[i] = (i as u8).wrapping_mul(91) ^ 0x3C;
    }
    let t = Tile { colors, opacity_mask: mask };
    for &(x, y) in &[(0, 0), (8, 12), (-4, 20), (156, 156), (-4, -4), (100, 156)] {
        let mut a: Vec<u8> = (0..6400u32).map(|i| (i * 13 % 251) as u8).collect();
        let mut b = a.clone();
        t.blit_as_sprite(&mut a, x, y);
        t.blit_as_tile(&mut b, x / 4, y / 4);
        assert_eq!(a, b);
    }
}

#[test]
fn sprite_at_odd_offset_shifts_pixels() {
    let t = solid_tile();
    let mut fb = vec![0u8; 6400];
    t.blit_as_sprite(&mut fb, 1, 0);
    for row in 0..8 {
        assert_eq!(fb[row * 40], 0xFC);
        assert_eq!(fb[row * 40 + 1], 0xFF);
        assert_eq!(fb[row * 40 + 2], 0x03);
    }
    assert_eq!(fb[8 * 40], 0);
    assert_eq!(fb.iter().filter(|&&b| b != 0).count(), 24);
}

#[test]
fn sprite_clips_at_left_and_top() {
    // column c of the asset has colour c % 4, all opaque
    let mut colors = [0u8; 16];
    for r in 0..8 {
        colors[r * 2] = 0b11_10_01_00;
        colors[r * 2 + 1] = 0b11_10_01_00;
    }
    let t = Tile { colors, opacity_mask: [0xFF; 16] };
    let mut fb = vec![0u8; 6400];
    t.blit_as_sprite(&mut fb, -3, -6);
    // screen pixels 0..5 take asset columns 3..8: colours 3,0,1,2,3
    assert_eq!(fb[0], 0b10_01_00_11);
    assert_eq!(fb[1], 0b00_00_00_11);
    assert_eq!(fb[40], fb[0]);
    assert_eq!(fb[2 * 40], 0);
}

#[test]
fn sprite_clips_at_right_and_bottom() {
    let t = solid_tile();
    let mut fb = vec![0u8; 6400];
    t.blit_as_sprite(&mut fb, 157, 155);
    for row in 155..160 {
        assert_eq!(fb[row * 40 + 39], 0b11_11_11_00);
    }
    assert_eq!(fb.iter().filter(|&&b| b != 0).count(), 5);
}

#[test]
fn sprite_transparent_pixels_keep_destination() {
    let t = Tile { colors: [0xFF; 16], opacity_mask: [0b0000_0011; 16] };
    let mut fb = vec![0u8; 6400];
    t.blit_as_sprite(&mut fb, 2, 1);
    // asset pixels 0 and 4 of each row are opaque: screen pixels 2 and 6
    assert_eq!(fb[40], 0b0011_0000);
    assert_eq!(fb[41], 0b0011_0000);
    assert_eq!(fb[0], 0);
}

#[test]
fn sprite_out_of_range_is_a_no_op() {
    let t = solid_tile();
    let mut fb = vec![0u8; 6400];
    t.blit_as_sprite(&mut fb, -8, 3);
    t.blit_as_sprite(&mut fb, 3, 160);
    t.blit_as_sprite(&mut fb, -8, -8);
    assert!(fb.iter().all(|&b| b == 0));
}
