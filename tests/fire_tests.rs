use ditherfx::dither::encode_levels;
use ditherfx::fire::FireField;
use ditherfx::game_stage::GameStage;

fn grid(f: &FireField) -> Vec<u8> {
    let mut g = Vec::new();
    for v in 0..80 {
        for u in 0..80 {
            g.push(f.sample(u, v));
        }
    }
    g
}

#[test]
fn new_field_burns_only_at_the_bottom() {
    let f = FireField::new(0xACE1);
    let g = grid(&f);
    assert!(g[..6320].iter().all(|&l| l == 0));
    assert!(g[6320..].iter().all(|&l| l == 12));
}

#[test]
fn same_seed_gives_same_fire() {
    let mut a = FireField::new(0xBEEF);
    let mut b = FireField::new(0xBEEF);
    for _ in 0..30 {
        a.advance();
        b.advance();
    }
    assert_eq!(grid(&a), grid(&b));
}

#[test]
fn bottom_row_stays_hot_and_levels_stay_in_range() {
    let mut f = FireField::new(7);
    for _ in 0..40 {
        f.advance();
        let g = grid(&f);
        assert!(g.iter().all(|&l| l <= 12));
        assert!(g[6320..].iter().all(|&l| (9..=12).contains(&l)));
    }
}

#[test]
fn fire_rises_after_an_advance() {
    let mut f = FireField::new(0xACE1);
    f.advance();
    let g = grid(&f);
    assert!(g[79 * 80 - 80..79 * 80].iter().any(|&l| l > 0));
    assert!(g[..78 * 80].iter().all(|&l| l == 0));
}

#[test]
fn update_advances_every_fourth_frame() {
    let mut f = FireField::new(0x4321);
    let start = grid(&f);
    for _ in 0..3 {
        f.update();
        assert_eq!(grid(&f), start);
    }
    f.update();
    let mut g = FireField::new(0x4321);
    g.advance();
    assert_eq!(grid(&f), grid(&g));
}

#[test]
fn render_dithers_the_grid() {
    let mut f = FireField::new(99);
    for _ in 0..5 {
        f.advance();
    }
    let mut a = vec![0u8; 6400];
    let mut b = vec![0u8; 6400];
    f.render(&mut a);
    encode_levels(&mut b, &grid(&f));
    assert_eq!(a, b);
}

#[test]
fn stage_counts_frames_and_gives_palette() {
    let mut s = GameStage::new();
    assert_eq!(s.current_frame(), 0);
    assert_eq!(s.start(), [0x232e45, 0x3c5d75, 0x5eb2a0, 0xffd7b9]);
    s.update();
    s.update();
    assert_eq!(s.current_frame(), 2);
}
