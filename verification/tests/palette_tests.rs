use jmfm::palette::MapPalette;

#[test]
fn build_rejects_empty_bases() {
    let bases: Vec<[u8; 3]> = vec![];
    let mults: Vec<u8> = vec![180, 220];
    assert!(MapPalette::build(&bases, &mults).is_err());
}

#[test]
fn build_rejects_empty_multipliers() {
    let bases: Vec<[u8; 3]> = vec![[255, 0, 0]];
    let mults: Vec<u8> = vec![];
    assert!(MapPalette::build(&bases, &mults).is_err());
}

#[test]
fn build_accepts_non_empty_inputs() {
    let bases: Vec<[u8; 3]> = vec![[255, 0, 0]];
    let mults: Vec<u8> = vec![180];
    assert!(MapPalette::build(&bases, &mults).is_ok());
}

#[test]
fn derived_entries_base_major_multiplier_minor() {
    let bases: Vec<[u8; 3]> = vec![[255, 0, 0], [0, 255, 0]];
    let mults: Vec<u8> = vec![180, 220];
    let p = MapPalette::new(&bases, &mults);
    assert_eq!(p.lookup(0), Some([180, 0, 0]));
    assert_eq!(p.lookup(1), Some([220, 0, 0]));
    assert_eq!(p.lookup(2), Some([0, 180, 0]));
    assert_eq!(p.lookup(3), Some([0, 220, 0]));
    assert_eq!(p.lookup(4), None);
}

#[test]
fn derived_channels_truncate_toward_zero() {
    // 100 * 128 / 255 = 50.19 -> 50; 150 * 128 / 255 = 75.29 -> 75;
    // 200 * 128 / 255 = 100.39 -> 100.
    let bases: Vec<[u8; 3]> = vec![[100, 150, 200]];
    let mults: Vec<u8> = vec![128];
    let p = MapPalette::new(&bases, &mults);
    assert_eq!(p.lookup(0), Some([50, 75, 100]));
}

#[test]
fn index_of_adds_margin_and_finds_first_match() {
    let bases: Vec<[u8; 3]> = vec![[255, 0, 0]];
    let mults: Vec<u8> = vec![180, 220];
    let p = MapPalette::new(&bases, &mults);
    // margin is the multiplier count, 2.
    assert_eq!(p.index_of(&[180, 0, 0]), 2);
    assert_eq!(p.index_of(&[220, 0, 0]), 3);
}

#[test]
fn index_of_unknown_color_is_zero() {
    let bases: Vec<[u8; 3]> = vec![[255, 0, 0]];
    let mults: Vec<u8> = vec![180, 220];
    let p = MapPalette::new(&bases, &mults);
    assert_eq!(p.index_of(&[1, 2, 3]), 0);
}

#[test]
fn index_of_duplicate_entries_returns_first() {
    // Both bases derive the same color under multiplier 255.
    let bases: Vec<[u8; 3]> = vec![[9, 9, 9], [9, 9, 9]];
    let mults: Vec<u8> = vec![255];
    let p = MapPalette::new(&bases, &mults);
    assert_eq!(p.lookup(0), p.lookup(1));
    assert_eq!(p.index_of(&[9, 9, 9]), 1);
}

#[test]
fn nearest_keeps_palette_member_fixed() {
    let bases: Vec<[u8; 3]> = vec![[255, 0, 0], [0, 0, 255]];
    let mults: Vec<u8> = vec![180, 220];
    let p = MapPalette::new(&bases, &mults);
    let mut c: [u8; 3] = [220, 0, 0];
    p.map_color(&mut c);
    assert_eq!(c, [220, 0, 0]);
}

#[test]
fn nearest_maps_pure_red_to_brightest_variant() {
    let bases: Vec<[u8; 3]> = vec![[255, 0, 0]];
    let mults: Vec<u8> = vec![180, 220];
    let p = MapPalette::new(&bases, &mults);
    let mut c: [u8; 3] = [255, 0, 0];
    p.map_color(&mut c);
    assert_eq!(c, [220, 0, 0]);
}

#[test]
fn nearest_tie_break_keeps_earliest_entry() {
    // dist([5,0,0], [10,0,0]) == dist([5,0,0], [0,0,0]) == 50: a true tie.
    let bases: Vec<[u8; 3]> = vec![[10, 0, 0], [0, 0, 0]];
    let mults: Vec<u8> = vec![255];
    let p = MapPalette::new(&bases, &mults);
    for _ in 0..5 {
        let mut c: [u8; 3] = [5, 0, 0];
        p.map_color(&mut c);
        assert_eq!(c, [10, 0, 0]);
    }
}

#[test]
fn nearest_on_empty_palette_leaves_color_unchanged() {
    let bases: Vec<[u8; 3]> = vec![];
    let mults: Vec<u8> = vec![];
    let p = MapPalette::new(&bases, &mults);
    let mut c: [u8; 3] = [1, 2, 3];
    p.map_color(&mut c);
    assert_eq!(c, [1, 2, 3]);
}

#[test]
fn build_twice_yields_identical_palettes() {
    let bases: Vec<[u8; 3]> = vec![[255, 0, 0], [0, 255, 0], [13, 37, 201]];
    let mults: Vec<u8> = vec![135, 180, 220, 255];
    let p1 = MapPalette::new(&bases, &mults);
    let p2 = MapPalette::new(&bases, &mults);
    let mut idx: usize = 0;
    loop {
        let a = p1.lookup(idx);
        let b = p2.lookup(idx);
        assert_eq!(a, b);
        if a.is_none() {
            break;
        }
        idx += 1;
    }
    assert_eq!(idx, 12);
}

#[test]
fn has_lookup_is_supported() {
    let bases: Vec<[u8; 3]> = vec![[1, 1, 1]];
    let mults: Vec<u8> = vec![255];
    let p = MapPalette::new(&bases, &mults);
    assert!(p.has_lookup());
}
