use jmfm::ColorDistance;

#[test]
fn dist_is_symmetric_on_sample_pairs() {
    let pairs: Vec<([u8; 3], [u8; 3])> = vec![
        ([255, 0, 0], [0, 255, 0]),
        ([1, 2, 3], [200, 100, 50]),
        ([0, 0, 0], [255, 255, 255]),
        ([17, 230, 99], [99, 17, 230]),
    ];
    for (a, b) in pairs {
        assert_eq!(a.dist(&b), b.dist(&a));
    }
}

#[test]
fn dist_to_self_is_zero() {
    let colors: Vec<[u8; 3]> = vec![[0, 0, 0], [255, 255, 255], [12, 34, 56]];
    for c in colors {
        assert_eq!(c.dist(&c), 0);
    }
}

#[test]
fn dist_exact_value_red_to_green() {
    // m = (255 + 0) / 2 = 127; red term (512 + 127) * 255^2 / 256 = 162308;
    // green term 4 * 255^2 = 260100; blue term 0.
    let a: [u8; 3] = [255, 0, 0];
    let b: [u8; 3] = [0, 255, 0];
    assert_eq!(a.dist(&b), 162308 + 260100);
}

#[test]
fn dist_exact_value_blue_heavy() {
    // a = [10, 0, 200], b = [20, 0, 100]: m = 15, dr = 10, db = 100;
    // red term (512 + 15) * 100 / 256 = 205; blue term (767 - 15) * 10000 / 256 = 29375.
    let a: [u8; 3] = [10, 0, 200];
    let b: [u8; 3] = [20, 0, 100];
    assert_eq!(a.dist(&b), 205 + 29375);
}

#[test]
fn dist_is_positive_on_distinct_colors() {
    let a: [u8; 3] = [0, 0, 1];
    let b: [u8; 3] = [0, 0, 0];
    assert!(a.dist(&b) > 0);
}
