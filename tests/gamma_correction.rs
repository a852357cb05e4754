use adalight_listener::gamma_correction::GammaLookup;

#[test]
fn new_gamma_lookup() {
    let gamma_lookup = GammaLookup::new();
    assert_eq!(gamma_lookup.len(), 256);
}

#[test]
fn gamma_levels_follow_the_curve() {
    let gamma = GammaLookup::new();
    assert_eq!(gamma.red(0), 0);
    assert_eq!(gamma.green(0), 0);
    assert_eq!(gamma.blue(0), 0);
    assert_eq!(gamma.red(255), 255);
    assert_eq!(gamma.green(255), 240);
    assert_eq!(gamma.blue(255), 220);
    assert_eq!(gamma.red(64), 5);
    assert_eq!(gamma.red(128), 37);
    assert_eq!(gamma.green(128), 34);
    assert_eq!(gamma.blue(128), 31);
    assert_eq!(gamma.red(200), 129);
}

#[test]
fn gamma_levels_match_float_formula() {
    let gamma = GammaLookup::new();
    for i in 0..=255u8 {
        let f = ((i as f64) / 255.0).powf(2.8);
        assert_eq!(gamma.red(i), (f * 255.0) as u8);
        assert_eq!(gamma.green(i), (f * 240.0) as u8);
        assert_eq!(gamma.blue(i), (f * 220.0) as u8);
    }
}
