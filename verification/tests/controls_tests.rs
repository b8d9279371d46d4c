use touchosc_client::{
    array_index_within, matches_array_grammar, str_eq, Fx, TouchOscButton, TouchOscFader,
    TouchOscGrid, TouchOscRadar, TouchOscRadio, TouchOscXY,
};

fn fx(units: i64) -> Fx {
    Fx { units }
}

#[test]
fn leaf_addresses_match_by_exact_equality() {
    assert!(str_eq("/a/b", "/a/b"));
    assert!(!str_eq("/a", "/a/b"));
    assert!(!str_eq("/a/b", "/a/c"));
    assert!(str_eq("", ""));
}

#[test]
fn array_grammar_accepts_canonical_positive_indices_only() {
    assert!(matches_array_grammar("/g", "/g/7"));
    assert!(matches_array_grammar("/g", "/g/12"));
    assert!(!matches_array_grammar("/g", "/g"));
    assert!(!matches_array_grammar("/g", "/g/"));
    assert!(!matches_array_grammar("/g", "/g/0"));
    assert!(!matches_array_grammar("/g", "/g/01"));
    assert!(!matches_array_grammar("/g", "/g/1x"));
    assert!(!matches_array_grammar("/g", "/gg/7"));
    assert!(!matches_array_grammar("/g", "/g/1/2"));
}

#[test]
fn array_index_parsing_respects_the_size_bound() {
    assert_eq!(array_index_within("/g", "/g/12", 20), Some(12));
    assert_eq!(array_index_within("/g", "/g/20", 20), Some(20));
    assert_eq!(array_index_within("/g", "/g/21", 20), None);
    assert_eq!(array_index_within("/g", "/g/0", 20), None);
    assert_eq!(array_index_within("/g", "/g/007", 20), None);
    assert_eq!(array_index_within("/g", "/x/3", 20), None);
    assert_eq!(array_index_within("/g", "/g/18446744073709551617", usize::MAX), None);
}

#[test]
fn button_keeps_its_cached_initial_payload() {
    let mut b = TouchOscButton::new(true);
    assert_eq!(b.state(), true);
    assert_eq!(b.value(), fx(1_000_000));
    b.set_state(fx(0));
    assert_eq!(b.state(), false);
    assert_eq!(b.value(), fx(1_000_000));
    let off = TouchOscButton::new(false);
    assert_eq!(off.value(), fx(0));
}

#[test]
fn bound_mutators_do_not_rescale_the_stored_value() {
    let mut f = TouchOscFader::new(fx(0), fx(1_000_000), fx(700_000));
    f.set_min(fx(500_000));
    f.set_max(fx(2_000_000));
    // the stored value is untouched; only future decodes use the new bounds
    assert_eq!(f.value(), fx(700_000));
    assert_eq!(f.range(fx(500_000)), fx(1_250_000));
    f.set_value(fx(1_000_000));
    assert_eq!(f.value(), fx(2_000_000));
}

#[test]
fn radar_uses_separate_bounds_for_radius_and_angle() {
    let mut r = TouchOscRadar::new((fx(0), fx(2_000_000), fx(0)), (fx(0), fx(6_280_000), fx(0)));
    assert_eq!(r.rad_range(fx(500_000)), fx(1_000_000));
    assert_eq!(r.rot_range(fx(500_000)), fx(3_140_000));
    r.set_values(touchosc_client::FxPair { x: fx(1_000_000), y: fx(250_000) });
    assert_eq!(r.values().x, fx(2_000_000));
    assert_eq!(r.values().y, fx(1_570_000));
}

#[test]
fn radio_reports_its_size() {
    let r = TouchOscRadio::new(4, 1);
    assert_eq!(r.size(), 4);
    assert_eq!(r.value(), 1);
}

#[test]
fn xy_rescales_both_coordinates_with_shared_bounds() {
    let mut p = TouchOscXY::new(fx(0), fx(2_000_000), fx(0));
    p.set_values(touchosc_client::FxPair { x: fx(250_000), y: fx(1_000_000) });
    assert_eq!(p.values().x, fx(500_000));
    assert_eq!(p.values().y, fx(2_000_000));
}

#[test]
fn grid_routes_by_sub_address_and_ignores_strangers() {
    let mut g = TouchOscGrid::new("/g", 2, fx(0), fx(1_000_000), fx(0));
    assert_eq!(g.base_addr(), "/g");
    g.set_value("/g/2", fx(500_000));
    assert_eq!(g.value("/g/2"), fx(500_000));
    assert_eq!(g.value("/g/1"), fx(0));
    // out-of-range or foreign addresses leave every sub-store alone
    g.set_value("/g/5", fx(999_999));
    g.set_value("/other", fx(999_999));
    assert_eq!(g.value("/g/1"), fx(0));
    assert_eq!(g.value("/g/2"), fx(500_000));
}
