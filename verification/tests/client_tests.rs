use touchosc_client::{Fx, FxPair, OscArg, OscMessage, TouchOscClient};

fn fx(units: i64) -> Fx {
    Fx { units }
}

fn msg(addr: &str, args: Vec<OscArg>) -> OscMessage {
    OscMessage { addr: String::from(addr), args }
}

fn one_float(addr: &str, units: i64) -> OscMessage {
    msg(addr, vec![OscArg::Float(fx(units))])
}

#[test]
fn registering_takes_the_address_regardless_of_kind() {
    let mut c = TouchOscClient::new();
    assert!(c.verify_free_addr("/a"));
    c.add_fader("/a", fx(0), fx(1_000_000), fx(0));
    // the address is now in use for every kind: a second registration,
    // whatever the kind, fails the free-address check and is fatal upstream
    assert!(!c.verify_free_addr("/a"));
    assert!(c.verify_has_addr("/a"));
    assert!(!c.verify_has_addr("/b"));
}

#[test]
fn getters_answer_the_registered_default_before_any_message() {
    let mut c = TouchOscClient::new();
    c.add_button("/b", true);
    c.add_fader("/f", fx(0), fx(10_000_000), fx(5_000_000));
    c.add_encoder("/e", fx(0), fx(1_000_000), fx(250_000));
    c.add_radial("/r", fx(-1_000_000), fx(1_000_000), fx(-500_000));
    c.add_radio("/i", 4, 2);
    c.add_radar("/pp", (fx(0), fx(1_000_000), fx(700_000)), (fx(0), fx(6_280_000), fx(100_000)));
    c.add_xy("/xy", fx(0), fx(2_000_000), fx(1_500_000));
    c.add_grid("/g", 3, fx(0), fx(1_000_000), fx(300_000));
    assert_eq!(c.button("/b"), true);
    assert_eq!(c.fader("/f"), fx(5_000_000));
    assert_eq!(c.encoder("/e"), fx(250_000));
    assert_eq!(c.radial("/r"), fx(-500_000));
    assert_eq!(c.radio("/i"), 2);
    assert_eq!(c.radar("/pp"), FxPair { x: fx(700_000), y: fx(100_000) });
    assert_eq!(c.xy("/xy"), FxPair { x: fx(1_500_000), y: fx(1_500_000) });
    assert_eq!(c.grid("/g/1"), fx(300_000));
    assert_eq!(c.grid("/g/2"), fx(300_000));
    assert_eq!(c.grid("/g/3"), fx(300_000));
}

#[test]
fn switch_thresholding() {
    let mut c = TouchOscClient::new();
    c.add_button("/sw", false);
    c.update(&vec![one_float("/sw", 100_000)]);
    assert_eq!(c.button("/sw"), true);
    c.update(&vec![one_float("/sw", 0)]);
    assert_eq!(c.button("/sw"), false);
    c.update(&vec![one_float("/sw", 1)]);
    assert_eq!(c.button("/sw"), true);
    c.update(&vec![one_float("/sw", -1)]);
    assert_eq!(c.button("/sw"), false);
    // a message of the wrong shape leaves the flag unchanged
    c.update(&vec![one_float("/sw", 1)]);
    c.update(&vec![msg("/sw", vec![OscArg::Float(fx(0)), OscArg::Float(fx(0))])]);
    assert_eq!(c.button("/sw"), true);
}

#[test]
fn scalar_end_to_end() {
    let mut c = TouchOscClient::new();
    c.add_fader("/vol", fx(0), fx(10_000_000), fx(5_000_000));
    assert_eq!(c.fader("/vol"), fx(5_000_000));
    c.update(&vec![one_float("/vol", 500_000)]);
    assert_eq!(c.fader("/vol"), fx(5_000_000));
    c.update(&vec![one_float("/vol", 1_000_000)]);
    assert_eq!(c.fader("/vol"), fx(10_000_000));
}

#[test]
fn polar_pair_end_to_end() {
    let mut c = TouchOscClient::new();
    c.add_radar("/pp", (fx(0), fx(1_000_000), fx(0)), (fx(0), fx(6_280_000), fx(0)));
    c.update(&vec![msg(
        "/pp",
        vec![OscArg::Float(fx(500_000)), OscArg::Float(fx(500_000))],
    )]);
    let v = c.radar("/pp");
    assert_eq!(v.x, fx(500_000));
    assert_eq!(v.y, fx(3_140_000));
}

#[test]
fn xy_shares_one_interval_for_both_coordinates() {
    let mut c = TouchOscClient::new();
    c.add_xy("/xy", fx(0), fx(4_000_000), fx(0));
    c.update(&vec![msg(
        "/xy",
        vec![OscArg::Float(fx(250_000)), OscArg::Float(fx(750_000))],
    )]);
    assert_eq!(c.xy("/xy"), FxPair { x: fx(1_000_000), y: fx(3_000_000) });
}

#[test]
fn radio_stores_the_integer_verbatim() {
    let mut c = TouchOscClient::new();
    c.add_radio("/sel", 5, 0);
    c.update(&vec![msg("/sel", vec![OscArg::Int(3)])]);
    assert_eq!(c.radio("/sel"), 3);
    // a float payload does not fit a discrete index and is dropped
    c.update(&vec![one_float("/sel", 900_000)]);
    assert_eq!(c.radio("/sel"), 3);
}

#[test]
fn grid_sub_addresses_update_independently() {
    let mut c = TouchOscClient::new();
    c.add_grid("/grid", 2, fx(0), fx(1_000_000), fx(0));
    c.update(&vec![one_float("/grid/1", 250_000)]);
    c.update(&vec![one_float("/grid/2", 750_000)]);
    assert_eq!(c.grid("/grid/1"), fx(250_000));
    assert_eq!(c.grid("/grid/2"), fx(750_000));
}

#[test]
fn grid_out_of_range_suffix_is_a_no_op() {
    let mut c = TouchOscClient::new();
    c.add_grid("/grid", 2, fx(0), fx(1_000_000), fx(111_111));
    c.update(&vec![one_float("/grid/3", 999_999)]);
    assert_eq!(c.grid("/grid/1"), fx(111_111));
    assert_eq!(c.grid("/grid/2"), fx(111_111));
}

#[test]
fn grid_base_address_alone_is_a_no_op() {
    let mut c = TouchOscClient::new();
    c.add_grid("/grid", 2, fx(0), fx(1_000_000), fx(111_111));
    c.update(&vec![one_float("/grid", 999_999)]);
    assert_eq!(c.grid("/grid/1"), fx(111_111));
    assert_eq!(c.grid("/grid/2"), fx(111_111));
}

#[test]
fn grid_suffix_with_leading_zero_is_a_no_op() {
    let mut c = TouchOscClient::new();
    c.add_grid("/grid", 2, fx(0), fx(1_000_000), fx(111_111));
    c.update(&vec![one_float("/grid/01", 999_999)]);
    assert_eq!(c.grid("/grid/1"), fx(111_111));
    assert_eq!(c.grid("/grid/2"), fx(111_111));
}

#[test]
fn grid_huge_suffix_is_a_no_op() {
    let mut c = TouchOscClient::new();
    c.add_grid("/grid", 2, fx(0), fx(1_000_000), fx(111_111));
    c.update(&vec![one_float("/grid/99999999999999999999999999", 999_999)]);
    assert_eq!(c.grid("/grid/1"), fx(111_111));
    assert_eq!(c.grid("/grid/2"), fx(111_111));
}

#[test]
fn kind_mismatch_queries_answer_the_zero_value() {
    let mut c = TouchOscClient::new();
    c.add_fader("/f", fx(0), fx(10_000_000), fx(5_000_000));
    c.add_button("/b", true);
    // the radio getter on a fader address answers 0, it does not crash
    assert_eq!(c.radio("/f"), 0);
    assert_eq!(c.button("/f"), false);
    assert_eq!(c.fader("/b"), fx(0));
    assert_eq!(c.radar("/f"), FxPair { x: fx(0), y: fx(0) });
    assert_eq!(c.xy("/b"), FxPair { x: fx(0), y: fx(0) });
    assert_eq!(c.encoder("/b"), fx(0));
    assert_eq!(c.radial("/b"), fx(0));
}

#[test]
fn grid_defaults_survive_foreign_traffic() {
    let mut c = TouchOscClient::new();
    c.add_grid("/grid", 2, fx(0), fx(1_000_000), fx(123_456));
    c.add_fader("/f", fx(0), fx(1_000_000), fx(0));
    // a whole cycle of messages that route elsewhere, to the bare base, or to
    // sub-addresses outside the grid leaves every sub-store at its default
    c.update(&vec![
        one_float("/f", 900_000),
        one_float("/grid", 900_000),
        one_float("/grid/3", 900_000),
        one_float("/x/1", 900_000),
    ]);
    assert_eq!(c.grid("/grid/1"), fx(123_456));
    assert_eq!(c.grid("/grid/2"), fx(123_456));
}

#[test]
fn grid_getter_on_a_base_of_another_kind_answers_zero() {
    let mut c = TouchOscClient::new();
    c.add_fader("/f", fx(0), fx(10_000_000), fx(5_000_000));
    // "/f/1" matches the array grammar over the fader's address, but the
    // store is no grid: the getter answers zero instead of crashing
    assert_eq!(c.grid("/f/1"), fx(0));
}

#[test]
fn grid_query_range_check() {
    let mut c = TouchOscClient::new();
    c.add_grid("/g", 2, fx(0), fx(1_000_000), fx(0));
    assert!(c.grid_query_in_range("/g/1"));
    assert!(c.grid_query_in_range("/g/2"));
    // out of range, outside the grammar, or resolving to nothing registered:
    // all fatal at the query boundary
    assert!(!c.grid_query_in_range("/g/3"));
    assert!(!c.grid_query_in_range("/g/0"));
    assert!(!c.grid_query_in_range("/g/01"));
    assert!(!c.grid_query_in_range("/g"));
    assert!(!c.grid_query_in_range("/elsewhere/1"));
}

#[test]
fn malformed_payload_leaves_the_stored_value_identical() {
    let mut c = TouchOscClient::new();
    c.add_fader("/f", fx(0), fx(10_000_000), fx(5_000_000));
    // wrong arity
    c.update(&vec![msg("/f", vec![])]);
    assert_eq!(c.fader("/f"), fx(5_000_000));
    c.update(&vec![msg("/f", vec![OscArg::Float(fx(1)), OscArg::Float(fx(2))])]);
    assert_eq!(c.fader("/f"), fx(5_000_000));
    // wrong type
    c.update(&vec![msg("/f", vec![OscArg::Int(7)])]);
    assert_eq!(c.fader("/f"), fx(5_000_000));
    c.update(&vec![msg("/f", vec![OscArg::Unsupported])]);
    assert_eq!(c.fader("/f"), fx(5_000_000));
}

#[test]
fn unknown_addresses_are_ignored() {
    let mut c = TouchOscClient::new();
    c.add_fader("/f", fx(0), fx(1_000_000), fx(400_000));
    c.update(&vec![one_float("/elsewhere", 999_999), one_float("/f/extra/deep", 999_999)]);
    assert_eq!(c.fader("/f"), fx(400_000));
}

#[test]
fn messages_apply_in_arrival_order() {
    let mut c = TouchOscClient::new();
    c.add_fader("/f", fx(0), fx(1_000_000), fx(0));
    c.update(&vec![one_float("/f", 100_000), one_float("/f", 900_000)]);
    assert_eq!(c.fader("/f"), fx(900_000));
}

#[test]
fn exact_match_wins_over_the_array_pattern() {
    let mut c = TouchOscClient::new();
    c.add_grid("/g", 2, fx(0), fx(1_000_000), fx(0));
    c.add_fader("/g/1", fx(0), fx(1_000_000), fx(0));
    // "/g/1" resolves to the fader registered under that exact address; the
    // grid's first sub-store stays untouched
    c.update(&vec![one_float("/g/1", 500_000)]);
    assert_eq!(c.fader("/g/1"), fx(500_000));
    assert_eq!(c.grid("/g/2"), fx(0));
}

#[test]
fn encoder_and_radial_rescale_like_a_fader() {
    let mut c = TouchOscClient::new();
    c.add_encoder("/e", fx(0), fx(6_280_000), fx(0));
    c.add_radial("/r", fx(1_000_000), fx(3_000_000), fx(1_000_000));
    c.update(&vec![one_float("/e", 250_000), one_float("/r", 500_000)]);
    assert_eq!(c.encoder("/e"), fx(1_570_000));
    assert_eq!(c.radial("/r"), fx(2_000_000));
}
