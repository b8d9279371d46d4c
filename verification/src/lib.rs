//! An address-routed control-state registry for TouchOSC-style control
//! surfaces.
//!
//! Inbound control messages carry a hierarchical string address and a
//! normalized payload. The registry maps each registered address to a typed
//! control store, decodes matching messages, rescales their payload into the
//! control's configured output range, and keeps the latest value for
//! synchronous retrieval.

mod address;
mod client;
mod controls;
mod fixed;

pub use controls::TouchOscButton;
pub use controls::TouchOscEncoder;
pub use controls::TouchOscFader;
pub use controls::TouchOscGrid;
pub use controls::TouchOscRadar;
pub use controls::TouchOscRadial;
pub use controls::TouchOscRadio;
pub use controls::TouchOscXY;
pub use controls::grid_set_spec;

pub use address::all_dec_digits;
pub use address::array_index_within;
pub use address::array_suffix;
pub use address::dec_value;
pub use address::digit_val;
pub use address::is_canonical_index;
pub use address::is_dec_digit;
pub use address::matches_array_grammar;
pub use address::lemma_array_base_unique;
pub use address::str_eq;

pub use fixed::Fx;
pub use fixed::FxPair;
pub use fixed::FX_SCALE;
pub use fixed::remap;
pub use fixed::remap_spec;
pub use fixed::remap_fx;
pub use fixed::clamp_to_i64;
pub use fixed::div_trunc;
pub use fixed::lemma_remap_endpoints;

pub use client::ClientEntry;
pub use client::EntryModel;
pub use client::GridModel;
pub use client::InputModel;
pub use client::MsgModel;
pub use client::OscArg;
pub use client::OscMessage;
pub use client::TouchOscClient;
pub use client::TouchOscInput;
pub use client::TouchOscInputType;
pub use client::is_exact_match;
pub use client::lemma_exact_match_unique;
pub use client::lemma_first_exact_exists;
pub use client::lemma_register_preserves_uniqueness;
pub use client::lookup;
pub use client::spec_has_addr;
pub use client::unique_addrs;
pub use client::any_base_hit;
pub use client::args_fit;
pub use client::button_state_spec;
pub use client::dispatch_all;
pub use client::dispatch_spec;
pub use client::encoder_value_spec;
pub use client::fader_value_spec;
pub use client::grid_decode;
pub use client::grid_hit;
pub use client::grid_query_ok;
pub use client::grid_value_spec;
pub use client::input_decode;
pub use client::is_first_base_hit;
pub use client::is_grid_target;
pub use client::lemma_default_until_first_matching_message;
pub use client::lemma_dispatch_all_snoc;
pub use client::lemma_dispatch_other_addr_preserves_lookup;
pub use client::lemma_first_base_hit_unique;
pub use client::lemma_fresh_registration_lookup;
pub use client::lemma_grid_target_unique;
pub use client::lemma_malformed_payload_noop;
pub use client::lemma_mismatched_payload_is_noop;
pub use client::lemma_fader_decode;
pub use client::lemma_dispatch_preserves_foreign_grid_row;
pub use client::lemma_grid_default_until_first_matching_message;
pub use client::lemma_fresh_grid_resolution;
pub use client::lemma_mismatched_grid_payload_is_noop;
pub use client::lemma_dispatch_preserves_addresses;
pub use client::lemma_update_preserves_addresses;
pub use client::lemma_switch_threshold;
pub use client::msgs_view;
pub use client::radar_values_spec;
pub use client::radial_value_spec;
pub use client::radio_value_spec;
pub use client::xy_values_spec;
