//! Integer core of an audio-reactive feedback-warp visualizer: images and
//! pixels, the frame RNG, effect and mode selection, the mode blueprint
//! table, the fixed-point warp remapper, the warp-switch scheduler, the
//! per-frame composite plan and the integer drawing effects.

mod bobs;
mod center;
mod chasers;
mod choice;
mod dots;
mod effects;
mod frame;
mod fx;
mod hub;
mod image;
mod laws;
mod library;
mod minstd;
mod plan;
mod prefs;
mod rgba;
mod ring;
mod shape;
mod warp;

pub use bobs::{bob_walk, bobs_fold, lit_delta, stamp5, Bob, ShadeBobs, BOB_STEPS};
pub use center::{lemma_offset_injective, DiminishCenter};
pub use chasers::{advanced, idle_chaser, inc_sat, paint_block_spec, paint_chasers, paint_px, Chaser, Chasers, NUM_CHASERS};
pub use choice::{choice_matches, choose_warp, lemma_choice_deterministic, weights_populated, WarpChoice};
pub use dots::{dot_ring_size, DotRingSize, SMALL_FXW};
pub use effects::{
    count_true, fill_det, fill_rounds, fill_scan, grid_hides_bar, initial_picks, pin_all, sample_spec,
    trim_det, trim_rounds, lemma_count_le_len, lemma_count_mono, lemma_count_update, min_nat, EffectFreq,
    EffectKind, Effects, BAR, FILL_ROUNDS, GRID, NUM_EFFECTS, PINNED_FREQ, TRIM_ROUNDS,
};
pub use frame::{
    buffer_size, find_trigger, shift_left, Fps, WAVE_5_BLEND_RANGE, WAVE_5_SIZE, YCUT,
};
pub use fx::{
    brighter_or_equal, brightens, disk_search, is_isqrt, isqrt, isqrt_spec, gate_delta, keeps_or_sats, lemma_isqrt_unique, solar_fold, solar_particle, stamp9, SOLAR_RADIUS, lemma_keeps_or_sats_trans, sample_disk, saturated,
    Effect, Grid, SolarParticles, Vec2K, Vec2i32, DISK_TRIES,
};
pub use hub::{HubAction, WarpMapHub, DWELL_MS};
pub use image::Image;
pub use laws::{
    decay, lemma_decay_geometric, lemma_effect_count_in_range, lemma_identity_remap, lemma_remap_dims,
    lemma_warp_rows,
};
pub use library::{
    blueprint_matches, raw_blueprint, ModeBlueprint, ModeBlueprintLibrary,
};
pub use minstd::{lcg_iter, lcg_step, Minstd, MINSTD_MOD, MINSTD_MUL};
pub use plan::{frame_plan, plan_spec, FxStep};
pub use prefs::{
    lemma_choice_has_weight, lemma_suffix_weight, mode_pick_spec, mode_pick_state, pick_compatible_waveform, total_weight,
    waveform_draw, waveform_excluded, waveform_search, weighted_choice, ModeId, ModePrefs, WaveformId, WaveformPrefs, YRoi, NUM_WAVES,
    WAVEFORM_TRIES,
};
pub use ring::RingBuffer;
pub use rgba::{add_px, all_opaque, dim, image_bytes, max_u8, toward_white, sat3, sat_add, saturate_rgb, Rgba, RgbaImage};
pub use shape::{lemma_offset_in_bounds, Shape2};
pub use warp::{
    bilin, bilin_w, clamp_int, dot_u8, lemma_mix_contracts, lemma_single_weight, mix, process_map,
    valid_map, valid_pixel, warp_index, warp_map_from_samples, warp_pixel, warp_shape, WarpMap, WarpPixel,
};
