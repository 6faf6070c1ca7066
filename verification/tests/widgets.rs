//! Panels, meters, displays, edit history, synthesis tables and the studio bars.
use sonido::desk::{
    apply_target, describe_target, editor_title, EditorEdits, MacroDesk, RigWrite,
};
use sonido::engine::PatchBuildError;
use sonido::fm::Fm4Algorithm::{Additive, DoubleStack, DualSerial, Parallel2, Parallel3, Serial};
use sonido::fm::{Fm4Algorithm, OperatorSettings};
use sonido::history::SnapshotHistory;
use sonido::knob::{in_larger_unit, takes_focus, value_place, KnobEdit, KnobInput, ValuePlace};
use sonido::macros::{MacroAction, MacroMapping};
use sonido::meter::{
    mark_shows, segments_lit, GainReductionMeter, LevelMeter, MeterState, MeterStep, DB_MARKS,
    METER_DB_FLOOR, PEAK_HOLD_TIME,
};
use sonido::morph::MorphEnd;
use sonido::panels::{
    bind_label, create_panel, display_name, joined_name, knob_label, macro_label, mapping_label, menu_action,
    segment_lit, stash, step_labels, take_macro_action, DotClicks, GenericPanel,
    MacroPanelResponse, MorphBarResponse,
};
use sonido::params::{partition_params, visible_param_count, ParamInfo};
use sonido::patch::{GlobalParam, MacroTarget, MorphCurve, Patch, PatchNode};
use sonido::spectrum::{
    column_magnitude, column_paint, level_color, ColumnStep, LevelColor, SpectrumState,
};
use sonido::studio::{
    bypass_label, clip_light, cpu_color, daisy_badge, error_label, export_menu, export_message,
    lock_label, morph_commands, nearest_buffer_size, panel_area, panel_rows, pedal_binary,
    plan_frame, preset_label, refresh_panel, CompileStatus, CpuHistory, ExportKind, FrameInput,
    HistoryStep, MorphCommand, PanelArea, ShotState, ShotStep,
};
use sonido::compile::CompileError;
use sonido::undo::{Mutation, UndoHistory, MAX_HISTORY};
use sonido::validate::{CpuShare, Severity};
use sonido::wavetable::{
    downsample_pair, frames_fit, mip_level, mip_size, next_frame, read_pair, upsample_point,
    MIP_LEVELS, WAVE_SIZE,
};
use sonido::waveform::{clips, WaveformState};

fn b(x: f32) -> u32 {
    x.to_bits()
}

fn f(x: u32) -> f32 {
    f32::from_bits(x)
}

fn bs(xs: &[f32]) -> Vec<u32> {
    xs.iter().map(|x| x.to_bits()).collect()
}

// --- Panels ---

const ALL_EFFECT_IDS: [&str; 20] = [
    "preamp", "distortion", "compressor", "gate", "eq", "wah", "chorus", "flanger", "phaser",
    "tremolo", "delay", "filter", "vibrato", "tape", "reverb", "limiter", "bitcrusher", "ringmod",
    "stage", "looper",
];

#[test]
fn create_panel_returns_some_for_all_known_ids() {
    for id in &ALL_EFFECT_IDS {
        assert!(create_panel(id).is_some(), "create_panel({id:?}) returned None");
    }
}

#[test]
fn create_panel_returns_none_for_empty_id() {
    assert!(create_panel("").is_none());
}

#[test]
fn create_panel_looper_keeps_transport_panel() {
    let panel = create_panel("looper").expect("looper panel");
    assert_eq!(panel.name(), "Looper");
    assert_eq!(panel.short_name(), "Loop");
}

#[test]
fn create_panel_unifies_param_effects_on_generic() {
    for id in ["tape", "compressor", "reverb", "amp", "custom_effect"] {
        assert!(create_panel(id).is_some(), "create_panel({id:?}) should produce a GenericPanel");
    }
}

#[test]
fn panel_names_come_from_the_effect() {
    let panel = GenericPanel::try_new("reverb").unwrap();
    assert_eq!(panel.effect_id(), "reverb");
    assert_eq!(panel.name(), "Reverb");
    assert_eq!(panel.short_name(), "REVE");
    assert_eq!(panel.combo_id(12), "reverb_12");
    let short = GenericPanel::try_new("ßa").unwrap();
    assert_eq!(short.name(), "SSa");
    assert_eq!(short.short_name(), "SSA");
    assert!(GenericPanel::try_new("").is_none());
    assert_eq!(display_name("X", "amp"), "Xmp");
    assert_eq!(joined_name(&vec!["AB".to_string(), "C".to_string()]), "ABC");
    assert_eq!(step_labels(3), vec!["0", "1", "2"]);
}

fn param(stepped: bool, hidden: bool, read_only: bool) -> ParamInfo {
    ParamInfo {
        name: "P".to_string(),
        short_name: "P".to_string(),
        min: b(0.0),
        max: b(1.0),
        default: b(0.0),
        stepped,
        read_only,
        hidden,
        macro_exclude: false,
        curve: MorphCurve::Linear,
    }
}

#[test]
fn panel_shows_each_param_once() {
    let params = [
        Some(param(true, false, false)),
        Some(param(false, false, false)),
        Some(param(false, true, false)),
        Some(param(true, false, true)),
        None,
    ];
    assert_eq!(partition_params(&params), (vec![0], vec![1, 4]));
    let described: Vec<ParamInfo> = params.iter().flatten().cloned().collect();
    assert_eq!(visible_param_count(&described), 2);
}

#[test]
fn response_defaults_to_no_action() {
    let r = MacroPanelResponse::default();
    assert!(r.changed.is_none());
    assert!(r.edit_requested.is_none());
}

#[test]
fn macro_panel_reports_the_last_macro() {
    let mut r = MacroPanelResponse::default();
    r.note(1, true, false);
    r.note(2, false, true);
    r.note(4, true, false);
    assert_eq!((r.changed, r.edit_requested), (Some(4), Some(2)));
    assert_eq!(knob_label(0), "K1");
    assert_eq!(macro_label(2, ""), "macro 3");
    assert_eq!(macro_label(2, "Drive"), "Drive");
    assert_eq!(mapping_label(0), None);
    assert_eq!(mapping_label(2).unwrap(), "→2");
}

#[test]
fn take_returns_none_when_empty() {
    let ctx = egui::Context::default();
    assert!(ctx.data_mut(|d| take_macro_action(d)).is_none());
}

#[test]
fn stash_then_take_roundtrips_and_fires_once() {
    let ctx = egui::Context::default();
    let action = MacroAction::Bind { slot: 1, param: 2, macro_index: 3 };
    ctx.data_mut(|d| stash(d, action));
    assert_eq!(ctx.data_mut(|d| take_macro_action(d)), Some(action));
    assert!(ctx.data_mut(|d| take_macro_action(d)).is_none());
}

#[test]
fn stash_overwrites_prior_pending() {
    let ctx = egui::Context::default();
    ctx.data_mut(|d| stash(d, MacroAction::Clear { slot: 0, param: 0 }));
    let latest = MacroAction::Bind { slot: 5, param: 1, macro_index: 0 };
    ctx.data_mut(|d| stash(d, latest));
    assert_eq!(ctx.data_mut(|d| take_macro_action(d)), Some(latest));
}

#[test]
fn menu_entries_bind_or_clear() {
    assert_eq!(bind_label(0), "Map to Macro 1");
    assert_eq!(
        menu_action(1, 2, 5),
        Some(MacroAction::Bind { slot: 1, param: 2, macro_index: 5 })
    );
    assert_eq!(menu_action(1, 2, 6), Some(MacroAction::Clear { slot: 1, param: 2 }));
    assert_eq!(menu_action(1, 2, 7), None);
}

#[test]
fn pose_dots_focus_or_grab() {
    let click = DotClicks { clicked: true, double_clicked: false, secondary_clicked: false };
    let twice = DotClicks { double_clicked: true, ..click };
    let mut r = MorphBarResponse::default();
    r.click_a(click);
    r.click_b(twice);
    assert!(r.focus_a && !r.grab_a && r.grab_b && !r.focus_b);
    assert_eq!(r.drag(true, Some(b(1.5))), Some(b(1.0)));
    assert!(r.t_changed);
    let mut off = MorphBarResponse::default();
    assert_eq!(off.drag(false, Some(b(0.5))), None);
    assert!(!off.t_changed);
    assert!(segment_lit(3, 3, true) && !segment_lit(4, 3, true) && !segment_lit(0, 3, false));
    assert_eq!(
        morph_commands(r),
        vec![
            MorphCommand::Park(MorphEnd::A),
            MorphCommand::Grab(MorphEnd::B),
            MorphCommand::Perform
        ]
    );
}

// --- Knob ---

#[test]
fn test_knob_default_value() {
    let knob = KnobEdit::new(b(0.5), b(0.0), b(1.0), b(0.25));
    assert_eq!(f(knob.default), 0.25);
}

#[test]
fn knob_moves_are_held_to_the_range() {
    let mut knob = KnobEdit::new(b(0.5), b(0.0), b(1.0), b(0.25));
    knob.turn(KnobInput::Move(b(3.0)));
    assert_eq!((f(knob.value), knob.changed), (1.0, true));
    knob.turn(KnobInput::Reset);
    assert_eq!(f(knob.value), 0.25);
    assert_eq!(value_place(true, true), ValuePlace::Inside);
    assert_eq!(value_place(false, true).room_below(), 35);
    assert_eq!(value_place(false, false).room_below(), 20);
    assert!(in_larger_unit(b(1000.0)) && !in_larger_unit(b(999.9)));
    assert!(takes_focus(false, true) && !takes_focus(false, false));
}

// --- Meters ---

#[test]
fn level_meter_defaults() {
    let meter = LevelMeter::new(b(0.8), b(0.5));
    assert_eq!(f(meter.peak), 0.8);
    assert_eq!(f(meter.rms), 0.5);
    assert_eq!(f(meter.width), 24.0);
    assert_eq!(f(meter.height), 120.0);
    assert!(!meter.horizontal);
    assert!(meter.label.is_empty());
}

#[test]
fn level_meter_clamps_inputs() {
    let meter = LevelMeter::new(b(5.0), b(-1.0));
    assert_eq!(f(meter.peak), 1.5);
    assert_eq!(f(meter.rms), 0.0);
}

#[test]
fn level_meter_builder() {
    let meter = LevelMeter::new(b(0.5), b(0.3))
        .label("L".to_string())
        .size(b(32.0), b(200.0))
        .horizontal();
    assert_eq!(meter.label, "L");
    assert_eq!(f(meter.width), 32.0);
    assert_eq!(f(meter.height), 200.0);
    assert!(meter.horizontal);
}

/// Advance a meter as a window does: one-pole ballistics, and a fall of 12 dB per
/// second.
fn advance(s: &mut MeterState, peak: f32, rms: f32, dt: f32) {
    let tau = if s.rises(b(rms)) { 0.01f32 } else { 0.3 };
    let level = f(s.smoothed_rms);
    let db = |v: f32| 20.0 * v.max(1e-7).log10();
    let step = MeterStep {
        smoothed_rms: b(level + (rms - level) * (1.0 - (-dt / tau).exp())),
        aged: b(f(s.hold_age) + dt),
        fallen: b(10f32.powf((db(f(s.peak_hold)) - 12.0 * dt).max(-60.0) / 20.0)),
        peak_db: b(db(peak)),
    };
    s.advance(b(peak), step);
}

#[test]
fn peak_hold_holds_then_falls() {
    let mut s = MeterState::default();
    advance(&mut s, 1.0, 0.5, 0.016);
    assert!((f(s.peak_hold) - 1.0).abs() < 1e-6);
    for _ in 0..10 {
        advance(&mut s, 0.0, 0.0, 0.016);
    }
    assert!((f(s.peak_hold) - 1.0).abs() < 1e-3, "cap fell during hold window");
    for _ in 0..200 {
        advance(&mut s, 0.0, 0.0, 0.016);
    }
    assert!(f(s.peak_hold) < 0.9, "cap did not fall after hold expired");
}

#[test]
fn max_peak_db_latches_until_reset() {
    let mut s = MeterState::default();
    advance(&mut s, 1.2, 0.5, 0.016);
    let held = s.max_peak_db;
    assert!(f(held) > 0.0, "over-0 peak should latch positive dB");
    advance(&mut s, 0.1, 0.1, 0.016);
    assert_eq!(s.max_peak_db, held);
    assert!(s.animating());
    s.reset_readout();
    assert_eq!(f(s.max_peak_db), f32::NEG_INFINITY);
}

#[test]
fn readout_text_formats() {
    let text = |db: f32| LevelMeter::readout_text(b(db), format!("{db:.1}"));
    assert_eq!(text(f32::NEG_INFINITY), "-\u{221e}");
    assert_eq!(text(-12.34), "-12.3");
    assert_eq!(text(1.25), "1.2");
    assert_eq!(text(-60.0), "-\u{221e}");
}

#[test]
fn db_marks_are_ordered() {
    for window in DB_MARKS.windows(2) {
        assert!(f(window[0]) > f(window[1]), "DB_MARKS should be ordered descending");
    }
    assert_eq!(f(DB_MARKS[1]), -6.0);
    assert_eq!(f(DB_MARKS[6]), -48.0);
    assert_eq!(f(METER_DB_FLOOR), -60.0);
    assert_eq!(f(PEAK_HOLD_TIME), 1.5);
}

#[test]
fn meter_draws_what_shows() {
    let meter = LevelMeter::new(b(1.2), b(0.5));
    let mut s = MeterState::default();
    advance(&mut s, 1.2, 0.5, 0.016);
    let p = meter.paint(&s, b(1.0), b(0.9), b(0.0));
    assert!(p.band && p.bar && !p.cap && p.cap_over && p.readout_over);
    assert!(mark_shows(b(5.0), b(0.0), b(5.0)) && !mark_shows(b(5.1), b(0.0), b(5.0)));
}

#[test]
fn gain_reduction_meter_defaults() {
    let meter = GainReductionMeter::new(b(6.0));
    assert_eq!(f(meter.reduction_db), 6.0);
    assert_eq!(f(meter.max_reduction), 20.0);
    assert_eq!(f(meter.width), 24.0);
    assert_eq!(f(meter.height), 80.0);
}

#[test]
fn gain_reduction_meter_clamps_negative() {
    let meter = GainReductionMeter::new(b(-3.0));
    assert_eq!(f(meter.reduction_db), 0.0);
}

#[test]
fn gain_reduction_meter_builder() {
    let meter =
        GainReductionMeter::new(b(10.0)).max_reduction(b(30.0)).size(b(16.0), b(60.0));
    assert_eq!(f(meter.max_reduction), 30.0);
    assert_eq!(f(meter.width), 16.0);
    assert_eq!(f(meter.height), 60.0);
}

#[test]
fn reduction_lights_from_the_top() {
    for k in 0..=32 {
        let normalized = k as f32 / 32.0;
        let lit = (0..16).filter(|i| normalized > *i as f32 / 16.0).count();
        assert_eq!(segments_lit(b(normalized)), lit);
    }
}

// --- Spectrum ---

#[test]
fn spectrum_state_new() {
    let s = SpectrumState::new(128);
    assert_eq!(s.columns(), 128);
    assert!(s.smoothed().iter().all(|&v| f(v) == 0.0));
    assert!(s.peaks().iter().all(|&v| f(v) == 0.0));
}

#[test]
fn spectrum_state_reset() {
    let mut s = SpectrumState::new(64);
    s.settle(0, ColumnStep { normalized: b(0.5), decayed: b(0.4), decayed_peak: b(0.0) });
    assert_eq!(f(s.peaks()[0]), 0.5);
    s.reset();
    assert!(s.smoothed().iter().all(|&v| f(v) == 0.0));
    assert!(s.peaks().iter().all(|&v| f(v) == 0.0));
}

/// Update a spectrum as a window does, on a log axis from 20 Hz to 20 kHz.
fn update(s: &mut SpectrumState, magnitudes: &[f32], sample_rate: f32) {
    if !s.updates(magnitudes.len()) {
        return;
    }
    let bin_hz = sample_rate / (2.0 * magnitudes.len() as f32);
    let columns = s.columns();
    let mags = bs(magnitudes);
    for col in 0..columns {
        let freq = |c: usize| 10f32.powf(20f32.log10() + c as f32 / columns as f32 * 3.0);
        let lo = (freq(col) / bin_hz) as usize;
        let hi = (freq(col + 1) / bin_hz) as usize;
        let mag = f(column_magnitude(&mags, lo, hi));
        let db = if mag > 1e-10 { 20.0 * mag.log10() } else { -91.0 };
        let normalized = ((db + 90.0) / 90.0).clamp(0.0, 1.0);
        let step = ColumnStep {
            normalized: b(normalized),
            decayed: b(f(s.smoothed()[col]).max(normalized) * 0.97),
            decayed_peak: b(f(s.peaks()[col]) * 0.97),
        };
        s.settle(col, step);
    }
}

#[test]
fn spectrum_update_silent_stays_zero() {
    let mut s = SpectrumState::new(32);
    update(&mut s, &[0.0; 512], 48000.0);
    assert!(s.smoothed().iter().all(|&v| f(v) < 0.001));
    assert!(s.peaks().iter().all(|&v| f(v) < 0.001));
}

#[test]
fn spectrum_update_full_scale_normalizes() {
    let mut s = SpectrumState::new(32);
    update(&mut s, &[1.0; 512], 48000.0);
    assert!(
        s.smoothed().iter().any(|&v| f(v) > 0.9),
        "0 dB signal should produce high normalized values"
    );
}

#[test]
fn peak_hold_decays() {
    let mut s = SpectrumState::new(4);
    update(&mut s, &[1.0; 512], 48000.0);
    let initial_peak = f(s.peaks()[0]);
    for _ in 0..10 {
        update(&mut s, &[0.0; 512], 48000.0);
    }
    assert!(f(s.peaks()[0]) < initial_peak, "peaks should decay over time");
}

#[test]
fn spectrum_state_empty_magnitudes() {
    let mut s = SpectrumState::new(32);
    update(&mut s, &[], 48000.0);
    assert!(s.smoothed().iter().all(|&v| f(v) == 0.0));
}

#[test]
fn columns_take_their_loudest_bin() {
    let mags = bs(&[0.1, f32::NAN, 0.7, 0.3, -2.0]);
    assert_eq!(f(column_magnitude(&mags, 0, 2)), 0.7);
    assert_eq!(f(column_magnitude(&mags, 9, 12)), 0.0);
    assert_eq!(f(column_magnitude(&mags, 3, 1)), 0.3);
    assert_eq!(level_color(b(0.96)), LevelColor::Red);
    assert_eq!(level_color(b(0.8)), LevelColor::Yellow);
    assert_eq!(level_color(b(0.7)), LevelColor::Green);
    let p = column_paint(b(0.0005), b(0.0005), b(3.0));
    assert!(p.bar.is_none() && p.peak.is_none());
    let p = column_paint(b(0.8), b(0.97), b(3.0));
    assert_eq!((p.bar, p.peak), (Some(LevelColor::Yellow), Some(LevelColor::Red)));
}

// --- Waveform ---

#[test]
fn waveform_state_new() {
    let w = WaveformState::new(1024);
    assert_eq!(w.capacity(), 1024);
    assert_eq!(w.len(), 0);
    assert!(w.is_empty());
}

#[test]
fn waveform_state_push_and_len() {
    let mut w = WaveformState::new(1024);
    w.push(&bs(&[1.0, 2.0, 3.0]));
    assert_eq!(w.len(), 3);
    assert!(!w.is_empty());
}

#[test]
fn waveform_state_wraps() {
    let mut w = WaveformState::new(4);
    w.push(&bs(&[1.0, 2.0, 3.0, 4.0, 5.0]));
    assert_eq!(w.len(), 4);
}

#[test]
fn waveform_recent_order() {
    let mut w = WaveformState::new(16);
    w.push(&bs(&[1.0, 2.0, 3.0]));
    assert_eq!(w.recent(3), bs(&[1.0, 2.0, 3.0]));
}

#[test]
fn waveform_recent_wraps_correctly() {
    let mut w = WaveformState::new(4);
    w.push(&bs(&[1.0, 2.0, 3.0, 4.0, 5.0]));
    assert_eq!(w.recent(4), bs(&[2.0, 3.0, 4.0, 5.0]));
    assert_eq!(w.recent(2), bs(&[4.0, 5.0]));
    assert_eq!(w.window(100), bs(&[2.0, 3.0, 4.0, 5.0]));
}

#[test]
fn waveform_reset() {
    let mut w = WaveformState::new(16);
    w.push(&bs(&[0.5, 0.6]));
    w.reset();
    assert_eq!(w.len(), 0);
    assert!(w.is_empty());
}

#[test]
fn waveform_push_sample() {
    let mut w = WaveformState::new(8);
    w.push_sample(b(0.42));
    assert_eq!(w.len(), 1);
    assert!((f(w.recent(1)[0]) - 0.42).abs() < 1e-6);
}

#[test]
fn waveform_keeps_at_least_one_sample() {
    let mut w = WaveformState::new(0);
    assert_eq!(w.capacity(), 1);
    w.push(&bs(&[1.0, 2.0]));
    assert_eq!(w.recent(5), bs(&[2.0]));
    assert_eq!(WaveformState::default().capacity(), 96_000);
    assert!(clips(&bs(&[0.0, -1.5]), b(1.0)));
    assert!(!clips(&bs(&[1.0, -1.0, f32::NAN]), b(1.0)));
}

// --- Edit history ---

fn m(slot: usize, param: usize, old: f32, new: f32) -> Mutation {
    Mutation::new(slot, param, b(old), b(new))
}

#[test]
fn initial_state() {
    let h = UndoHistory::new();
    assert!(!h.can_undo());
    assert!(!h.can_redo());
    assert!(h.is_empty());
}

#[test]
fn push_single() {
    let mut h = UndoHistory::new();
    h.push(m(0, 0, 0.0, 1.0));
    assert!(h.can_undo());
    assert!(!h.can_redo());
    assert_eq!(h.len(), 1);
}

#[test]
fn undo_returns_mutation() {
    let mut h = UndoHistory::new();
    h.push(m(0, 0, 0.0, 1.0));
    let group = h.undo().unwrap();
    assert_eq!(group.len(), 1);
    assert_eq!(group[0].old, b(0.0));
    assert_eq!(group[0].new, b(1.0));
    assert!(!h.can_undo());
    assert!(h.can_redo());
}

#[test]
fn redo_reapplies() {
    let mut h = UndoHistory::new();
    h.push(m(0, 0, 0.0, 1.0));
    h.undo();
    let group = h.redo().unwrap();
    assert_eq!(group[0].new, b(1.0));
    assert!(h.can_undo());
    assert!(!h.can_redo());
}

#[test]
fn push_truncates_redo_tail() {
    let mut h = UndoHistory::new();
    h.push(m(0, 0, 0.0, 1.0));
    h.push(m(0, 0, 1.0, 2.0));
    h.undo();
    h.push(m(0, 0, 1.0, 3.0));
    assert_eq!(h.len(), 2);
    assert!(!h.can_redo());
}

#[test]
fn gesture_groups_mutations() {
    let mut h = UndoHistory::new();
    h.begin_gesture();
    h.push(m(0, 0, 0.0, 0.5));
    h.push(m(0, 0, 0.5, 1.0));
    h.end_gesture();
    assert_eq!(h.len(), 1);
    let group = h.undo().unwrap();
    assert_eq!(group.len(), 2);
}

#[test]
fn gesture_empty_does_not_commit() {
    let mut h = UndoHistory::new();
    h.begin_gesture();
    h.end_gesture();
    assert!(h.is_empty());
}

#[test]
fn nested_begin_gesture_is_noop() {
    let mut h = UndoHistory::new();
    h.begin_gesture();
    h.push(m(0, 0, 0.0, 1.0));
    h.begin_gesture();
    h.push(m(0, 0, 1.0, 2.0));
    h.end_gesture();
    assert_eq!(h.len(), 1);
    let group = h.undo().unwrap();
    assert_eq!(group.len(), 2);
}

#[test]
fn max_history_enforced() {
    let mut h = UndoHistory::new();
    for i in 0..MAX_HISTORY + 5 {
        h.push(m(0, 0, i as f32, (i + 1) as f32));
    }
    assert!(h.len() <= MAX_HISTORY);
}

#[test]
fn clear_resets_all() {
    let mut h = UndoHistory::new();
    h.push(m(0, 0, 0.0, 1.0));
    h.clear();
    assert!(h.is_empty());
    assert!(!h.can_undo());
    assert!(!h.can_redo());
}

#[test]
fn undo_empty_returns_none() {
    let mut h = UndoHistory::new();
    assert!(h.undo().is_none());
}

#[test]
fn redo_empty_returns_none() {
    let mut h = UndoHistory::new();
    assert!(h.redo().is_none());
}

#[test]
fn snapshots_go_back_and_forward() {
    let mut h: SnapshotHistory<u32> = SnapshotHistory::new();
    for i in 0..70 {
        h.stage(i);
        h.edited();
    }
    assert_eq!(h.undo(100), Some(69));
    assert_eq!(h.redo(69), Some(100));
    let mut steps = 0;
    while h.can_undo() {
        h.undo(0);
        steps += 1;
    }
    assert_eq!(steps, 64);
    h.clear();
    assert!(!h.can_redo());
}

// --- Synthesis tables ---

#[test]
fn operators_hold_their_settings() {
    let mut s = OperatorSettings::new();
    s.set_ratio(b(100.0));
    s.set_mod_index(b(-1.0));
    s.set_output_level(b(0.5));
    assert_eq!((f(s.ratio), f(s.mod_index), f(s.output_level)), (16.0, 0.0, 0.5));
    s.set_ratio(b(0.0));
    assert_eq!(f(s.ratio), 0.25);
}

#[test]
fn algorithms_route_as_drawn() {
    assert_eq!(Fm4Algorithm::default(), Serial);
    assert_eq!(Serial.modulators(0), vec![1]);
    assert_eq!(Serial.modulators(2), vec![3]);
    assert_eq!(Parallel2.modulators(1), vec![3, 2]);
    assert_eq!(Parallel3.modulators(0), vec![3, 2, 1]);
    assert_eq!(DoubleStack.modulators(0), vec![2, 1]);
    assert_eq!(DoubleStack.modulators(1), vec![3]);
    assert_eq!(DualSerial.carrier_divisor(), 2);
    for op in 0..4 {
        assert!(Additive.heard(op) && Additive.modulators(op).is_empty());
        assert_eq!(Serial.heard(op), op == 0);
    }
    assert_eq!((Additive.heard_count(), Serial.heard_count()), (4, 1));
}

#[test]
fn wavetable_points_lie_in_their_level() {
    assert!(frames_fit(1) && frames_fit(8) && !frames_fit(0) && !frames_fit(9));
    for mip in 0..MIP_LEVELS {
        let half = WAVE_SIZE >> mip;
        assert_eq!(mip_size(mip), half);
        for i in 0..WAVE_SIZE {
            let src = i as f32 * half as f32 / WAVE_SIZE as f32;
            let p = upsample_point(mip, i);
            assert_eq!(p.lo, src as usize % half);
            assert_eq!(p.hi, (p.lo + 1) % half);
            assert_eq!(p.part as f32 / 256.0, src - src.floor());
        }
    }
    assert_eq!(downsample_pair(127), (254, 255));
    assert_eq!(read_pair(511), (255, 0));
    assert_eq!((next_frame(0, 4), next_frame(3, 4)), (1, 3));
}

#[test]
fn test_wavetable_mip_level_increases_with_frequency() {
    let level = |freq: f32| {
        let ratio = freq / 24000.0;
        mip_level(b(freq), b(ratio), (-ratio.log2()) as usize)
    };
    let (low, high) = (level(100.0), level(10000.0));
    assert!(low > high, "Low freq mip={low} should be greater than high freq mip={high}");
    assert_eq!(level(0.0), MIP_LEVELS - 1);
    assert_eq!(level(30000.0), MIP_LEVELS - 1);
}

// --- Studio ---

fn idle() -> FrameInput {
    FrameInput {
        running: false,
        playing: false,
        output_peak: 0,
        web: false,
        widget_focused: false,
        space: false,
        generator: false,
        has_file: false,
        command: false,
        shift: false,
        key_z: false,
        key_y: false,
        pointer_pressed: false,
    }
}

#[test]
fn frames_heed_the_keyboard() {
    assert_eq!(plan_frame(idle()).repaint_ms, 250);
    assert_eq!(plan_frame(FrameInput { running: true, ..idle() }).repaint_ms, 16);
    assert_eq!(plan_frame(FrameInput { playing: true, web: true, ..idle() }).repaint_ms, 33);
    let z = FrameInput { command: true, key_z: true, ..idle() };
    assert_eq!(plan_frame(z).history, HistoryStep::Undo);
    assert_eq!(plan_frame(FrameInput { shift: true, ..z }).history, HistoryStep::Redo);
    assert_eq!(plan_frame(FrameInput { widget_focused: true, ..z }).history, HistoryStep::Stay);
    let y = FrameInput { command: true, key_y: true, ..idle() };
    assert_eq!(plan_frame(y).history, HistoryStep::Redo);
    let space = FrameInput { space: true, ..idle() };
    assert!(!plan_frame(space).toggle_playback);
    assert!(plan_frame(FrameInput { has_file: true, ..space }).toggle_playback);
    assert!(plan_frame(FrameInput { pointer_pressed: true, ..idle() }).stage);
}

#[test]
fn panel_area_follows_the_selection() {
    assert_eq!(panel_area(true, None, 1), PanelArea::Effect(0));
    assert_eq!(panel_area(false, Some(2), 3), PanelArea::Effect(2));
    assert_eq!(panel_area(false, Some(3), 3), PanelArea::Empty);
    assert_eq!(panel_area(false, None, 3), PanelArea::QuickReference);
}

#[test]
fn status_bar_says_how_it_is() {
    let mut h = CpuHistory::new();
    for i in 0..70 {
        h.push(b(i as f32));
    }
    assert_eq!(h.readings().len(), 60);
    assert_eq!(f(h.readings()[0]), 10.0);
    assert_eq!(cpu_color(b(101.0)), LevelColor::Red);
    assert_eq!(cpu_color(b(81.0)), LevelColor::Yellow);
    assert_eq!(cpu_color(b(80.0)), LevelColor::Green);
    assert_eq!(daisy_badge(3), (true, "Daisy: 3/3".to_string()));
    assert_eq!(daisy_badge(4), (false, "Daisy: 4/3".to_string()));
    assert_eq!(error_label(0), None);
    assert_eq!(error_label(7).unwrap(), "errors: 7");
    assert_eq!(clip_light(false, b(1.2), false), (true, true));
    assert_eq!(clip_light(true, b(0.1), true), (false, true));
    assert_eq!(clip_light(false, b(1.0), false), (false, false));
}

#[test]
fn compiles_are_flashed_or_explained() {
    let mut s = CompileStatus::new();
    s.record(Err(CompileError::NoInput));
    assert_eq!(s.error.as_deref(), Some("graph has no Input node"));
    s.record(Ok(()));
    assert_eq!((s.error.is_none(), s.flash_frames), (true, 90));
    assert_eq!(PatchBuildError::BadEndpoint.message(), "edge references a non-existent node");
}

#[test]
fn buffer_sizes_snap_to_hardware() {
    assert_eq!(nearest_buffer_size(0), 64);
    assert_eq!(nearest_buffer_size(96), 64);
    assert_eq!(nearest_buffer_size(97), 128);
    assert_eq!(nearest_buffer_size(1024), 1024);
    assert_eq!(nearest_buffer_size(usize::MAX), 4096);
    assert_eq!(preset_label(0, "5.3"), "Low Latency (256 samples, 5.3ms)");
    assert_eq!(preset_label(4, "85.3"), "Maximum (4096 samples, 85.3ms)");
}

#[test]
fn panels_are_kept_until_they_change() {
    assert_eq!(panel_rows(None), 2);
    assert_eq!(panel_rows(Some(0)), 1);
    assert_eq!(panel_rows(Some(11)), 3);
    let first = refresh_panel(None, 0, "delay");
    assert_eq!(first.as_ref().unwrap().panel.name(), "Delay");
    let kept = refresh_panel(first, 0, "delay");
    assert_eq!(kept.as_ref().unwrap().slot, 0);
    let moved = refresh_panel(kept, 1, "looper");
    assert_eq!(moved.as_ref().unwrap().panel.short_name(), "Loop");
    assert!(refresh_panel(moved, 1, "").is_none());
    assert_eq!((bypass_label(true), bypass_label(false)), ("BYPASSED", "ACTIVE"));
    assert_eq!((lock_label(true), lock_label(false)), ("LOCKED", "LOCK"));
}

#[test]
fn export_menu_explains_itself() {
    let ok = Patch::linear_chain("ok".to_string(), vec![PatchNode::new(1, bs(&[8.0]))]);
    let share = CpuShare { over_warning: false, percent: 5 };
    let menu = export_menu(&ok, share);
    assert!(menu.pedal_ok);
    assert_eq!(menu.headline, "✓ fits pedal budget");
    let bad = Patch::linear_chain("bad".to_string(), vec![PatchNode::new(9, vec![])]);
    let menu = export_menu(&bad, share);
    assert!(!menu.pedal_ok);
    assert!(menu.lines.iter().any(|l| l.severity == Severity::Error));
    assert!(menu.lines.iter().all(|l| l.message.starts_with("· ")));
    assert!(pedal_binary(&ok).is_ok());
    let mut torn = ok.clone();
    torn.nodes[0].params_b = vec![];
    assert_eq!(pedal_binary(&torn).unwrap_err(), "A/B snapshot length mismatch");
    assert_eq!(
        export_message(ExportKind::Json, Ok("/p")),
        Ok("Saved patch JSON → /p".to_string())
    );
    assert_eq!(
        export_message(ExportKind::Flash, Ok("/p")),
        Ok("Flashed patch to pedal slot 0".to_string())
    );
    assert_eq!(
        export_message(ExportKind::Clap, Err("no home")),
        Err("CLAP export failed: no home".to_string())
    );
}

#[test]
fn screenshots_wait_for_the_layout() {
    let mut s = ShotState::new();
    for _ in 0..11 {
        assert_eq!(s.step(false), ShotStep::Wait);
    }
    assert_eq!(s.step(false), ShotStep::Request);
    assert_eq!(s.step(false), ShotStep::Wait);
    assert_eq!(s.step(true), ShotStep::SaveAndQuit);
}

// --- Macro desk ---

#[test]
fn desk_turns_knobs_and_edits_mappings() {
    let mut desk = MacroDesk::new();
    let drive = MacroTarget::Slot { slot: 0, param: 3 };
    let morph = MacroTarget::Global(GlobalParam::MorphPosition);
    let other = MacroTarget::Slot { slot: 1, param: 0 };
    for (macro_index, target) in [(1, drive), (1, morph), (2, other)] {
        desk.map.add_mapping(MacroMapping {
            macro_index,
            target,
            min: b(0.0),
            max: b(2.0),
            curve: MorphCurve::Linear,
        });
    }
    let resp = MacroPanelResponse { changed: Some(1), edit_requested: Some(1) };
    let mut positions = [0; 6];
    positions[1] = b(7.0);
    assert_eq!(desk.take_row(resp, &positions), Some(1));
    assert_eq!(desk.map.position(1), b(1.0));
    assert_eq!(
        desk.apply_macro(1, &bs(&[2.0, 2.0])),
        vec![RigWrite::Param { slot: 0, param: 3, value: b(2.0) }, RigWrite::Morph(b(1.0))]
    );
    assert_eq!(apply_target(MacroTarget::Global(GlobalParam::MorphSpeed), b(1.0)), None);
    let rows = desk.editor_rows();
    assert_eq!(rows.len(), 2);
    let mut edits = EditorEdits::new();
    edits.note_row(&rows[0], false, true, b(0.5), b(1.5), true);
    edits.note_row(&rows[1], true, false, 0, 0, false);
    assert_eq!(desk.take_edits(edits), Some(1));
    assert_eq!(desk.map.mapping_count_for(1), 1);
    assert_eq!((f(desk.map.mappings()[0].min), f(desk.map.mappings()[0].max)), (1.5, 0.5));
    let mut last = EditorEdits::new();
    last.clear_all = true;
    last.open = false;
    assert_eq!(desk.take_edits(last), None);
    assert_eq!((desk.map.mapping_count(), desk.editor), (1, None));
}

#[test]
fn targets_are_described() {
    let slot = MacroTarget::Slot { slot: 0, param: 0 };
    assert_eq!(describe_target(slot, Some("Distortion"), Some("Drive")), "Distortion · Drive");
    assert_eq!(describe_target(slot, None, None), "? · ?");
    let gain = MacroTarget::Global(GlobalParam::InputGain);
    assert_eq!(describe_target(gain, None, None), "InputGain");
    assert_eq!(editor_title(5), "Macro K6 mapping");
}
