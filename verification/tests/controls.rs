use hardwave_wettboi::bits::Bits32;
use hardwave_wettboi::params::{
    LfoShape, LfoTarget, NoteDiv, ParamId, ParamKind, ReverbType, RoutingMode, ScSource,
    WettBoiParams, ALL_PARAMS,
};

fn bits(x: f32) -> Bits32 {
    Bits32 { bits: x.to_bits() }
}

/// (id, name, default, min, max, skew, unit, printed as a whole number)
type Row = (
    &'static str,
    &'static str,
    f32,
    f32,
    f32,
    Option<f32>,
    &'static str,
    bool,
);

const RANGES: [Row; 25] = [
    ("rev_predelay", "Pre-Delay", 18.0, 0.0, 200.0, None, " ms", false),
    ("rev_size", "Size", 65.0, 0.0, 100.0, None, " %", true),
    ("rev_decay", "Decay", 2.4, 0.1, 20.0, Some(-2.0), " s", false),
    ("rev_damp", "Damp", 40.0, 0.0, 100.0, None, " %", true),
    ("rev_width", "Width", 120.0, 0.0, 200.0, None, " %", true),
    ("rev_wet", "Rev Wet", 70.0, 0.0, 100.0, None, " %", true),
    ("rev_eq_hp", "Rev EQ HP", 20.0, 20.0, 2000.0, Some(-1.5), " Hz", false),
    ("rev_eq_lp", "Rev EQ LP", 18000.0, 1000.0, 20000.0, Some(-1.0), " Hz", false),
    ("sc_threshold", "SC Threshold", -18.0, -60.0, 0.0, None, " dB", false),
    ("sc_attack", "SC Attack", 2.5, 0.1, 50.0, Some(-2.0), " ms", false),
    ("sc_hold", "SC Hold", 60.0, 0.0, 500.0, None, " ms", false),
    ("sc_release", "SC Release", 280.0, 10.0, 2000.0, Some(-1.5), " ms", false),
    ("lfo_rate", "LFO Rate", 2.0, 0.01, 20.0, Some(-2.0), " Hz", false),
    ("lfo_depth", "LFO Depth", 50.0, 0.0, 100.0, None, " %", true),
    ("lfo_phase", "LFO Phase", 0.0, 0.0, 360.0, None, "°", true),
    ("dly_time_l", "Delay L", 400.0, 1.0, 2000.0, Some(-1.5), " ms", false),
    ("dly_time_r", "Delay R", 600.0, 1.0, 2000.0, Some(-1.5), " ms", false),
    ("dly_feedback", "Feedback", 35.0, 0.0, 95.0, None, " %", true),
    ("dly_hp", "Delay HP", 120.0, 20.0, 2000.0, Some(-1.5), " Hz", false),
    ("dly_lp", "Delay LP", 8000.0, 1000.0, 20000.0, Some(-1.0), " Hz", false),
    ("dly_wet", "Dly Wet", 55.0, 0.0, 100.0, None, " %", true),
    ("dly_mod_rate", "Mod Rate", 0.5, 0.01, 10.0, Some(-2.0), " Hz", false),
    ("dly_mod_depth", "Mod Depth", 0.0, 0.0, 100.0, None, " %", true),
    ("dly_saturation", "Saturation", 0.0, 0.0, 100.0, None, " %", true),
    ("mix", "Mix", 75.0, 0.0, 100.0, None, " %", true),
];

#[test]
fn the_controls_have_their_ranges() {
    for (id, name, default, min, max, skew, unit, rounded) in RANGES {
        let info = ParamId::find(id).unwrap().info();
        assert_eq!((info.id, info.name), (id, name));
        match info.kind {
            ParamKind::Range(r) => {
                assert_eq!(r.default, bits(default), "{id}");
                assert_eq!(r.min, bits(min), "{id}");
                assert_eq!(r.max, bits(max), "{id}");
                assert_eq!(r.skew, skew.map(bits), "{id}");
                assert_eq!((r.unit, r.rounded), (unit, rounded), "{id}");
            }
            _ => panic!("{id} has no range"),
        }
    }
    let ranges = ALL_PARAMS
        .iter()
        .filter(|p| matches!(p.info().kind, ParamKind::Range(_)))
        .count();
    assert_eq!(ranges, RANGES.len());
}

#[test]
fn the_controls_start_where_they_should() {
    let p = WettBoiParams::default();
    assert!(p.rev_enabled && !p.rev_freeze && p.lfo_enabled);
    assert!(p.dly_enabled && p.dly_sync && p.dly_ping_pong && !p.bypass);
    assert_eq!(p.rev_type, ReverbType::Room);
    assert_eq!(p.sc_source, ScSource::Sidechain);
    assert_eq!(p.lfo_shape, LfoShape::Sine);
    assert_eq!(p.lfo_target, LfoTarget::RevWet);
    assert_eq!(p.dly_note_l, NoteDiv::Eighth);
    assert_eq!(p.dly_note_r, NoteDiv::DottedEighth);
    assert_eq!(p.routing, RoutingMode::Parallel);
    assert_eq!(p.rev_predelay, bits(18.0));
    assert_eq!(p.rev_decay, bits(2.4));
    assert_eq!(p.sc_threshold, bits(-18.0));
    assert_eq!(p.lfo_rate, bits(2.0));
    assert_eq!(p.dly_time_l, bits(400.0));
    assert_eq!(p.dly_time_r, bits(600.0));
    assert_eq!(p.mix, bits(75.0));
}

#[test]
fn the_switches_and_choices_are_named() {
    for (id, name) in [
        ("rev_enabled", "Reverb On"),
        ("rev_type", "Reverb Type"),
        ("rev_freeze", "Freeze"),
        ("sc_source", "SC Source"),
        ("lfo_enabled", "LFO On"),
        ("lfo_shape", "LFO Shape"),
        ("lfo_target", "LFO Target"),
        ("dly_enabled", "Delay On"),
        ("dly_sync", "Delay Sync"),
        ("dly_note_l", "Note L"),
        ("dly_note_r", "Note R"),
        ("dly_ping_pong", "Ping Pong"),
        ("bypass", "Bypass"),
        ("routing", "Routing"),
    ] {
        assert_eq!(ParamId::find(id).unwrap().info().name, name);
    }
}
