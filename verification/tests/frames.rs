use hardwave_wettboi::bits::{Bits32, Bits64};
use hardwave_wettboi::dsp::lfo::Shape;
use hardwave_wettboi::dsp::reverb::ReverbType;
use hardwave_wettboi::editor::snapshot_params;
use hardwave_wettboi::engine::{
    has_sidechain, key_pair, modulate, set_up, DelayTimes, Engine, Moved, Peaks,
};
use hardwave_wettboi::params::{LfoTarget, NoteDiv, ScSource, WettBoiParams};

fn bits(x: f32) -> Bits32 {
    Bits32 { bits: x.to_bits() }
}

fn pair(l: f32, r: f32) -> (Bits32, Bits32) {
    (bits(l), bits(r))
}

const SAMPLES: [f32; 26] = [
    0.0,
    -0.0,
    1.0,
    -1.0,
    0.5,
    -0.5,
    1.5,
    2.0,
    10.0,
    -10.0,
    10.000_001,
    1.0e-45,
    -1.0e-45,
    1.0e-38,
    1.175_494_4e-38,
    3.0e38,
    -3.0e38,
    f32::MAX,
    f32::MIN,
    f32::INFINITY,
    f32::NEG_INFINITY,
    f32::NAN,
    0.1,
    16_777_216.0,
    4_294_967_296.0,
    1.844_674_4e19,
];

#[test]
fn bits_are_in_the_order_of_their_numbers() {
    for a in SAMPLES {
        assert_eq!(bits(a).finite(), a.is_finite(), "{a}");
        assert_eq!(bits(a).nan(), a.is_nan(), "{a}");
        assert_eq!(bits(a).abs(), bits(a.abs()), "{a}");
        for b in SAMPLES {
            assert_eq!(bits(a).below(bits(b)), a < b, "{a} {b}");
            let (x, y) = (a as f64, b as f64);
            assert_eq!(
                Bits64 { bits: x.to_bits() }.below(Bits64 { bits: y.to_bits() }),
                x < y
            );
        }
    }
}

#[test]
fn bits_are_clamped_like_their_numbers() {
    for a in SAMPLES {
        assert_eq!(bits(a).clamp(bits(-10.0), bits(10.0)), bits(a.clamp(-10.0, 10.0)));
        assert_eq!(bits(a).max(bits(0.25)), bits(a.max(0.25)), "{a}");
        assert_eq!(bits(0.25).max(bits(a)), bits(0.25f32.max(a)), "{a}");
    }
}

#[test]
fn bits_have_the_whole_parts_of_their_numbers() {
    for a in SAMPLES {
        assert_eq!(bits(a).whole(), a as u64, "{a}");
    }
    for e in 0..130 {
        let x = 1.999_999_9f32 * 2.0f32.powi(e - 1);
        assert_eq!(bits(x).whole(), x as u64, "{x}");
    }
}

#[test]
fn a_plug_in_starts_at_rest() {
    let e = Engine::new();
    assert_eq!(e.bpm, bits(150.0));
    assert_eq!(e.duck_depth, bits(0.0));
    assert_eq!(e.update_counter, 0);
    assert!(!e.nan_detected);
}

#[test]
fn the_tempo_of_the_host_is_followed() {
    let mut e = Engine::new();
    e.set_tempo(None);
    assert_eq!(e.bpm, bits(150.0));
    e.set_tempo(Some(bits(174.0)));
    assert_eq!(e.bpm, bits(174.0));
}

#[test]
fn a_short_frame_is_not_even_measured() {
    let mut e = Engine::new();
    assert!(!e.enter(1, pair(1.0, 1.0), false));
    assert_eq!(e.peaks.input_l, bits(0.0));
    assert!(!e.enter(2, pair(-0.5, 0.25), true));
    assert_eq!(e.peaks.input_l, bits(0.5));
    assert_eq!(e.peaks.input_r, bits(0.25));
    assert!(e.enter(2, pair(0.1, f32::NAN), false));
    assert_eq!(e.peaks.input_l, bits(0.5));
    assert_eq!(e.peaks.input_r, bits(0.25));
}

#[test]
fn nothing_but_sound_leaves_the_plug_in() {
    for l in SAMPLES {
        for r in SAMPLES {
            let mut e = Engine::new();
            let dry = pair(0.25, -0.75);
            let out = e.leave(dry, pair(l, r));
            if l.is_finite() && r.is_finite() {
                assert_eq!(out, pair(l.clamp(-10.0, 10.0), r.clamp(-10.0, 10.0)));
                assert!(!e.nan_detected);
            } else {
                assert_eq!(out, dry);
                assert!(e.nan_detected);
            }
            assert_eq!(e.peaks.output_l, out.0.abs());
            assert_eq!(e.peaks.output_r, out.1.abs());
        }
    }
}

#[test]
fn a_bad_frame_resets_the_effects_once() {
    let mut e = Engine::new();
    e.observe(bits(0.5), Some(bits(0.25)));
    assert!(!e.end_buffer());
    assert_eq!(e.duck_depth, bits(0.5));
    e.leave(pair(0.0, 0.0), pair(f32::NAN, 0.0));
    e.leave(pair(0.0, 0.0), pair(0.0, 0.0));
    assert!(e.end_buffer());
    assert_eq!(e.duck_depth, bits(0.0));
    assert_eq!(e.lfo_value, bits(0.0));
    assert!(!e.end_buffer());
}

#[test]
fn a_packet_goes_out_with_every_fourth_buffer() {
    let mut e = Engine::new();
    let sent: Vec<bool> = (0..12).map(|_| e.count()).collect();
    for (i, s) in sent.iter().enumerate() {
        assert_eq!(*s, i % 4 == 3);
    }
}

#[test]
fn a_packet_shows_what_was_measured() {
    let mut e = Engine::new();
    e.observe(bits(0.5), Some(bits(-0.25)));
    e.enter(2, pair(0.1, 0.2), false);
    e.leave(pair(0.1, 0.2), pair(0.3, 0.4));
    let drawn_up = snapshot_params(
        &WettBoiParams::default(),
        bits(150.0),
        bits(0.0),
        bits(0.0),
        bits(0.0),
    );
    let packet = e.complete(drawn_up.clone(), bits(0.9), bits(0.125));
    assert_eq!(packet.sc_duck_depth, bits(0.5));
    assert_eq!(packet.lfo_value, bits(-0.25));
    assert_eq!(packet.sc_key_level, bits(0.9));
    assert_eq!(packet.sc_threshold_lin, bits(0.125));
    assert_eq!(packet.input_peak_l, bits(0.1));
    assert_eq!(packet.input_peak_r, bits(0.2));
    assert_eq!(packet.output_peak_l, bits(0.3));
    assert_eq!(packet.output_peak_r, bits(0.4));
    assert_eq!(packet.mix, drawn_up.mix);
    assert_eq!(packet.rev_type, drawn_up.rev_type);
}

#[test]
fn an_lfo_that_is_off_does_nothing() {
    let mut e = Engine::new();
    assert_eq!(e.observe(bits(0.0), Some(bits(0.7))), bits(0.7));
    assert_eq!(e.lfo_value, bits(0.7));
    assert_eq!(e.observe(bits(0.0), None), bits(0.0));
    assert_eq!(e.lfo_value, bits(0.0));
}

#[test]
fn a_reset_clears_the_meters() {
    let mut e = Engine::new();
    e.enter(2, pair(1.0, 1.0), false);
    e.leave(pair(1.0, 1.0), pair(1.0, 1.0));
    let faded = Peaks {
        input_l: bits(0.9),
        ..e.peaks
    };
    e.fade(faded);
    assert_eq!(e.peaks.input_l, bits(0.9));
    e.reset();
    assert_eq!(e.peaks.input_l, bits(0.0));
    assert_eq!(e.peaks.output_r, bits(0.0));
    e.nan_detected = true;
    e.initialize();
    assert!(!e.nan_detected);
}

#[test]
fn the_key_is_the_sidechain_only_where_there_is_one() {
    assert!(!has_sidechain(0, 2));
    assert!(!has_sidechain(1, 1));
    assert!(has_sidechain(1, 2));
    let dry = pair(0.1, 0.2);
    let side = (Some(bits(0.5)), None);
    assert_eq!(key_pair(ScSource::Sidechain, true, side, dry), pair(0.5, 0.0));
    assert_eq!(key_pair(ScSource::Sidechain, false, side, dry), dry);
    assert_eq!(key_pair(ScSource::Internal, true, side, dry), dry);
}

#[test]
fn the_lfo_moves_its_target_and_nothing_else() {
    let moved = Moved {
        rev_wet: bits(1.4),
        dly_wet: bits(-0.2),
        feedback: bits(120.0),
        lowpass: bits(500.0),
    };
    let (rev, dly) = pair(0.3, 0.6);
    let m = modulate(LfoTarget::RevWet, rev, dly, &moved);
    assert_eq!((m.rev_wet, m.dly_wet, m.feedback, m.lowpass), (bits(1.0), dly, None, None));
    let m = modulate(LfoTarget::DlyWet, rev, dly, &moved);
    assert_eq!((m.rev_wet, m.dly_wet, m.feedback, m.lowpass), (rev, bits(0.0), None, None));
    let m = modulate(LfoTarget::DlyFeedback, rev, dly, &moved);
    assert_eq!((m.rev_wet, m.dly_wet, m.feedback, m.lowpass), (rev, dly, Some(bits(95.0)), None));
    let m = modulate(LfoTarget::Filter, rev, dly, &moved);
    assert_eq!((m.rev_wet, m.dly_wet, m.feedback, m.lowpass), (rev, dly, None, Some(bits(1000.0))));
    let high = Moved {
        lowpass: bits(30000.0),
        ..moved
    };
    let m = modulate(LfoTarget::Filter, rev, dly, &high);
    assert_eq!(m.lowpass, Some(bits(20000.0)));
}

#[test]
fn the_effects_are_set_up_as_the_controls_say() {
    let mut p = WettBoiParams::default();
    p.dly_sync = true;
    p.dly_note_l = NoteDiv::Eighth;
    p.dly_note_r = NoteDiv::DottedEighth;
    let s = set_up(&p);
    assert_eq!(s.reverb_type, ReverbType::Room);
    assert_eq!(s.shape, Shape::Sine);
    assert_eq!(
        s.times,
        DelayTimes::Beats {
            l: bits(0.5),
            r: bits(0.75)
        }
    );
    p.dly_sync = false;
    p.dly_ping_pong = false;
    p.rev_freeze = true;
    let s = set_up(&p);
    assert!(s.freeze && !s.ping_pong);
    assert_eq!(
        s.times,
        DelayTimes::Millis {
            l: p.dly_time_l,
            r: p.dly_time_r
        }
    );
}
