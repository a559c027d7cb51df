//! The effects with their arithmetic filled in, so that what is decided can be
//! heard.

use std::f32::consts::PI;

use hardwave_wettboi::bits::{Bits32, Bits64};
use hardwave_wettboi::dsp::biquad::{BiquadTuning, FilterType};
use hardwave_wettboi::dsp::delay::{StereoDelay, Tap, MAX_DELAY_SAMPLES};
use hardwave_wettboi::dsp::envelope::{AdsrEnvelope, NextLevel, Stage as EnvelopeStage};
use hardwave_wettboi::dsp::lfo::{fold, shape_of, Lfo, Piece, Shape};
use hardwave_wettboi::dsp::mix::wet_share;
use hardwave_wettboi::dsp::reverb::{
    reverb_type_of, to_length, Lengths, Predelay, Reverb, ReverbMode, ReverbType, NUM_ALLPASS,
    NUM_COMBS,
};
use hardwave_wettboi::dsp::ring::Ring;
use hardwave_wettboi::dsp::sidechain::{DuckStage, NextLevels, SidechainDetector};
use hardwave_wettboi::params::{LfoShape, ReverbType as ReverbParam, RoutingMode};
use hardwave_wettboi::routing::{route_wet, Effect, Feed};

const SR: f32 = 48_000.0;

fn bits(x: f32) -> Bits32 {
    Bits32 { bits: x.to_bits() }
}

fn num(b: Bits32) -> f32 {
    f32::from_bits(b.bits)
}

fn wide(x: f64) -> Bits64 {
    Bits64 { bits: x.to_bits() }
}

// ─── Mix ─────────────────────────────────────────────────────────────────────

fn mix_dry_wet(dry: f32, wet: f32, mix: f32) -> f32 {
    let m = num(wet_share(bits(mix)));
    dry * (1.0 - m) + wet * m
}

fn close(a: f32, b: f32) -> bool {
    (a - b).abs() < 1.0e-5
}

#[test]
fn mix_at_zero_is_the_dry_signal_untouched() {
    assert!(close(mix_dry_wet(0.8, 0.5, 0.0), 0.8));
}

#[test]
fn mix_at_one_is_the_wet_signal_only() {
    assert!(close(mix_dry_wet(0.8, 0.5, 1.0), 0.5));
}

#[test]
fn mix_never_exceeds_the_louder_of_the_two() {
    for m in [0.0, 0.25, 0.5, 0.75, 1.0] {
        let out = mix_dry_wet(0.8, 0.5, m);
        assert!(
            out <= 0.8 + 1.0e-6,
            "mix {m} produced {out}, louder than the dry input"
        );
    }
}

#[test]
fn turning_mix_up_on_silence_stays_silent() {
    assert!(close(mix_dry_wet(0.0, 0.0, 1.0), 0.0));
}

#[test]
fn mix_is_clamped_so_automation_cannot_overshoot() {
    assert!(close(mix_dry_wet(1.0, 0.0, -0.5), 1.0));
    assert!(close(mix_dry_wet(1.0, 0.0, 1.5), 0.0));
}

#[test]
fn mix_is_a_crossfade_not_a_sum() {
    // Fully dry and fully wet are exactly that.
    assert_eq!(mix_dry_wet(1.0, 0.25, 0.0), 1.0);
    assert_eq!(mix_dry_wet(1.0, 0.25, 1.0), 0.25);
    // Halfway is halfway.
    assert!((mix_dry_wet(1.0, 0.0, 0.5) - 0.5).abs() < 1e-6);
}

#[test]
fn turning_mix_up_cannot_make_it_louder_than_the_loudest_side() {
    for m in [0.0, 0.25, 0.5, 0.75, 1.0] {
        let out = mix_dry_wet(1.0, 1.0, m);
        assert!(out <= 1.0 + 1e-6, "mix {m} gave {out}, above both inputs");
    }
    let wet_heavy = mix_dry_wet(1.0, 2.0, 0.75);
    assert!(
        wet_heavy <= 2.0,
        "output {wet_heavy} exceeded the wet it came from"
    );
}

#[test]
fn turning_mix_up_moves_from_dry_to_wet() {
    for (dry, wet) in [(-0.5f32, 0.75f32), (0.75, -0.5), (0.25, 0.25)] {
        let mut last = dry;
        for i in -2..=12 {
            let x = mix_dry_wet(dry, wet, i as f32 / 10.0);
            assert!((wet - x).abs() <= (wet - last).abs() + 1e-6);
            last = x;
        }
        assert_eq!(last, wet);
    }
}

#[test]
fn mix_outside_the_range_is_clamped_not_extrapolated() {
    assert_eq!(mix_dry_wet(1.0, 0.0, -1.0), 1.0);
    assert_eq!(mix_dry_wet(1.0, 0.0, 2.0), 0.0);
}

#[test]
fn the_mix_control_trades_dry_for_wet_instead_of_adding() {
    let dry = 1.0;
    let wet_sig = 1.0;
    let at_0 = mix_dry_wet(dry, wet_sig, 0.0);
    let at_half = mix_dry_wet(dry, wet_sig, 0.5);
    let at_1 = mix_dry_wet(dry, wet_sig, 1.0);
    assert!(
        (at_0 - 1.0).abs() < 1e-6,
        "mix at 0 should be the dry signal"
    );
    assert!(
        at_half <= 1.0 + 1e-6,
        "mix at halfway got louder than either side: {at_half}"
    );
    assert!(
        (at_1 - 1.0).abs() < 1e-6,
        "mix at 1 should be the wet signal"
    );
}

// ─── Routing ─────────────────────────────────────────────────────────────────

/// A reverb that returns its input on both channels, and a delay whose tap is
/// its input, so that any level change is the routing's doing.
fn wet(routing: RoutingMode, rev_on: bool, dly_on: bool, rev_wet: f32, dly_wet: f32) -> (f32, f32) {
    let dry = (1.0f32, 1.0f32);
    let mut first = dry;
    let mut sum = (0.0f32, 0.0f32);
    let route = route_wet(routing, rev_on, dly_on);
    for (i, stage) in route.first.iter().chain(route.second.iter()).enumerate() {
        let feed = match stage.feed {
            Feed::Dry => dry,
            Feed::First => first,
        };
        let (out, level) = match stage.effect {
            Effect::Reverb => {
                let mono = (feed.0 + feed.1) * 0.5;
                ((mono, mono), rev_wet)
            }
            Effect::Delay => (feed, dly_wet),
        };
        let added = (out.0 * level, out.1 * level);
        if i == 0 {
            first = added;
        }
        sum = (sum.0 + added.0, sum.1 + added.1);
    }
    sum
}

#[test]
fn reverb_alone_is_the_same_level_in_every_mode() {
    let p = wet(RoutingMode::Parallel, true, false, 1.0, 0.0).0;
    let rd = wet(RoutingMode::ReverbToDelay, true, false, 1.0, 0.0).0;
    let dr = wet(RoutingMode::DelayToReverb, true, false, 1.0, 0.0).0;
    println!("reverb only: parallel {p:.3}, rev->dly {rd:.3}, dly->rev {dr:.3}");
    assert!(
        (p - rd).abs() < 1e-6,
        "rev->dly lost the reverb: {p} vs {rd}"
    );
    assert!(
        (p - dr).abs() < 1e-6,
        "dly->rev lost the reverb: {p} vs {dr}"
    );
}

#[test]
fn the_first_effect_in_a_serial_chain_is_still_audible() {
    let (l, _) = wet(RoutingMode::ReverbToDelay, true, true, 1.0, 0.0);
    println!("rev->dly with dly_wet at 0: {l:.3}");
    assert!(l > 0.9, "the reverb vanished into the delay stage: got {l}");

    let (l2, _) = wet(RoutingMode::DelayToReverb, true, true, 0.0, 1.0);
    println!("dly->rev with rev_wet at 0: {l2:.3}");
    assert!(
        l2 > 0.9,
        "the delay vanished into the reverb stage: got {l2}"
    );
}

#[test]
fn a_wet_control_is_not_applied_twice() {
    let (l, _) = wet(RoutingMode::ReverbToDelay, true, true, 0.5, 0.0);
    println!("rev at 50%, dly at 0%: {l:.3}, expected 0.500");
    assert!(
        (l - 0.5).abs() < 1e-6,
        "rev_wet was applied more than once: {l}"
    );
}

#[test]
fn parallel_is_not_louder_than_serial_for_the_same_settings() {
    let p = wet(RoutingMode::Parallel, true, true, 0.5, 0.5).0;
    let rd = wet(RoutingMode::ReverbToDelay, true, true, 0.5, 0.5).0;
    let dr = wet(RoutingMode::DelayToReverb, true, true, 0.5, 0.5).0;
    println!("both at 50%: parallel {p:.3}, rev->dly {rd:.3}, dly->rev {dr:.3}");
    assert!(p <= rd * 1.5 + 1e-6, "parallel {p} dwarfs rev->dly {rd}");
    assert!(p <= dr * 1.5 + 1e-6, "parallel {p} dwarfs dly->rev {dr}");
}

#[test]
fn a_disabled_effect_contributes_nothing_in_parallel() {
    let (l, r) = wet(RoutingMode::Parallel, false, false, 1.0, 1.0);
    println!("both off in parallel: {l:.3}, {r:.3}");
    assert_eq!((l, r), (0.0, 0.0), "a disabled effect still made sound");
}

#[test]
fn the_chain_runs_in_the_order_of_its_name() {
    let order = |routing| -> Vec<(Effect, Feed)> {
        let route = route_wet(routing, true, true);
        route
            .first
            .iter()
            .chain(route.second.iter())
            .map(|s| (s.effect, s.feed))
            .collect()
    };
    assert_eq!(
        order(RoutingMode::Parallel),
        [(Effect::Reverb, Feed::Dry), (Effect::Delay, Feed::Dry)]
    );
    assert_eq!(
        order(RoutingMode::ReverbToDelay),
        [(Effect::Reverb, Feed::Dry), (Effect::Delay, Feed::First)]
    );
    assert_eq!(
        order(RoutingMode::DelayToReverb),
        [(Effect::Delay, Feed::Dry), (Effect::Reverb, Feed::First)]
    );
    // The second effect of a chain whose first one is off is fed dry.
    let alone = route_wet(RoutingMode::ReverbToDelay, false, true);
    let first = alone.first.unwrap();
    assert_eq!((first.effect, first.feed), (Effect::Delay, Feed::Dry));
    assert_eq!(alone.second, None);
}

// ─── Delay ───────────────────────────────────────────────────────────────────

#[derive(Clone, Copy, Default)]
struct Filter {
    prev_input: f32,
    hp_state: f32,
    lp_state: f32,
}

impl Filter {
    fn process(&mut self, input: f32, hp_freq: f32, lp_freq: f32) -> f32 {
        let hp_rc = 1.0 / (2.0 * PI * hp_freq.max(1.0));
        let hp_dt = 1.0 / SR;
        let hp_alpha = hp_rc / (hp_rc + hp_dt);
        self.hp_state = hp_alpha * (self.hp_state + input - self.prev_input);
        self.prev_input = input;
        let lp_rc = 1.0 / (2.0 * PI * lp_freq.max(1.0));
        let lp_alpha = hp_dt / (lp_rc + hp_dt);
        self.lp_state += lp_alpha * (self.hp_state - self.lp_state);
        self.lp_state
    }
}

struct Delay {
    lines: StereoDelay,
    filter_l: Filter,
    filter_r: Filter,
}

fn interpolated(t: Tap) -> f32 {
    let frac = num(t.time) - t.whole as f32;
    num(t.sample) * (1.0 - frac) + num(t.before) * frac
}

impl Delay {
    fn new() -> Self {
        let mut lines = StereoDelay::new(bits(0.4 * SR), bits(0.6 * SR));
        lines.set_feedback(bits(0.0));
        lines.set_filter(bits(20.0), bits(20_000.0));
        lines.set_modulation(bits(0.5), bits(0.0));
        lines.set_saturation(bits(0.0));
        Delay {
            lines,
            filter_l: Filter::default(),
            filter_r: Filter::default(),
        }
    }

    fn set_time_ms(&mut self, l: f32, r: f32) {
        self.lines
            .set_times(bits(l / 1000.0 * SR), bits(r / 1000.0 * SR));
    }

    fn process(&mut self, in_l: f32, in_r: f32) -> (f32, f32) {
        let s = self.lines.settings();
        let (time_l, time_r) = self.lines.times();
        let (tap_l, tap_r) = self.lines.taps(time_l, time_r);
        let (read_l, read_r) = (interpolated(tap_l), interpolated(tap_r));
        let filt_l = self.filter_l.process(read_l, num(s.hp_freq), num(s.lp_freq));
        let filt_r = self.filter_r.process(read_r, num(s.hp_freq), num(s.lp_freq));
        let (back_l, back_r) = self.lines.feedback_into(bits(filt_l), bits(filt_r));
        let fb = num(s.feedback);
        self.lines.write(
            bits(in_l + num(back_l) * fb),
            bits(in_r + num(back_r) * fb),
        );
        (read_l, read_r)
    }
}

/// Index of the first sample after the impulse whose level is worth calling an echo.
fn first_echo(xs: &[f32]) -> Option<usize> {
    xs.iter()
        .enumerate()
        .skip(2)
        .find(|(_, v)| v.abs() > 0.05)
        .map(|(i, _)| i)
}

fn run(time_l_ms: f32, time_r_ms: f32, ping_pong: bool, n: usize) -> (Vec<f32>, Vec<f32>) {
    let mut d = Delay::new();
    d.set_time_ms(time_l_ms, time_r_ms);
    d.lines.set_ping_pong(ping_pong);
    let mut out_l = Vec::with_capacity(n);
    let mut out_r = Vec::with_capacity(n);
    for i in 0..n {
        let x = if i == 0 { 1.0 } else { 0.0 };
        let (l, r) = d.process(x, x);
        out_l.push(l);
        out_r.push(r);
    }
    (out_l, out_r)
}

#[test]
fn each_channel_echoes_at_its_own_time() {
    let (l, r) = run(100.0, 200.0, false, 15_000);
    let el = first_echo(&l).expect("no echo on the left at all");
    let er = first_echo(&r).expect("no echo on the right at all");
    println!(
        "left echo at {el} samples ({:.1} ms), expected 4800 (100.0 ms)",
        el as f32 / SR * 1000.0
    );
    println!(
        "right echo at {er} samples ({:.1} ms), expected 9600 (200.0 ms)",
        er as f32 / SR * 1000.0
    );
    assert!(
        (el as i64 - 4800).abs() <= 2,
        "left echo landed at {el}, not 4800"
    );
    assert!(
        (er as i64 - 9600).abs() <= 2,
        "right echo landed at {er}, not 9600"
    );
}

#[test]
fn the_times_are_not_swapped() {
    let (l, r) = run(50.0, 400.0, false, 25_000);
    let el = first_echo(&l).expect("no echo on the left");
    let er = first_echo(&r).expect("no echo on the right");
    println!("short side {el} samples, long side {er} samples");
    assert!(
        el < er,
        "L was set shorter than R but echoed later ({el} vs {er}): channels are swapped"
    );
}

#[test]
fn changing_the_time_moves_the_echo() {
    let (a, _) = run(100.0, 100.0, false, 15_000);
    let (b, _) = run(200.0, 200.0, false, 20_000);
    let ea = first_echo(&a).expect("no echo at 100 ms");
    let eb = first_echo(&b).expect("no echo at 200 ms");
    println!("100 ms -> {ea}, 200 ms -> {eb}");
    assert!(
        eb > ea + 4000,
        "doubling the time barely moved the echo: {ea} then {eb}"
    );
}

#[test]
fn tempo_sync_sets_a_real_time() {
    let mut d = Delay::new();
    d.lines.set_ping_pong(false);
    // 120 BPM, an eighth note = 0.5 beats = 250 ms = 12000 samples at 48k.
    let ms = 0.5 * (60.0 / 120.0f32) * 1000.0;
    let samples = bits(ms / 1000.0 * SR);
    d.lines.set_time_sync(bits(120.0), samples, samples);
    let mut out = Vec::with_capacity(20_000);
    for i in 0..20_000 {
        let x = if i == 0 { 1.0 } else { 0.0 };
        out.push(d.process(x, x).0);
    }
    let e = first_echo(&out).expect("tempo sync produced no echo");
    println!("eighth at 120 BPM -> {e} samples, expected 12000");
    assert!(
        (e as i64 - 12_000).abs() <= 2,
        "sync echo landed at {e}, not 12000"
    );
}

/// Ping-pong means the repeats alternate sides. Feed the left channel only and
/// look at which side each successive echo comes out of.
#[test]
fn ping_pong_alternates_sides() {
    let mut d = Delay::new();
    d.set_time_ms(100.0, 100.0);
    d.lines.set_feedback(bits(60.0 / 100.0));
    d.lines.set_ping_pong(true);

    let n = 48_000; // one second, so four echoes at 100 ms
    let mut l = Vec::with_capacity(n);
    let mut r = Vec::with_capacity(n);
    for i in 0..n {
        let x = if i == 0 { 1.0 } else { 0.0 };
        let (a, b) = d.process(x, 0.0); // left only
        l.push(a);
        r.push(b);
    }

    // Which side is louder around each echo?
    let mut sides = Vec::new();
    for k in 1..=4 {
        let at = k * 4800;
        let win = 64;
        let pl: f32 = l[at - win..at + win]
            .iter()
            .fold(0.0, |m, v| m.max(v.abs()));
        let pr: f32 = r[at - win..at + win]
            .iter()
            .fold(0.0, |m, v| m.max(v.abs()));
        sides.push(if pl > pr {
            'L'
        } else if pr > pl {
            'R'
        } else {
            '-'
        });
        println!("echo {k} at {at}: L peak {pl:.4}, R peak {pr:.4}");
    }
    let pattern: String = sides.iter().collect();
    println!("pattern: {pattern}");
    assert_eq!(
        pattern, "LRLR",
        "ping-pong should alternate sides, got {pattern}"
    );
}

/// Ping-pong bounces ONE time between the speakers, so the spacing has to be
/// even whatever the right-hand control says.
#[test]
fn ping_pong_stays_even_when_the_two_times_differ() {
    let mut d = Delay::new();
    // 120 BPM: eighth = 250 ms, dotted eighth = 375 ms. The shipped defaults.
    d.set_time_ms(250.0, 375.0);
    d.lines.set_feedback(bits(60.0 / 100.0));
    d.lines.set_ping_pong(true);

    let n = 96_000;
    let mut l = Vec::with_capacity(n);
    let mut r = Vec::with_capacity(n);
    for i in 0..n {
        let x = if i == 0 { 1.0 } else { 0.0 };
        let (a, b) = d.process(x, 0.0);
        l.push(a);
        r.push(b);
    }

    // Collect every echo above a useful level, with its time and side.
    let mut hits: Vec<(usize, char, f32)> = Vec::new();
    let mut i = 2;
    while i < n {
        let (a, b) = (l[i].abs(), r[i].abs());
        if a > 0.02 || b > 0.02 {
            hits.push((i, if a > b { 'L' } else { 'R' }, a.max(b)));
            i += 200; // skip past this echo
        } else {
            i += 1;
        }
    }
    for (at, side, amp) in &hits {
        println!(
            "  echo at {:>6} ({:>7.1} ms)  {}  {:.3}",
            at,
            *at as f32 / SR * 1000.0,
            side,
            amp
        );
    }

    // Gaps between successive echoes. A ping-pong is expected to be even.
    let gaps: Vec<i64> = hits
        .windows(2)
        .map(|w| w[1].0 as i64 - w[0].0 as i64)
        .collect();
    println!("  gaps in samples: {gaps:?}");
    let even = gaps.windows(2).all(|g| (g[0] - g[1]).abs() <= 48); // 1 ms tolerance
    assert!(even, "ping-pong repeats are unevenly spaced: {gaps:?}");
    assert!(gaps.len() >= 3 && (gaps[0] - 12_000).abs() <= 2);
}

#[test]
fn a_tempo_of_nothing_leaves_the_times_alone() {
    let mut d = Delay::new();
    d.set_time_ms(100.0, 200.0);
    let before = d.lines.settings();
    for bpm in [0.0f32, -0.0, -120.0, f32::NEG_INFINITY] {
        d.lines.set_time_sync(bits(bpm), bits(7.0), bits(8.0));
        assert_eq!(d.lines.settings(), before);
    }
    d.lines.set_time_sync(bits(1.0e-40), bits(7.0), bits(8.0));
    assert_eq!(d.lines.settings().time_l, bits(7.0));
    assert_eq!(d.lines.settings().time_r, bits(8.0));
}

#[test]
fn the_controls_of_the_delay_keep_to_their_ranges() {
    let mut d = StereoDelay::new(bits(1.0), bits(2.0));
    assert!(d.settings().ping_pong);
    assert_eq!(d.settings().feedback, bits(0.35));
    assert_eq!(d.settings().hp_freq, bits(120.0));
    assert_eq!(d.settings().lp_freq, bits(8000.0));
    assert_eq!(d.settings().mod_rate, bits(0.5));
    d.set_times(bits(0.0), bits(1.0e30));
    assert_eq!(d.settings().time_l, bits(1.0));
    assert_eq!(d.settings().time_r, bits((MAX_DELAY_SAMPLES - 1) as f32));
    d.set_feedback(bits(2.0));
    assert_eq!(d.settings().feedback, bits(0.95));
    d.set_modulation(bits(0.0), bits(200.0));
    assert_eq!(d.settings().mod_rate, bits(0.01));
    assert_eq!(d.settings().mod_depth, bits(100.0));
    d.set_modulation(bits(11.0), bits(-1.0));
    assert_eq!(d.settings().mod_rate, bits(10.0));
    assert_eq!(d.settings().mod_depth, bits(0.0));
    d.set_saturation(bits(101.0));
    assert_eq!(d.settings().saturation, bits(100.0));
}

#[test]
fn a_tap_lies_between_two_samples() {
    let mut d = StereoDelay::new(bits(1.0), bits(1.0));
    for i in 1..=10 {
        d.write(bits(i as f32), bits(-(i as f32)));
    }
    let (l, r) = d.taps(bits(3.25), bits(1.0));
    assert_eq!((l.whole, l.sample, l.before), (3, bits(8.0), bits(7.0)));
    assert_eq!(l.time, bits(3.25));
    assert_eq!((r.whole, r.sample, r.before), (1, bits(-10.0), bits(-9.0)));
    // The longest time still has a sample before it.
    let (l, _) = d.taps(bits(f32::INFINITY), bits(1.0));
    assert_eq!(l.whole, (MAX_DELAY_SAMPLES - 1) as u64);
    assert_eq!(l.before, bits(0.0));
    d.reset();
    let (l, _) = d.taps(bits(1.0), bits(1.0));
    assert_eq!(l.sample, bits(0.0));
}

#[test]
fn a_line_gives_back_what_was_written() {
    let mut line = Ring::new(5);
    assert_eq!(line.len(), 5);
    for i in 1..=7 {
        line.push(bits(i as f32));
    }
    assert_eq!(line.oldest(), bits(3.0));
    for ago in 1..=5 {
        assert_eq!(line.back(ago), bits(8.0 - ago as f32));
    }
    // Slots: 6 7 3 4 5, written next: the third.
    line.resize(2);
    assert_eq!(line.len(), 2);
    assert_eq!(line.oldest(), bits(6.0));
    line.resize(0);
    assert_eq!(line.len(), 1);
    line.resize(3);
    assert_eq!(line.back(1), bits(0.0));
    line.silence();
    assert_eq!(line.oldest(), bits(0.0));
}

// ─── Sidechain ───────────────────────────────────────────────────────────────

struct Detector {
    inner: SidechainDetector,
    attack: f32,
    release: f32,
    fall: f32,
}

fn coeff(ms: f32) -> f32 {
    if ms <= 0.0 {
        1.0
    } else {
        1.0 - (-1.0 / (ms / 1000.0 * SR)).exp()
    }
}

impl Detector {
    fn new() -> Self {
        let mut d = Detector {
            inner: SidechainDetector::new(bits(0.0), bits(0.0)),
            attack: 0.0,
            release: 0.0,
            fall: 10.0_f32.powf(-(20.0 / SR) / 20.0),
        };
        d.set_params(-18.0, 2.5, 60.0, 280.0);
        d
    }

    fn set_params(&mut self, db: f32, attack: f32, hold: f32, release: f32) {
        self.inner.set_params(
            bits(10.0_f32.powf(db / 20.0)),
            bits(hold / 1000.0 * SR),
        );
        self.attack = coeff(attack);
        self.release = coeff(release);
    }

    fn process(&mut self, sample: f32) -> f32 {
        let envelope = num(self.inner.current_depth());
        let next = NextLevels {
            key_fallen: bits(num(self.inner.key_level()) * self.fall),
            risen: bits(envelope + self.attack * (1.0 - envelope)),
            fallen: bits(envelope + self.release * (0.0 - envelope)),
            counted: bits(num(self.inner.hold_counter) - 1.0),
        };
        num(self.inner.process(bits(sample), &next))
    }

    fn key_level(&self) -> f32 {
        num(self.inner.key_level())
    }

    fn current_depth(&self) -> f32 {
        num(self.inner.current_depth())
    }
}

fn db(lin: f32) -> f32 {
    if lin <= 1e-9 {
        -180.0
    } else {
        20.0 * lin.log10()
    }
}

#[test]
fn the_threshold_is_reported_in_the_same_units_as_the_level() {
    let mut d = Detector::new();
    d.set_params(-18.0, 2.0, 50.0, 200.0);
    let t = num(d.inner.threshold_linear());
    assert!(
        (db(t) + 18.0).abs() < 0.01,
        "threshold read back as {} dB",
        db(t)
    );
}

#[test]
fn the_key_level_follows_the_signal() {
    let mut d = Detector::new();
    d.set_params(-18.0, 2.0, 50.0, 200.0);
    assert!(d.key_level() < 1e-6, "starts at silence");

    // A kick-shaped burst: loud, then nothing.
    for _ in 0..480 {
        d.process(0.8);
    }
    let peak = d.key_level();
    assert!(
        (peak - 0.8).abs() < 0.01,
        "level read {peak}, expected about 0.8"
    );

    // It falls back, but not instantly: a meter you cannot read is no meter.
    for _ in 0..(SR as usize / 100) {
        d.process(0.0);
    }
    let after_10ms = d.key_level();
    assert!(after_10ms < peak, "level did not fall at all");
    assert!(
        after_10ms > peak * 0.5,
        "level fell too fast to read: {after_10ms}"
    );
}

#[test]
fn it_ducks_only_once_the_key_is_over_the_threshold() {
    let mut d = Detector::new();
    d.set_params(-18.0, 1.0, 10.0, 50.0);

    // -30 dB is well under the threshold: nothing should happen.
    let quiet = 10.0_f32.powf(-30.0 / 20.0);
    for _ in 0..4800 {
        d.process(quiet);
    }
    assert!(
        d.current_depth() < 0.01,
        "ducked on a signal below the threshold"
    );

    // -6 dB is well over it.
    let loud = 10.0_f32.powf(-6.0 / 20.0);
    for _ in 0..4800 {
        d.process(loud);
    }
    assert!(
        d.current_depth() > 0.5,
        "did not duck on a signal over the threshold"
    );
}

#[test]
fn a_reset_clears_the_meter_too() {
    let mut d = Detector::new();
    for _ in 0..480 {
        d.process(0.9);
    }
    d.inner.reset();
    assert!(
        d.key_level() < 1e-6,
        "the meter kept a level from before the reset"
    );
    assert!(d.current_depth() < 1e-6);
}

#[test]
fn the_hold_runs_before_the_release() {
    let mut d = SidechainDetector::new(bits(0.5), bits(2.0));
    let next = NextLevels {
        key_fallen: bits(0.1),
        risen: bits(1.5),
        fallen: bits(0.25),
        counted: bits(0.0),
    };
    assert_eq!(d.stage(bits(0.6)), DuckStage::Attack);
    // What is more than everything is everything.
    assert_eq!(d.process(bits(-0.6), &next), bits(1.0));
    assert_eq!(d.key_level(), bits(0.6));
    assert_eq!(d.hold_counter, bits(2.0));
    assert_eq!(d.stage(bits(0.5)), DuckStage::Hold);
    assert_eq!(d.process(bits(0.5), &next), bits(1.0));
    assert_eq!(d.key_level(), bits(0.1));
    assert_eq!(d.stage(bits(0.5)), DuckStage::Release);
    assert_eq!(d.process(bits(0.0), &next), bits(0.25));
}

// ─── Envelope ────────────────────────────────────────────────────────────────

fn level(risen: f32, decayed: f32, gap: f32, released: f32) -> NextLevel {
    NextLevel {
        risen: bits(risen),
        decayed: bits(decayed),
        gap: bits(gap),
        released: bits(released),
    }
}

#[test]
fn an_envelope_goes_through_its_stages() {
    let mut e = AdsrEnvelope::new();
    assert_eq!(e.stage, EnvelopeStage::Idle);
    let open = bits(0.5);
    let shut = bits(0.001);
    assert_eq!(e.process(shut, &level(0.5, 0.0, 0.0, 0.0)), bits(0.0));
    assert_eq!(e.stage, EnvelopeStage::Idle);
    e.process(open, &level(0.5, 0.0, 0.0, 0.0));
    assert_eq!((e.stage, e.level), (EnvelopeStage::Attack, bits(0.0)));
    e.process(open, &level(0.5, 0.0, 0.0, 0.0));
    assert_eq!((e.stage, e.level), (EnvelopeStage::Attack, bits(0.5)));
    e.process(open, &level(0.9995, 0.0, 0.0, 0.0));
    assert_eq!((e.stage, e.level), (EnvelopeStage::Decay, bits(1.0)));
    e.process(open, &level(0.0, 0.8, 0.1, 0.0));
    assert_eq!((e.stage, e.level), (EnvelopeStage::Decay, bits(0.8)));
    e.process(open, &level(0.0, 0.7005, 0.0005, 0.0));
    assert_eq!((e.stage, e.level), (EnvelopeStage::Sustain, bits(0.7)));
    e.set_sustain(bits(1.7));
    e.process(open, &level(0.0, 0.0, 0.0, 0.0));
    assert_eq!((e.stage, e.level), (EnvelopeStage::Sustain, bits(1.0)));
    e.process(shut, &level(0.0, 0.0, 0.0, 0.4));
    assert_eq!((e.stage, e.level), (EnvelopeStage::Release, bits(1.0)));
    e.process(shut, &level(0.0, 0.0, 0.0, 0.4));
    assert_eq!((e.stage, e.level), (EnvelopeStage::Release, bits(0.4)));
    e.process(open, &level(0.0, 0.0, 0.0, 0.4));
    assert_eq!((e.stage, e.level), (EnvelopeStage::Attack, bits(0.4)));
    e.process(shut, &level(0.0, 0.0, 0.0, 0.0));
    assert_eq!(e.stage, EnvelopeStage::Release);
    e.process(shut, &level(0.0, 0.0, 0.0, 0.0005));
    assert_eq!((e.stage, e.level), (EnvelopeStage::Idle, bits(0.0)));
}

#[test]
fn the_times_of_an_envelope_are_never_nothing() {
    let mut e = AdsrEnvelope::new();
    assert_eq!(e.attack_ms, bits(10.0));
    assert_eq!(e.decay_ms, bits(100.0));
    assert_eq!(e.release_ms, bits(200.0));
    assert_eq!(e.sustain_level, bits(0.7));
    e.set_attack(bits(0.0));
    e.set_decay(bits(-5.0));
    e.set_release(bits(f32::NAN));
    assert_eq!(e.attack_ms, bits(0.1));
    assert_eq!(e.decay_ms, bits(0.1));
    assert_eq!(e.release_ms, bits(0.1));
    e.set_attack(bits(7.0));
    assert_eq!(e.attack_ms, bits(7.0));
    e.level = bits(0.3);
    e.stage = EnvelopeStage::Decay;
    e.reset();
    assert_eq!((e.stage, e.level), (EnvelopeStage::Idle, bits(0.0)));
}

#[test]
fn an_envelope_stays_in_range_and_dies_away() {
    let mut e = AdsrEnvelope::new();
    let (attack, decay, release) = (0.01f32, 0.002f32, 0.005f32);
    let mut before = 0.0f32;
    let mut at_rest = 0;
    for i in 0..6000 {
        let input = if i < 1000 { 0.5 } else { 0.0 };
        let x = num(e.level);
        let s = num(e.sustain_level);
        let decayed = x + decay * (s - x);
        let next = level(
            x + attack * (1.0 - x),
            decayed,
            (decayed - s).abs(),
            x + release * (0.0 - x),
        );
        let y = num(e.process(bits(input), &next));
        assert!((0.0..=1.0).contains(&y));
        assert!((y - before).abs() <= 0.011, "{before} to {y}");
        if i >= 1000 {
            assert!(y <= before);
        }
        if i > 1000 && y == 0.0 {
            at_rest += 1;
        }
        before = y;
    }
    assert_eq!(e.stage, EnvelopeStage::Idle);
    assert!(at_rest > 1000);
}

#[test]
fn a_slow_release_still_ends() {
    let mut e = AdsrEnvelope::new();
    e.stage = EnvelopeStage::Release;
    e.level = bits(0.001_01);
    let release = 2.0f32.powi(-23);
    let mut samples = 0;
    while e.stage == EnvelopeStage::Release {
        let x = num(e.level);
        let y = num(e.process(bits(0.0), &level(0.0, 0.0, 0.0, x + release * (0.0 - x))));
        assert!(y < x);
        samples += 1;
    }
    assert_eq!((e.stage, e.level), (EnvelopeStage::Idle, bits(0.0)));
    assert!(samples > 10_000, "{samples}");
}

#[test]
fn a_step_up_never_passes_one() {
    let mut e = AdsrEnvelope::new();
    e.process(bits(0.5), &level(0.0, 0.0, 0.0, 0.0));
    for i in 0..=4096 {
        for c in [0.0f32, 0.3, 0.999_999_94, 1.0] {
            let x = i as f32 / 4096.0 + f32::EPSILON * 0.37 * (1.0 - i as f32 / 4096.0);
            let mut e = e.clone();
            e.level = bits(x);
            let y = num(e.process(bits(0.5), &level(x + c * (1.0 - x), 0.0, 0.0, 0.0)));
            assert!((0.0..=1.0).contains(&y), "{x} {c}: {y}");
        }
    }
}

// ─── LFO ─────────────────────────────────────────────────────────────────────

#[test]
fn a_wave_is_put_together_from_pieces() {
    let mut lfo = Lfo::new();
    let drawn = bits(0.0);
    assert_eq!(lfo.piece(bits(0.3), drawn), Piece::Sine);
    lfo.set_shape(Shape::Tri);
    assert_eq!(lfo.piece(bits(0.0), drawn), Piece::Rise);
    assert_eq!(lfo.piece(bits(0.2499), drawn), Piece::Rise);
    assert_eq!(lfo.piece(bits(0.25), drawn), Piece::Fall);
    assert_eq!(lfo.piece(bits(0.75), drawn), Piece::Climb);
    lfo.set_shape(Shape::Saw);
    assert_eq!(lfo.piece(bits(0.3), drawn), Piece::Saw);
    lfo.set_shape(Shape::Square);
    assert_eq!(lfo.piece(bits(0.49), drawn), Piece::Level(bits(1.0)));
    assert_eq!(lfo.piece(bits(0.5), drawn), Piece::Level(bits(-1.0)));
}

fn wave(piece: Piece, p: f32) -> f32 {
    match piece {
        Piece::Sine => (p * 2.0 * PI).sin(),
        Piece::Rise => p * 4.0,
        Piece::Fall => 2.0 - p * 4.0,
        Piece::Climb => p * 4.0 - 4.0,
        Piece::Saw => 2.0 * p - 1.0,
        Piece::Level(x) => num(x),
    }
}

#[test]
fn a_phase_below_zero_is_a_turn_on() {
    assert_eq!(fold(bits(-0.25), bits(0.75)), bits(0.75));
    assert_eq!(fold(bits(0.25), bits(1.25)), bits(0.25));
    assert_eq!(fold(bits(0.0), bits(1.0)), bits(0.0));
}

#[test]
fn a_wave_stays_in_range() {
    for shape in [
        Shape::Sine,
        Shape::Tri,
        Shape::Saw,
        Shape::Square,
        Shape::SampleAndHold,
    ] {
        let mut lfo = Lfo::new();
        lfo.set_shape(shape);
        for i in -200..=200 {
            let rest = i as f32 / 200.0 % 1.0;
            let p = fold(bits(rest), bits(rest + 1.0));
            let x = wave(lfo.piece(p, bits(-0.75)), num(p));
            assert!((-1.0..=1.0).contains(&x), "{shape:?} {rest}: {x}");
        }
    }
}

#[test]
fn a_held_value_changes_once_a_turn() {
    let mut lfo = Lfo::new();
    lfo.set_shape(Shape::SampleAndHold);
    let mut phase = 0.0f64;
    let mut changes = 0;
    let mut last = bits(0.0);
    for i in 0..1000 {
        let ahead = phase + 0.01;
        lfo.advance(wide(ahead), wide(ahead - 1.0));
        phase = f64::from_bits(lfo.phase.bits);
        assert!((0.0..1.0).contains(&phase));
        match lfo.piece(bits(phase as f32), bits(i as f32)) {
            Piece::Level(x) => {
                if x != last {
                    changes += 1;
                    last = x;
                }
            }
            other => panic!("{other:?}"),
        }
    }
    assert!((9..=10).contains(&changes), "{changes}");
    lfo.reset();
    assert_eq!(lfo.phase, wide(0.0));
    assert_eq!(lfo.sh_value, bits(0.0));
}

#[test]
fn a_phase_wraps_at_a_whole_turn() {
    let mut lfo = Lfo::new();
    lfo.advance(wide(0.999), wide(-0.001));
    assert_eq!(lfo.phase, wide(0.999));
    lfo.advance(wide(1.0), wide(0.0));
    assert_eq!(lfo.phase, wide(0.0));
    lfo.set_rate(bits(0.0));
    assert_eq!(lfo.rate, bits(0.001));
    lfo.set_rate(bits(3.0));
    assert_eq!(lfo.rate, bits(3.0));
    lfo.set_phase_offset(bits(0.25));
    assert_eq!(lfo.phase_offset, bits(0.25));
}

#[test]
fn the_parameters_name_the_same_shapes_and_rooms() {
    assert_eq!(shape_of(LfoShape::Sine), Shape::Sine);
    assert_eq!(shape_of(LfoShape::Tri), Shape::Tri);
    assert_eq!(shape_of(LfoShape::Saw), Shape::Saw);
    assert_eq!(shape_of(LfoShape::Square), Shape::Square);
    assert_eq!(shape_of(LfoShape::SampleAndHold), Shape::SampleAndHold);
    assert_eq!(reverb_type_of(ReverbParam::Room), ReverbType::Room);
    assert_eq!(reverb_type_of(ReverbParam::Hall), ReverbType::Hall);
    assert_eq!(reverb_type_of(ReverbParam::Plate), ReverbType::Plate);
    assert_eq!(reverb_type_of(ReverbParam::Spring), ReverbType::Spring);
}

// ─── Reverb ──────────────────────────────────────────────────────────────────

fn combs(rt: ReverbType, right: bool) -> Vec<usize> {
    (0..NUM_COMBS).map(|i| rt.comb_length(i, right)).collect()
}

fn allpasses(rt: ReverbType, right: bool) -> Vec<usize> {
    (0..NUM_ALLPASS).map(|i| rt.allpass_length(i, right)).collect()
}

fn scaled(lengths: &[usize], by: f32) -> Vec<Bits32> {
    lengths.iter().map(|n| bits(*n as f32 * by)).collect()
}

fn room(rt: ReverbType, by: f32) -> Reverb {
    let (cl, cr) = (scaled(&combs(rt, false), by), scaled(&combs(rt, true), by));
    let (al, ar) = (
        scaled(&allpasses(rt, false), by),
        scaled(&allpasses(rt, true), by),
    );
    Reverb::new(&Lengths {
        combs_l: &cl,
        combs_r: &cr,
        allpasses_l: &al,
        allpasses_r: &ar,
    })
}

#[test]
fn the_rooms_have_their_lengths() {
    assert_eq!(
        combs(ReverbType::Room, false),
        [1116, 1188, 1277, 1356, 1422, 1491, 1557, 1617]
    );
    assert_eq!(
        combs(ReverbType::Hall, true),
        [1580, 1640, 1756, 1884, 2016, 2154, 2292, 2422]
    );
    assert_eq!(allpasses(ReverbType::Plate, false), [487, 379, 283, 197]);
    assert_eq!(allpasses(ReverbType::Spring, true), [654, 514, 390, 274]);
    assert_eq!(ReverbType::Room.comb_total(), 11_024);
    assert_eq!(ReverbType::Hall.comb_total(), 15_560);
}

#[test]
fn the_rooms_have_their_colours() {
    let all = [
        (ReverbType::Room, [0.5f32, 1.0, 1.0, 1.0]),
        (ReverbType::Hall, [0.6, 0.7, 1.5, 0.85]),
        (ReverbType::Plate, [0.7, 0.5, 1.2, 1.2]),
        (ReverbType::Spring, [0.45, 1.4, 0.8, 0.9]),
    ];
    for (t, [diffusion, damp, decay, density]) in all {
        let c = t.colour();
        assert_eq!(c.diffusion, bits(diffusion), "{t:?}");
        assert_eq!(c.damp_scale, bits(damp), "{t:?}");
        assert_eq!(c.decay_scale, bits(decay), "{t:?}");
        assert_eq!(c.density, bits(density), "{t:?}");
    }
}

#[test]
fn a_comb_gives_back_its_input_after_its_length() {
    let mut rev = room(ReverbType::Room, 0.01);
    // 11.16 samples are eleven.
    rev.left.comb_in(0, bits(1.0));
    for _ in 0..10 {
        assert_eq!(rev.left.comb_out(0), bits(0.0));
        rev.left.comb_in(0, bits(0.0));
    }
    assert_eq!(rev.left.comb_out(0), bits(1.0));
    assert_eq!(rev.right.comb_out(0), bits(0.0));
    rev.reset();
    assert_eq!(rev.left.comb_out(0), bits(0.0));
    rev.left.allpass_in(3, bits(2.0));
    for _ in 0..1 {
        assert_eq!(rev.left.allpass_out(3), bits(0.0));
        rev.left.allpass_in(3, bits(0.0));
    }
    // 2.25 samples are two.
    assert_eq!(rev.left.allpass_out(3), bits(2.0));
}

#[test]
fn another_room_has_other_lines() {
    let mut rev = room(ReverbType::Room, 0.01);
    assert!(!rev.mode.set_type(ReverbType::Room));
    assert!(rev.mode.set_type(ReverbType::Spring));
    assert_eq!(rev.mode.reverb_type, ReverbType::Spring);
    let rt = rev.mode.reverb_type;
    let (cl, cr) = (scaled(&combs(rt, false), 0.002), scaled(&combs(rt, true), 0.002));
    let (al, ar) = (
        scaled(&allpasses(rt, false), 0.0001),
        scaled(&allpasses(rt, true), 0.0001),
    );
    rev.rebuild_for_type(&Lengths {
        combs_l: &cl,
        combs_r: &cr,
        allpasses_l: &al,
        allpasses_r: &ar,
    });
    // 1.966 samples are one, and so is none.
    rev.left.comb_in(0, bits(3.0));
    assert_eq!(rev.left.comb_out(0), bits(3.0));
    rev.right.allpass_in(0, bits(4.0));
    assert_eq!(rev.right.allpass_out(0), bits(4.0));
}

#[test]
fn a_frozen_tail_takes_nothing_in() {
    let mut mode = ReverbMode::new();
    assert!(!mode.is_frozen());
    assert_eq!(mode.input(bits(0.5)), bits(0.5));
    assert_eq!(mode.comb_feedback(bits(0.03), bits(0.9)), bits(0.9));
    assert_eq!(mode.comb_feedback(bits(0.03), bits(1.2)), bits(0.98));
    assert_eq!(mode.comb_feedback(bits(0.0), bits(0.9)), bits(0.5));
    mode.set_freeze(true);
    assert!(mode.is_frozen());
    assert_eq!(mode.input(bits(0.5)), bits(0.0));
    assert_eq!(mode.comb_feedback(bits(0.03), bits(0.9)), bits(0.999));
}

#[test]
fn a_predelay_hands_on_what_came_before() {
    let mut line = Predelay::new();
    line.set_sample_rate(bits(10.9));
    line.set_delay(bits(3.7));
    let out: Vec<f32> = (1..=8).map(|i| num(line.through(bits(i as f32)))).collect();
    assert_eq!(out, [0.0, 0.0, 0.0, 1.0, 2.0, 3.0, 4.0, 5.0]);
    // No more than the line holds, which is ten samples.
    line.set_delay(bits(1.0e9));
    assert_eq!(line.through(bits(9.0)), bits(0.0));
    assert_eq!(line.through(bits(10.0)), bits(1.0));
    // No delay adds none.
    line.set_delay(bits(0.0));
    assert_eq!(line.through(bits(11.0)), bits(11.0));
    line.set_delay(bits(1.0));
    assert_eq!(line.through(bits(12.0)), bits(11.0));
    line.reset();
    assert_eq!(line.through(bits(13.0)), bits(0.0));
}

/// The call at which something first comes out of the left side after one
/// sample, in the smallest room.
fn first_call(predelay: f32) -> usize {
    let mut rev = room(ReverbType::Room, 0.5);
    rev.predelay.set_sample_rate(bits(44100.0));
    rev.predelay.set_delay(bits(predelay / 1000.0 * 44100.0));
    let mut out = 0.0;
    for call in 0..2000 {
        if out != 0.0 {
            return call - 1;
        }
        let x = if call == 0 { 1.0 } else { 0.0 };
        let input = rev.predelay.through(rev.mode.input(bits(x)));
        out = 0.0;
        for i in 0..NUM_COMBS {
            out += num(rev.left.comb_out(i));
            rev.left.comb_in(i, input);
        }
    }
    panic!("nothing came out");
}

#[test]
fn no_predelay_adds_no_delay() {
    assert_eq!(first_call(0.0), 558);
    assert_eq!(first_call(10.0), 999);
}

#[test]
fn a_length_is_whole_and_never_none() {
    for (x, n) in [(0.0f32, 1), (0.9, 1), (1.0, 1), (2.99, 2), (-4.0, 1), (44100.5, 44100)] {
        assert_eq!(to_length(bits(x)), n);
    }
    assert_eq!(to_length(bits(f32::NAN)), 1);
}

// ─── Biquad ──────────────────────────────────────────────────────────────────

#[test]
fn a_filter_is_tuned_anew_only_when_it_moves() {
    let mut hp = BiquadTuning::new(FilterType::HighPass);
    assert_eq!(hp.freq, bits(80.0));
    assert_eq!(BiquadTuning::new(FilterType::LowPass).freq, bits(18000.0));
    assert_eq!(BiquadTuning::reachable(bits(5.0), bits(20000.0)), bits(20.0));
    assert_eq!(
        BiquadTuning::reachable(bits(30000.0), bits(20000.0)),
        bits(20000.0)
    );
    assert!(!hp.set_freq(bits(80.01), bits(0.01)));
    assert_eq!(hp.freq, bits(80.0));
    assert!(hp.set_freq(bits(100.0), bits(20.0)));
    assert_eq!(hp.freq, bits(100.0));
}
