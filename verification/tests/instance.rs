//! An instance as a host drives it.

use hardwave_wettboi::bits::Bits32;
use hardwave_wettboi::dsp::lfo::{Piece, Shape};
use hardwave_wettboi::dsp::reverb::{Lengths, ReverbType, NUM_ALLPASS, NUM_COMBS};
use hardwave_wettboi::dsp::sidechain::NextLevels;
use hardwave_wettboi::instance::{Controls, Instance};

fn bits(x: f32) -> Bits32 {
    Bits32 { bits: x.to_bits() }
}

fn num(b: Bits32) -> f32 {
    f32::from_bits(b.bits)
}

/// The lengths of the lines of a type, in a small room.
struct Sizes {
    combs: [Vec<Bits32>; 2],
    allpasses: [Vec<Bits32>; 2],
}

fn sizes(rt: ReverbType, by: f32) -> Sizes {
    let combs = |right| {
        (0..NUM_COMBS)
            .map(|i| bits(rt.comb_length(i, right) as f32 * by))
            .collect()
    };
    let allpasses = |right| {
        (0..NUM_ALLPASS)
            .map(|i| bits(rt.allpass_length(i, right) as f32 * 0.01))
            .collect()
    };
    Sizes {
        combs: [combs(false), combs(true)],
        allpasses: [allpasses(false), allpasses(true)],
    }
}

fn lengths(s: &Sizes) -> Lengths<'_> {
    Lengths {
        combs_l: &s.combs[0],
        combs_r: &s.combs[1],
        allpasses_l: &s.allpasses[0],
        allpasses_r: &s.allpasses[1],
    }
}

fn fresh() -> Instance {
    Instance::new(
        &lengths(&sizes(ReverbType::Room, 0.01)),
        bits(4.0),
        bits(6.0),
        bits(0.125),
        bits(3.0),
    )
}

fn set(inst: &mut Instance, rt: ReverbType, before: f32, by: f32, synced: bool) {
    let (old, new) = (sizes(rt, before), sizes(rt, by));
    inst.set_up(&Controls {
        reverb_type: rt,
        freeze: false,
        before_l: &old.combs[0],
        before_r: &old.combs[1],
        lengths: lengths(&new),
        predelay: bits(2.0),
        threshold_lin: bits(0.25),
        hold_samples: bits(5.0),
        synced,
        time_l: bits(7.0),
        time_r: bits(9.0),
        feedback: bits(0.5),
        hp: bits(100.0),
        lp: bits(8000.0),
        ping_pong: false,
        mod_rate: bits(1.0),
        mod_depth: bits(0.0),
        saturation: bits(0.0),
        lfo_rate: bits(3.0),
        lfo_offset: bits(0.25),
        shape: Shape::Saw,
    });
}

/// One step of everything, mixed together.
fn step(inst: &mut Instance, x: f32) -> f32 {
    let next = NextLevels {
        key_fallen: bits(num(inst.sidechain.key_level()) * 0.5),
        risen: bits(num(inst.sidechain.current_depth()) * 0.5 + 0.5),
        fallen: bits(num(inst.sidechain.current_depth()) * 0.5),
        counted: bits(num(inst.sidechain.hold_counter) - 1.0),
    };
    let mut out = num(inst.sidechain.process(bits(x), &next));
    if let Piece::Level(v) = inst.lfo.piece(bits(0.1), bits(0.5)) {
        out += num(v);
    }
    let input = inst.reverb.predelay.through(inst.reverb.mode.input(bits(x)));
    for i in 0..NUM_COMBS {
        let (l, r) = (inst.reverb.left.comb_out(i), inst.reverb.right.comb_out(i));
        out += num(l) - 0.5 * num(r);
        inst.reverb.left.comb_in(i, bits(num(input) + 0.5 * num(l)));
        inst.reverb.right.comb_in(i, bits(num(input) + 0.5 * num(r)));
    }
    for i in 0..NUM_ALLPASS {
        out += num(inst.reverb.left.allpass_out(i)) + num(inst.reverb.right.allpass_out(i));
        inst.reverb.left.allpass_in(i, bits(x));
        inst.reverb.right.allpass_in(i, bits(-0.5 * x));
    }
    let (time_l, time_r) = inst.delay.times();
    let (l, r) = inst.delay.taps(time_l, time_r);
    out += num(l.sample) + 2.0 * num(r.sample);
    inst.delay.write(bits(x), bits(x));
    out
}

fn play(inst: &mut Instance, n: usize) -> Vec<f32> {
    (0..n)
        .map(|i| step(inst, if i % 5 == 0 { 0.75 } else { -0.125 }))
        .collect()
}

#[test]
fn an_instance_that_is_used_again_plays_as_a_new_one() {
    let mut used = fresh();
    used.initialize(bits(30.0), &lengths(&sizes(ReverbType::Room, 0.01)));
    set(&mut used, ReverbType::Hall, 0.01, 0.02, false);
    play(&mut used, 137);
    used.engine.nan_detected = true;
    used.engine.duck_depth = bits(0.5);

    used.initialize(bits(20.0), &lengths(&sizes(ReverbType::Hall, 0.02)));
    let mut new = fresh();
    new.initialize(bits(20.0), &lengths(&sizes(ReverbType::Room, 0.01)));
    for inst in [&mut used, &mut new] {
        inst.engine.set_tempo(Some(bits(120.0)));
        set(inst, ReverbType::Plate, 0.02, 0.015, true);
    }
    assert_eq!(used.engine, new.engine);
    assert_eq!(used.sidechain, new.sidechain);
    assert_eq!(used.delay.settings(), new.delay.settings());
    assert_eq!(play(&mut used, 200), play(&mut new, 200));
}

#[test]
fn a_reset_leaves_nothing_to_hear() {
    let mut inst = fresh();
    inst.initialize(bits(20.0), &lengths(&sizes(ReverbType::Room, 0.01)));
    set(&mut inst, ReverbType::Room, 0.01, 0.01, false);
    play(&mut inst, 50);
    assert_ne!(step(&mut inst, 0.0), 0.0);
    inst.reset();
    for _ in 0..50 {
        assert_eq!(step(&mut inst, 0.0), 0.0);
    }
}

#[test]
fn a_buffer_that_went_wrong_clears_the_effects() {
    let mut inst = fresh();
    inst.initialize(bits(20.0), &lengths(&sizes(ReverbType::Room, 0.01)));
    play(&mut inst, 50);
    assert!(!inst.end_buffer());
    let before = step(&mut inst.clone(), 0.0);
    assert_ne!(before, 0.0);
    inst.engine
        .leave((bits(0.5), bits(0.5)), (bits(f32::NAN), bits(0.0)));
    assert!(inst.end_buffer());
    assert!(!inst.engine.nan_detected);
    assert_eq!(step(&mut inst, 0.0), 0.0);
}

#[test]
fn setting_up_again_keeps_the_tail() {
    let mut inst = fresh();
    inst.initialize(bits(20.0), &lengths(&sizes(ReverbType::Hall, 0.02)));
    set(&mut inst, ReverbType::Hall, 0.02, 0.02, false);
    play(&mut inst, 60);
    let mut again = inst.clone();
    set(&mut again, ReverbType::Hall, 0.02, 0.02, false);
    assert_eq!(play(&mut inst, 60), play(&mut again, 60));
}

#[test]
fn a_tempo_of_nothing_leaves_the_echoes_where_they_were() {
    let mut inst = fresh();
    inst.engine.set_tempo(Some(bits(0.0)));
    set(&mut inst, ReverbType::Room, 0.01, 0.01, true);
    assert_eq!(inst.delay.settings().time_l, bits(4.0));
    set(&mut inst, ReverbType::Room, 0.01, 0.01, false);
    assert_eq!(inst.delay.settings().time_l, bits(7.0));
    assert_eq!(inst.delay.settings().feedback, bits(0.5));
    assert_eq!(inst.lfo.shape, Shape::Saw);
    assert_eq!(inst.sidechain.threshold_linear(), bits(0.25));
}
