use hardwave_wettboi::bits::Bits32;
use hardwave_wettboi::editor::{
    note_div_index, snapshot_params, string_to_param_value, NOTE_DIV_NAMES,
};
use hardwave_wettboi::params::{NoteDiv, ParamId, ParamKind, WettBoiParams, ALL_PARAMS};

/// (param id, the values the UI sends for it)
const UI_VOCABULARY: &[(&str, &[&str])] = &[
    ("rev_type", &["room", "hall", "plate", "spring"]),
    ("sc_source", &["internal", "sidechain"]),
    ("lfo_shape", &["sine", "tri", "saw", "square", "s&h"]),
    ("lfo_target", &["rev_wet", "dly_wet", "dly_fb", "filter"]),
    ("routing", &["parallel", "rev_to_dly", "dly_to_rev"]),
    (
        "dly_note_l",
        &["1/16", "1/8", "d1/8", "1/4", "d1/4", "1/2", "d1/2", "1/1"],
    ),
    (
        "dly_note_r",
        &["1/16", "1/8", "d1/8", "1/4", "d1/4", "1/2", "d1/2", "1/1"],
    ),
];

#[test]
fn every_value_the_ui_can_send_resolves() {
    let mut dead = Vec::new();
    for (id, values) in UI_VOCABULARY {
        for v in *values {
            if string_to_param_value(id, v).is_none() {
                dead.push(format!("{id} = {v:?}"));
            }
        }
    }
    for (id, values) in UI_VOCABULARY {
        println!("  {id}: {} values", values.len());
    }
    assert!(
        dead.is_empty(),
        "these do nothing when the UI sends them: {dead:?}"
    );
}

#[test]
fn every_value_the_ui_can_send_resolves_to_its_own_variant() {
    for (id, values) in UI_VOCABULARY {
        for (i, v) in values.iter().enumerate() {
            assert_eq!(string_to_param_value(id, v), Some(i), "{id} = {v:?}");
        }
    }
}

#[test]
fn note_divisions_map_to_distinct_variants() {
    let mut seen = Vec::new();
    for (i, name) in NOTE_DIV_NAMES.iter().enumerate() {
        let idx = note_div_index(name).unwrap_or_else(|| panic!("{name} is not a note division"));
        assert_eq!(idx, i, "{name} resolved to variant {idx}, expected {i}");
        seen.push(idx);
    }
    seen.sort_unstable();
    seen.dedup();
    assert_eq!(
        seen.len(),
        NOTE_DIV_NAMES.len(),
        "two note names share a variant"
    );
    println!(
        "  all {} note divisions map to their own variant",
        NOTE_DIV_NAMES.len()
    );
}

#[test]
fn an_unknown_value_is_refused_rather_than_guessed() {
    assert!(string_to_param_value("rev_type", "cathedral").is_none());
    assert!(string_to_param_value("dly_note_l", "1/3").is_none());
    assert!(string_to_param_value("no_such_param", "anything").is_none());
    println!("  unknown values return None instead of silently landing on variant 0");
}

#[test]
fn every_note_the_ui_offers_maps_to_a_value() {
    for (i, name) in NOTE_DIV_NAMES.iter().enumerate() {
        let got = note_div_index(name);
        assert_eq!(got, Some(i), "note {name:?} did not map to index {i}");
    }
}

#[test]
fn an_unknown_note_is_refused_rather_than_guessed() {
    assert_eq!(note_div_index("1/3"), None);
    assert_eq!(note_div_index(""), None);
    assert_eq!(note_div_index("d1/16"), None);
}

/// The names have to line up with the enum, or a click selects the wrong length.
#[test]
fn the_names_are_in_enum_order() {
    let beats: Vec<f32> = NOTE_DIV_NAMES
        .iter()
        .map(|n| {
            let i = note_div_index(n).unwrap();
            let div = match i {
                0 => NoteDiv::Sixteenth,
                1 => NoteDiv::Eighth,
                2 => NoteDiv::DottedEighth,
                3 => NoteDiv::Quarter,
                4 => NoteDiv::DottedQuarter,
                5 => NoteDiv::Half,
                6 => NoteDiv::DottedHalf,
                7 => NoteDiv::Whole,
                _ => unreachable!(),
            };
            f32::from_bits(div.beats().bits)
        })
        .collect();
    // Written out rather than computed, so a wrong reordering fails here.
    assert_eq!(beats, vec![0.25, 0.5, 0.75, 1.0, 1.5, 2.0, 3.0, 4.0]);
    for pair in beats.windows(2) {
        assert!(pair[1] > pair[0], "the list is not ascending: {pair:?}");
    }
}

fn bits(x: f32) -> Bits32 {
    Bits32 { bits: x.to_bits() }
}

#[test]
fn a_snapshot_shows_where_every_control_stands() {
    let params = WettBoiParams::default();
    let packet = snapshot_params(&params, bits(150.0), bits(0.25), bits(-0.5), bits(0.125));
    assert_eq!(packet.bpm, bits(150.0));
    assert_eq!(packet.sc_duck_depth, bits(0.25));
    assert_eq!(packet.lfo_value, bits(-0.5));
    assert_eq!(packet.sc_threshold_lin, bits(0.125));
    assert_eq!(packet.sc_key_level, bits(0.0));
    assert_eq!(packet.mix, params.mix);
    assert_eq!(packet.dly_time_l, params.dly_time_l);
    assert_eq!(packet.preset, "Init");
    assert_eq!(packet.output_peak_r, bits(0.0));
    // Every word it reports is one it understands.
    for (id, word) in [
        ("rev_type", &packet.rev_type),
        ("sc_source", &packet.sc_source),
        ("lfo_shape", &packet.lfo_shape),
        ("lfo_target", &packet.lfo_target),
        ("routing", &packet.routing),
        ("dly_note_l", &packet.dly_note_l),
        ("dly_note_r", &packet.dly_note_r),
    ] {
        assert!(string_to_param_value(id, word).is_some(), "{id}: {word}");
    }
    assert_eq!(packet.rev_type, "room");
    assert_eq!(packet.dly_note_l, "1/8");
    assert_eq!(packet.dly_note_r, "d1/8");
    assert_eq!(packet.routing, "parallel");
}

#[test]
fn every_parameter_is_found_by_its_id() {
    assert_eq!(ALL_PARAMS.len(), 39);
    for p in ALL_PARAMS {
        assert_eq!(ParamId::find(p.info().id), Some(p));
    }
    assert_eq!(ParamId::find("no_such_param"), None);
    assert_eq!(ParamId::find(""), None);
}

#[test]
fn a_choice_has_as_many_words_as_variants() {
    for p in ALL_PARAMS {
        let info = p.info();
        let words = UI_VOCABULARY
            .iter()
            .find(|(id, _)| *id == info.id)
            .map(|(_, words)| words.len())
            .unwrap_or(0);
        match info.kind {
            ParamKind::Choice { variants, .. } => assert_eq!(variants as usize, words),
            _ => assert_eq!(words, 0, "{}", info.id),
        }
    }
}
