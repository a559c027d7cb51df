use hardwave_wettboi::bits::Bits32;
use hardwave_wettboi::clap_export::{
    end_load, LoadStep, StateLoad, MAX_STATE_BYTES, STATE_LENGTH_PREFIX_BYTES,
};
use hardwave_wettboi::params::{ParamKind, ALL_PARAMS};
use hardwave_wettboi::state::{
    check_value, default_value, sanitize_state, ParamMap, ParamValue, PluginState,
};

fn bits(x: f32) -> Bits32 {
    Bits32 { bits: x.to_bits() }
}

fn number(x: f32) -> ParamValue {
    ParamValue::F32(bits(x))
}

fn value(b: Bits32) -> f32 {
    f32::from_bits(b.bits)
}

/// A state whose values are out of range, or not numbers at all, must not reach
/// a parameter.
#[test]
fn junk_values_never_reach_a_parameter() {
    let mut params = ParamMap::new();
    params.insert("mix", number(f32::NAN));
    params.insert("dly_time_l", number(1e30));
    params.insert("rev_size", number(-4000.0));
    params.insert("lfo_phase", number(f32::NEG_INFINITY));
    params.insert("lfo_shape", ParamValue::I32(99));
    params.insert("rev_enabled", number(0.5));
    params.insert("not_a_parameter", number(1.0));
    let mut state = PluginState {
        version: "0.0.1".to_string(),
        params,
        fields: Vec::new(),
    };

    sanitize_state(&mut state);

    // The values that cannot be repaired are gone, so those parameters keep
    // their defaults.
    assert!(!state.params.contains_key("mix"));
    assert!(!state.params.contains_key("lfo_phase"));
    assert!(!state.params.contains_key("rev_enabled"));
    assert!(!state.params.contains_key("not_a_parameter"));

    // The ones that are merely out of range are pulled back into it.
    match state.params.get("dly_time_l") {
        Some(ParamValue::F32(v)) => {
            let v = value(*v);
            assert!((1.0..=2000.0).contains(&v), "delay time is {v}")
        }
        other => panic!("delay time became {other:?}"),
    }
    match state.params.get("rev_size") {
        Some(ParamValue::F32(v)) => {
            let v = value(*v);
            assert!((0.0..=100.0).contains(&v), "size is {v}")
        }
        other => panic!("size became {other:?}"),
    }
    match state.params.get("lfo_shape") {
        Some(ParamValue::I32(v)) => assert!((0..=4).contains(v), "shape is {v}"),
        other => panic!("shape became {other:?}"),
    }
}

/// Anything an earlier version wrote is in range already, so it has to come
/// through the check untouched. A preset that loaded before has to load now.
#[test]
fn a_state_from_an_older_version_is_left_alone() {
    let mut params = ParamMap::new();
    for p in ALL_PARAMS {
        params.insert(p.info().id, default_value(p));
    }
    let before = params.clone();
    let mut state = PluginState {
        version: "0.3.13".to_string(),
        params,
        fields: Vec::new(),
    };

    sanitize_state(&mut state);

    assert_eq!(state.params.len(), before.len(), "entries were dropped");
    for p in ALL_PARAMS {
        let id = p.info().id;
        let after = state.params.get(id).expect("a parameter went missing");
        match (before.get(id).unwrap(), after) {
            (ParamValue::F32(a), ParamValue::F32(b)) => {
                assert_eq!(a, b, "{id} changed")
            }
            (ParamValue::I32(a), ParamValue::I32(b)) => assert_eq!(a, b, "{id} changed"),
            (ParamValue::Bool(a), ParamValue::Bool(b)) => assert_eq!(a, b, "{id} changed"),
            _ => panic!("{id} changed kind"),
        }
    }
    assert_eq!(state.version, "0.3.13");
}

#[test]
fn a_value_in_range_is_kept_bit_for_bit() {
    for x in [1.0f32, 1.000_000_1, 399.999_97, 2000.0] {
        assert_eq!(check_value("dly_time_l", &number(x)), Some(number(x)));
    }
    // The sign of a zero is a bit too.
    assert_eq!(check_value("mix", &number(-0.0)), Some(number(-0.0)));
}

#[test]
fn a_value_out_of_range_is_pulled_to_its_nearer_end() {
    assert_eq!(
        check_value("dly_time_l", &number(0.999)),
        Some(number(1.0))
    );
    assert_eq!(
        check_value("dly_time_l", &number(2000.1)),
        Some(number(2000.0))
    );
    assert_eq!(
        check_value("lfo_shape", &ParamValue::I32(-7)),
        Some(ParamValue::I32(0))
    );
    assert_eq!(
        check_value("lfo_shape", &ParamValue::I32(5)),
        Some(ParamValue::I32(4))
    );
}

#[test]
fn a_value_of_the_wrong_kind_is_dropped() {
    assert_eq!(check_value("mix", &ParamValue::Bool(true)), None);
    assert_eq!(check_value("mix", &ParamValue::I32(3)), None);
    assert_eq!(
        check_value("mix", &ParamValue::String("half".to_string())),
        None
    );
    assert_eq!(check_value("bypass", &ParamValue::I32(1)), None);
    assert_eq!(check_value("lfo_shape", &number(1.0)), None);
    assert_eq!(check_value("no_such_param", &ParamValue::Bool(true)), None);
    assert_eq!(check_value("mix", &number(f32::INFINITY)), None);
    // A variant may be stored by its name.
    assert_eq!(
        check_value("lfo_shape", &ParamValue::String("saw".to_string())),
        Some(ParamValue::String("saw".to_string()))
    );
}

#[test]
fn checking_a_state_twice_changes_nothing_more() {
    let mut params = ParamMap::new();
    params.insert("mix", number(250.0));
    params.insert("rev_decay", number(-3.0));
    params.insert("routing", ParamValue::I32(17));
    params.insert("nothing", ParamValue::Bool(false));
    let mut once = PluginState {
        version: String::new(),
        params,
        fields: vec![("a".to_string(), "b".to_string())],
    };
    sanitize_state(&mut once);
    let mut twice = once.clone();
    sanitize_state(&mut twice);
    assert_eq!(once.params.len(), 3);
    for id in ["mix", "rev_decay", "routing"] {
        assert_eq!(once.params.get(id), twice.params.get(id));
    }
    assert_eq!(once.fields, twice.fields);
    assert_eq!(once.params.get("mix"), Some(&number(100.0)));
}

#[test]
fn a_default_is_one_of_the_values_of_its_parameter() {
    for p in ALL_PARAMS {
        let info = p.info();
        let v = default_value(p);
        assert_eq!(check_value(info.id, &v), Some(v.clone()), "{}", info.id);
        if let ParamKind::Range(r) = info.kind {
            let (lo, hi, at) = (value(r.min), value(r.max), value(r.default));
            assert!(lo <= at && at <= hi, "{}", info.id);
        }
    }
}

/// Read a stream that hands out at most `piece` bytes at a time.
fn load(data: &[u8], piece: usize) -> Option<Vec<u8>> {
    let mut load = StateLoad::new();
    let mut pos = 0;
    loop {
        match load.next() {
            LoadStep::Read { wanted } => {
                let mut room = vec![0u8; wanted];
                let count = wanted.min(piece).min(data.len() - pos);
                room[..count].copy_from_slice(&data[pos..pos + count]);
                pos += count;
                load.answer(count as i64, &room);
            }
            LoadStep::Refuse => return None,
            LoadStep::Replay => {
                let mut replay = load.into_replay();
                let mut all = Vec::new();
                loop {
                    let part = replay.read(7);
                    if part.is_empty() {
                        return Some(all);
                    }
                    all.extend_from_slice(&part);
                }
            }
        }
    }
}

fn framed(body: &[u8]) -> Vec<u8> {
    let mut data = (body.len() as u64).to_le_bytes().to_vec();
    data.extend_from_slice(body);
    data
}

#[test]
fn a_length_that_cannot_be_ours_is_refused() {
    let cases: Vec<Vec<u8>> = vec![
        vec![0xAB; 96],
        u64::MAX.to_le_bytes().to_vec(),
        {
            let mut data = 4096u64.to_le_bytes().to_vec();
            data.extend_from_slice(b"{\"params\":{}}");
            data
        },
        Vec::new(),
        0u64.to_le_bytes().to_vec(),
        (MAX_STATE_BYTES + 1).to_le_bytes().to_vec(),
        vec![1, 0, 0],
    ];
    for (i, data) in cases.iter().enumerate() {
        for piece in [1, 5, 1000] {
            assert_eq!(load(data, piece), None, "case {i}");
        }
    }
}

#[test]
fn a_saved_state_is_loaded_however_it_is_cut() {
    let data = framed(b"{\"version\":\"0.4.4\",\"params\":{\"mix\":{\"f32\":30.0}}}");
    let mut longer = data.clone();
    longer.extend_from_slice(b"what follows is not read");
    for piece in 1..data.len() + 3 {
        assert_eq!(load(&data, piece), Some(data.clone()));
        assert_eq!(load(&longer, piece), Some(data.clone()));
    }
    assert_eq!(STATE_LENGTH_PREFIX_BYTES, 8);
}

#[test]
fn a_stream_that_fails_or_lies_is_refused() {
    for claimed in [0i64, -1, i64::MIN, 9, i64::MAX] {
        let mut load = StateLoad::new();
        match load.next() {
            LoadStep::Read { wanted } => {
                assert_eq!(wanted, 8);
                load.answer(claimed, &[0u8; 8]);
            }
            _ => panic!("nothing was asked for"),
        }
        assert!(matches!(load.next(), LoadStep::Refuse), "{claimed}");
    }
}

#[test]
fn a_finished_load_asks_for_a_rescan() {
    assert!(end_load(true).loaded && end_load(true).rescan);
    assert!(!end_load(false).loaded && !end_load(false).rescan);
}

#[test]
fn what_is_saved_comes_back() {
    // One number, as four bytes.
    let mix = 42.5f32;
    let body = mix.to_bits().to_le_bytes();
    let mut stream = (body.len() as u64).to_le_bytes().to_vec();
    stream.extend_from_slice(&body);
    stream.extend_from_slice(&[9, 9, 9]);

    let bytes = load(&stream, 3).unwrap();
    assert_eq!(bytes.len(), STATE_LENGTH_PREFIX_BYTES + body.len());
    let back = u32::from_le_bytes([bytes[8], bytes[9], bytes[10], bytes[11]]);

    let mut params = ParamMap::new();
    params.insert("mix", ParamValue::F32(Bits32 { bits: back }));
    let mut state = PluginState {
        version: "0.0.1".to_string(),
        params,
        fields: Vec::new(),
    };
    sanitize_state(&mut state);
    match state.params.get("mix") {
        Some(ParamValue::F32(b)) => assert_eq!(value(*b), mix),
        other => panic!("{other:?}"),
    }
}
