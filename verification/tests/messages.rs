use hardwave_wettboi::editor::{data_dir_names, to_pixels, WettBoiEditor};
use hardwave_wettboi::bits::Bits32;
use hardwave_wettboi::ipc::{handle_ipc, log_of, read_message, Json, Member, NewValue, UiMessage};
use hardwave_wettboi::params::ParamId;

fn moved(raw: &str) -> (ParamId, NewValue) {
    match handle_ipc(raw) {
        UiMessage::SetParam { param, value } => (param, value),
        other => panic!("{raw}: {other:?}"),
    }
}

#[test]
fn a_number_moves_a_parameter() {
    assert_eq!(
        moved(r#"{"type":"set_param","id":"mix","value":42.5}"#),
        (ParamId::Mix, NewValue::Number(42.5f64.to_bits()))
    );
    // An integer is a number too.
    assert_eq!(
        moved(r#"{"type":"set_param","id":"mix","value":7}"#),
        (ParamId::Mix, NewValue::Number(7.0f64.to_bits()))
    );
    assert_eq!(
        moved(r#"{"type":"set_param","id":"sc_threshold","value":-18}"#),
        (ParamId::ScThreshold, NewValue::Number((-18.0f64).to_bits()))
    );
}

#[test]
fn a_switch_and_a_word_move_a_parameter() {
    assert_eq!(
        moved(r#"{"type":"set_param","id":"bypass","value":true}"#),
        (ParamId::Bypass, NewValue::Flag(true))
    );
    assert_eq!(
        moved(r#"{"type":"set_param","id":"dly_note_l","value":"d1/8"}"#),
        (ParamId::DlyNoteL, NewValue::Choice(2))
    );
    assert_eq!(
        moved(r#"{"value":"s\u0026h","id":"lfo_shape","type":"set_param"}"#),
        (ParamId::LfoShape, NewValue::Choice(4))
    );
}

#[test]
fn a_value_nobody_understands_moves_nothing() {
    for raw in [
        r#"{"type":"set_param","id":"rev_type","value":"cathedral"}"#,
        r#"{"type":"set_param","id":"rev_type","value":null}"#,
        r#"{"type":"set_param","id":"rev_type","value":[1]}"#,
        r#"{"type":"set_param","id":"rev_type","value":{"a":1}}"#,
        r#"{"type":"set_param","id":"rev_type"}"#,
    ] {
        match handle_ipc(raw) {
            UiMessage::BadValue { id, .. } => assert_eq!(id, "rev_type"),
            other => panic!("{raw}: {other:?}"),
        }
    }
    // A bad value is reported before an unknown parameter is.
    match handle_ipc(r#"{"type":"set_param","id":"no_such_param","value":"x"}"#) {
        UiMessage::BadValue { id, .. } => assert_eq!(id, "no_such_param"),
        other => panic!("{other:?}"),
    }
    match handle_ipc(r#"{"type":"set_param","id":"no_such_param","value":1}"#) {
        UiMessage::UnknownParam { id } => assert_eq!(id, "no_such_param"),
        other => panic!("{other:?}"),
    }
    match handle_ipc(r#"{"type":"set_param","id":3,"value":1}"#) {
        UiMessage::UnknownParam { id } => assert_eq!(id, ""),
        other => panic!("{other:?}"),
    }
}

#[test]
fn what_is_not_json_is_malformed() {
    for raw in ["", "{", "set_param", "{\"type\":}", "{} {}"] {
        assert!(matches!(handle_ipc(raw), UiMessage::Malformed { .. }), "{raw}");
    }
}

#[test]
fn what_is_no_message_is_unknown() {
    for (raw, kind) in [
        ("{}", ""),
        ("[]", ""),
        ("3", ""),
        ("null", ""),
        (r#"{"type":7}"#, ""),
        (r#"{"type":"reboot"}"#, "reboot"),
    ] {
        match handle_ipc(raw) {
            UiMessage::Unknown { kind: k } => assert_eq!(k, kind),
            other => panic!("{raw}: {other:?}"),
        }
    }
}

#[test]
fn the_other_messages_are_understood() {
    assert!(matches!(
        handle_ipc(r#"{"type":"release_focus"}"#),
        UiMessage::ReleaseFocus
    ));
    assert!(matches!(
        handle_ipc(r#"{"type":"clear_token"}"#),
        UiMessage::ClearToken
    ));
    match handle_ipc(r#"{"type":"save_token","token":"abc"}"#) {
        UiMessage::SaveToken { token } => assert_eq!(token.as_deref(), Some("abc")),
        other => panic!("{other:?}"),
    }
    match handle_ipc(r#"{"type":"save_token","token":5}"#) {
        UiMessage::SaveToken { token } => assert_eq!(token, None),
        other => panic!("{other:?}"),
    }
}

#[test]
fn a_size_is_taken_only_within_bounds() {
    for (raw, w, h) in [
        (r#"{"type":"resize","width":600,"height":380}"#, 600, 380),
        (r#"{"type":"resize","width":2560,"height":1600}"#, 2560, 1600),
        // Only the lowest 32 bits count.
        (r#"{"type":"resize","width":4294968296,"height":800}"#, 1000, 800),
    ] {
        match handle_ipc(raw) {
            UiMessage::Resize { width, height } => assert_eq!((width, height), (w, h)),
            other => panic!("{raw}: {other:?}"),
        }
    }
    for (raw, w, h) in [
        (r#"{"type":"resize","width":599,"height":380}"#, 599, 380),
        (r#"{"type":"resize","width":600,"height":1601}"#, 600, 1601),
        (r#"{"type":"resize","width":-600,"height":"380"}"#, 0, 0),
        (r#"{"type":"resize","width":600.5}"#, 0, 0),
        (r#"{"type":"resize"}"#, 0, 0),
    ] {
        match handle_ipc(raw) {
            UiMessage::ResizeRefused { width, height } => assert_eq!((width, height), (w, h)),
            other => panic!("{raw}: {other:?}"),
        }
    }
}

#[test]
fn members_are_read_by_their_names() {
    let member = |name: &str, value| Member {
        name: name.to_string(),
        value,
        shown: "...".to_string(),
    };
    let mut members = vec![
        member("id", Json::Text("mix".to_string())),
        member("type", Json::Text("set_param".to_string())),
        member(
            "value",
            Json::Number {
                float: Some(1.5f64.to_bits()),
                whole: None,
            },
        ),
    ];
    assert!(matches!(
        read_message(&members),
        UiMessage::SetParam {
            param: ParamId::Mix,
            value: NewValue::Number(b)
        } if b == 1.5f64.to_bits()
    ));
    members[2] = member("value", Json::Array);
    match read_message(&members) {
        UiMessage::BadValue { id, shown } => {
            assert_eq!((id.as_str(), shown.as_deref()), ("mix", Some("...")))
        }
        other => panic!("{other:?}"),
    }
}

fn bits(x: f32) -> Bits32 {
    Bits32 { bits: x.to_bits() }
}

#[test]
fn a_window_keeps_to_its_bounds() {
    let mut editor = WettBoiEditor::new(Some("abc".to_string()));
    assert_eq!(editor.size(), (1280, 720));
    assert_eq!(editor.scale_factor(), bits(1.0));
    assert_eq!(editor.set_size(10, 10_000), (600, 1600));
    assert_eq!(editor.size(), (600, 1600));
    assert_eq!(editor.set_size(1000, 500), (1000, 500));
    assert!(editor.set_scale_factor(bits(0.0)));
    assert_eq!(editor.scale_factor(), bits(0.5));
    editor.set_scale_factor(bits(9.0));
    assert_eq!(editor.scale_factor(), bits(4.0));
    editor.set_scale_factor(bits(1.5));
    assert_eq!(editor.scale_factor(), bits(1.5));
    assert!(editor.url().contains("?token=abc&v="));
    assert!(WettBoiEditor::new(None).url().contains("wettboi?v="));
}

#[test]
fn pixels_are_whole() {
    for x in [0.0f32, 0.99, 1.0, 1919.9, 5_000_000_000.0, -3.0, f32::NAN, f32::INFINITY] {
        assert_eq!(to_pixels(bits(x)), x as u32, "{x}");
    }
}

#[test]
fn a_window_has_three_folders_to_try() {
    assert_eq!(
        data_dir_names("wettboi-webview2", 1_790_080_267_000_000_000),
        vec![
            "wettboi-webview2".to_string(),
            "wettboi-webview2-2".to_string(),
            "wettboi-webview2-1790080267000000000".to_string(),
        ]
    );
    assert_eq!(data_dir_names("x", u128::MAX)[2], format!("x-{}", u128::MAX));
}

#[test]
fn the_log_holds_no_token() {
    let cut = handle_ipc(r#"{"type":"save_token","token":"abc123""#);
    assert!(matches!(cut, UiMessage::Malformed { .. }));
    assert_eq!(
        log_of(&cut),
        ["[HardwaveWettBoi] IPC parse error: EOF while parsing an object at line 1 column 37"]
    );
    for (raw, why) in [
        ("", "EOF while parsing a value at line 1 column 0"),
        ("abc123", "expected value at line 1 column 1"),
        ("{}\n abc123", "trailing characters at line 2 column 2"),
        (r#"{"token":"abc123}"#, "EOF while parsing a string at line 1 column 17"),
        (r#"{"token":"abc123",}"#, "trailing comma at line 1 column 19"),
        (r#"{"token" "abc123"}"#, "expected `:` at line 1 column 10"),
        (r#"{abc123:1}"#, "key must be a string at line 1 column 2"),
        (r#"["\q"]"#, "invalid escape at line 1 column 4"),
        ("1e999", "number out of range at line 1 column 5"),
        ("01", "invalid number at line 1 column 2"),
    ] {
        assert_eq!(
            log_of(&handle_ipc(raw)),
            [format!("[HardwaveWettBoi] IPC parse error: {why}")],
            "{raw}"
        );
    }
    let whole = handle_ipc(r#"{"type":"save_token","token":"abc123"}"#);
    assert_eq!(
        log_of(&whole),
        ["[HardwaveWettBoi] IPC save_token: persisting to disk"]
    );
    assert_eq!(
        log_of(&handle_ipc(r#"{"type":"clear_token"}"#)),
        ["[HardwaveWettBoi] IPC clear_token: removing from disk"]
    );
}

#[test]
fn the_log_says_what_was_asked_for() {
    let none: [String; 0] = [];
    assert_eq!(
        log_of(&handle_ipc(r#"{"type":"set_param","id":"mix","value":1}"#)),
        none
    );
    assert_eq!(log_of(&handle_ipc(r#"{"type":"release_focus"}"#)), none);
    for (value, shown) in [
        (r#","value":"?""#, r#"Some(String("?"))"#),
        (r#","value":"a\"b""#, r#"Some(String("a\"b"))"#),
        (r#","value":null"#, "Some(Null)"),
        (r#","value":[1,true]"#, "Some(Array [Number(1), Bool(true)])"),
        (r#","value":{"a":0.5}"#, r#"Some(Object {"a": Number(0.5)})"#),
        ("", "None"),
    ] {
        let raw = format!(r#"{{"type":"set_param","id":"mix"{value}}}"#);
        assert_eq!(
            log_of(&handle_ipc(&raw)),
            [format!(
                "[HardwaveWettBoi] IPC set_param 'mix': could not parse value {shown}"
            )]
        );
    }
    assert_eq!(
        log_of(&handle_ipc(r#"{"type":"set_param","id":"no","value":1}"#)),
        ["[HardwaveWettBoi] IPC set_param: unknown param id 'no'"]
    );
    assert_eq!(
        log_of(&handle_ipc(r#"{"type":"dance"}"#)),
        ["[HardwaveWettBoi] IPC unknown message type: 'dance'"]
    );
    assert_eq!(
        log_of(&UiMessage::Resize { width: 1000, height: 700 }),
        ["[HardwaveWettBoi] IPC resize: 1000x700"]
    );
    let lines = log_of(&UiMessage::ResizeRefused { width: 1, height: 2 });
    assert_eq!(lines.len(), 2);
    assert_eq!(lines[0], "[HardwaveWettBoi] IPC resize: 1x2");
    assert!(lines[1].starts_with("[HardwaveWettBoi] IPC resize: out of bounds (1x2 not in "));
}
