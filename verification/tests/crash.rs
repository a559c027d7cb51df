use std::collections::hash_map::DefaultHasher;
use std::hash::{Hash, Hasher};

use hardwave_wettboi::auth::load_token;
use hardwave_wettboi::crash_log::{
    crash_entry, location_text, panic_message, pending_note, unix_timestamp, Crash,
};
use hardwave_wettboi::crash_reporter::{
    compute_stack_hash, is_kept, is_our_own_build, known_machine_id, new_machine_id, os_label,
    report_body, report_fields, reporting_disabled, truncate, CrashReport, Platform,
};
use hardwave_wettboi::protocol::VERSION;

/// The whole point of the guard: whatever runs the tests is our own build, so a panic here
/// must never reach the crash list.
#[test]
fn test_runs_are_recognised_as_our_own() {
    assert!(
        is_our_own_build(Some("/work/target/debug/deps/state_round_trip-0123456789abcdef")),
        "the test harness must count as our own build"
    );
}

#[test]
fn a_daw_is_not_our_own_build() {
    assert!(!is_our_own_build(Some(
        "C:\\Program Files\\Image-Line\\FL Studio\\FL64.exe"
    )));
    assert!(!is_our_own_build(Some(
        "/Applications/Ableton Live 12.app/Contents/MacOS/Live"
    )));
    assert!(!is_our_own_build(None));
    assert!(is_our_own_build(Some("C:\\work\\target\\release\\tool.exe")));
    assert!(is_our_own_build(Some("/home/x/debug/tool")));
    assert!(!is_our_own_build(Some("/home/x/debugger/tool")));
}

#[test]
fn reports_can_be_switched_off() {
    assert!(!reporting_disabled(false, false, false));
    assert!(reporting_disabled(true, false, false));
    assert!(reporting_disabled(false, true, true));
    assert!(!reporting_disabled(false, true, false));
    assert!(!reporting_disabled(false, false, true));
}

#[test]
fn a_stack_hash_is_that_of_the_three_texts() {
    for (slug, frame) in [("wettboi", "src/lib.rs:12:7"), ("", ""), ("a", "\u{1f3b5}")] {
        let mut h = DefaultHasher::new();
        slug.hash(&mut h);
        VERSION.hash(&mut h);
        frame.hash(&mut h);
        let key = compute_stack_hash(slug, frame);
        assert_eq!(key, format!("{:016x}", h.finish()));
        assert_eq!(key.len(), 16);
    }
    assert_ne!(
        compute_stack_hash("wettboi", "a"),
        compute_stack_hash("wettboi", "b")
    );
}

#[test]
fn a_text_is_cut_between_characters() {
    assert_eq!(truncate("hello", 10), "hello");
    assert_eq!(truncate("hello", 5), "hello");
    assert_eq!(truncate("hello", 3), "hel");
    assert_eq!(truncate("hello", 0), "");
    // Two bytes, three bytes, four bytes.
    assert_eq!(truncate("aä€🎵", 2), "a");
    assert_eq!(truncate("aä€🎵", 3), "aä");
    assert_eq!(truncate("aä€🎵", 5), "aä");
    assert_eq!(truncate("aä€🎵", 6), "aä€");
    assert_eq!(truncate("aä€🎵", 9), "aä€");
    assert_eq!(truncate("aä€🎵", 10), "aä€🎵");
}

#[test]
fn a_machine_id_is_kept_once_it_is_made() {
    let mut bytes = [0u8; 32];
    for (i, b) in bytes.iter_mut().enumerate() {
        *b = (i * 37 + 200) as u8;
    }
    let id = new_machine_id(Some(bytes));
    let expected: String = bytes.iter().map(|b| format!("{:02x}", b)).collect();
    assert_eq!(id, expected);
    assert_eq!(known_machine_id(&id), Some(id.clone()));
    assert_eq!(known_machine_id(&format!("  {}\r\n", id)), Some(id.clone()));
    assert_eq!(known_machine_id(&id.to_uppercase()), Some(id));
    assert!(is_kept(&Some(bytes)));
    assert_eq!(new_machine_id(None), "0".repeat(64));
    assert!(!is_kept(&None));
}

#[test]
fn what_is_no_machine_id_is_not_taken_for_one() {
    assert_eq!(known_machine_id(""), None);
    assert_eq!(known_machine_id(&"0".repeat(63)), None);
    assert_eq!(known_machine_id(&"0".repeat(65)), None);
    assert_eq!(known_machine_id(&"g".repeat(64)), None);
    assert_eq!(known_machine_id(&format!("{} {}", "0".repeat(32), "0".repeat(31))), None);
    // No letter outside ASCII is a hexadecimal digit in lower case.
    for c in '\u{80}'..='\u{10ffff}' {
        assert!(!c.to_lowercase().any(|l| l.is_ascii_hexdigit()));
    }
}

#[test]
fn a_machine_is_named_by_its_system() {
    assert_eq!(os_label(Platform::Windows, false), "win-x64");
    assert_eq!(os_label(Platform::Windows, true), "win-arm64");
    assert_eq!(os_label(Platform::MacOs, false), "mac-intel");
    assert_eq!(os_label(Platform::MacOs, true), "mac-arm64");
    assert_eq!(os_label(Platform::Linux, false), "linux-x64");
    assert_eq!(os_label(Platform::Linux, true), "linux-arm64");
    assert_eq!(os_label(Platform::Other, true), "unknown");
}

fn report() -> CrashReport {
    CrashReport {
        machine_id: "0".repeat(64),
        plugin_slug: "wettboi".to_string(),
        os: "linux-x64".to_string(),
        top_frame: "src/lib.rs:1:2".to_string(),
        message: "index out of bounds \"x\"\n".to_string(),
        stack: "é".repeat(5000),
    }
}

#[test]
fn a_report_holds_what_is_known() {
    let fields = report_fields(&report());
    let names: Vec<&str> = fields.iter().map(|(n, _)| n.as_str()).collect();
    assert_eq!(
        names,
        [
            "machine_id",
            "plugin_slug",
            "version",
            "os",
            "top_frame",
            "message",
            "stack_hash",
            "stack"
        ]
    );
    assert_eq!(fields[2].1, "0.4.4");
    assert_eq!(fields[6].1, compute_stack_hash("wettboi", "src/lib.rs:1:2"));
    assert_eq!(fields[7].1, "é".repeat(4096));
}

#[test]
fn the_body_of_a_report_is_json() {
    let body = report_body(&report());
    let value: serde_json::Value = serde_json::from_str(&body).unwrap();
    let members = value.as_object().unwrap();
    let fields = report_fields(&report());
    assert_eq!(members.len(), fields.len());
    for (name, text) in &fields {
        assert_eq!(members.get(name).and_then(|v| v.as_str()), Some(text.as_str()));
    }
}

#[test]
fn a_crash_leaves_an_entry_in_the_log() {
    let entry = crash_entry(&Crash {
        secs: 1_790_080_267,
        os: "windows".to_string(),
        arch: "x86_64".to_string(),
        location: location_text(Some(("src/lib.rs", 12, 7)), "unknown location"),
        message: panic_message(Some("boom")),
        backtrace: "0: frame".to_string(),
    });
    assert_eq!(
        entry,
        "========================================\n\
         HARDWAVE WETTBOI CRASH REPORT\n\
         Time:     1790080267 (unix)\n\
         Version:  0.4.4\n\
         OS:       windows\n\
         Arch:     x86_64\n\
         Location: src/lib.rs:12:7\n\
         Message:  boom\n\
         \n\
         Backtrace:\n\
         0: frame\n\
         ========================================\n\
         \n"
    );
    assert_eq!(pending_note(5), "wettboi\n0.4.4\n5 (unix)");
    assert_eq!(unix_timestamp(u64::MAX), "18446744073709551615 (unix)");
}

#[test]
fn what_is_not_known_of_a_crash_is_said() {
    assert_eq!(location_text(None, "unknown location"), "unknown location");
    assert_eq!(location_text(None, "unknown"), "unknown");
    assert_eq!(panic_message(None), "unknown panic");
}

#[test]
fn the_own_token_comes_before_that_of_the_suite() {
    let own = Some(" own \n");
    let suite = Some("suite");
    assert_eq!(load_token(own, suite).as_deref(), Some("own"));
    assert_eq!(load_token(None, suite).as_deref(), Some("suite"));
    assert_eq!(load_token(Some(" \t\r\n\u{a0}"), suite).as_deref(), Some("suite"));
    assert_eq!(load_token(Some(""), Some("")), None);
    assert_eq!(load_token(None, None), None);
    assert_eq!(load_token(Some("a b"), None).as_deref(), Some("a b"));
}
