//! What is said of a crash: to the file on the user's machine, and to those who
//! can mend it.

use std::collections::hash_map::DefaultHasher;
use std::hash::Hasher;

use vstd::arithmetic::power2;
use vstd::prelude::*;
use vstd::std_specs::hash::DefaultHasherAdditionalSpecFns;
use vstd::string::StringSliceAdditionalSpecFns;
use vstd::utf8;

use crate::protocol::VERSION;
use crate::text;

verus! {

/// Where crash reports go.
pub const ENDPOINT: &'static str = "https://hardwavestudios.com/api/telemetry/crash";

/// How many bytes of a stack trace are sent.
pub const MAX_STACK_BYTES: usize = 8192;

/// Are reports switched off? They are where somebody asked for none, and where
/// cargo runs the process: it names the package to the tests it runs, and a DAW
/// does not.
pub fn reporting_disabled(asked_for_none: bool, has_manifest_dir: bool, has_pkg_name: bool) -> (r:
    bool)
    ensures
        r == (asked_for_none || (has_manifest_dir && has_pkg_name)),
{
    asked_for_none || (has_manifest_dir && has_pkg_name)
}

/// A path with slashes only.
pub open spec fn with_slashes(path: Seq<char>) -> Seq<char> {
    Seq::new(
        path.len(),
        |i: int|
            if path[i] == '\\' {
                '/'
            } else {
                path[i]
            },
    )
}

/// A path that cargo builds into: a test harness sits in `deps`, a local build
/// in `debug` or `release`.
pub open spec fn is_build_output(path: Seq<char>) -> bool {
    let p = with_slashes(path);
    ||| text::contains_text(p, "/deps/"@)
    ||| text::contains_text(p, "/debug/"@)
    ||| text::contains_text(p, "/release/"@)
}

/// Is the running program, where its path is known, one of our own builds? In
/// the field it is a DAW.
pub fn is_our_own_build(exe: Option<&str>) -> (r: bool)
    ensures
        r == (match exe {
            Some(path) => is_build_output(path@),
            None => false,
        }),
{
    match exe {
        Some(path) => {
            let mut p: Vec<char> = Vec::new();
            for c in it: path.chars()
                invariant
                    it.seq() == path@,
                    p@ == with_slashes(path@).take(it.index()),
            {
                p.push(
                    if c == '\\' {
                        '/'
                    } else {
                        c
                    },
                );
            }
            assert(with_slashes(path@).take(path@.len() as int) =~= with_slashes(path@));
            text::contains(&p, "/deps/") || text::contains(&p, "/debug/") || text::contains(
                &p,
                "/release/",
            )
        },
        None => false,
    }
}

/// A machine id: 64 hexadecimal digits.
pub open spec fn is_machine_id(id: Seq<char>) -> bool {
    id.len() == 64 && forall|i: int| 0 <= i < 64 ==> text::is_hex_digit(#[trigger] id[i])
}

/// The machine id in a file: its text without white space around it and in lower
/// case, where that is one.
///
/// No letter outside ASCII has a hexadecimal digit for its lower case, so that
/// only ASCII letters need to be lowered.
pub fn known_machine_id(contents: &str) -> (r: Option<String>)
    ensures
        ({
            let id = text::ascii_lowercase(text::trimmed(contents@));
            match r {
                Some(s) => is_machine_id(id) && s@ == id,
                None => !is_machine_id(id),
            }
        }),
{
    let t = text::trim(contents);
    let ghost id = text::ascii_lowercase(text::trimmed(contents@));
    let mut low: Vec<char> = Vec::new();
    let mut i: usize = 0;
    while i < t.len()
        invariant
            i <= t@.len(),
            t@ == text::trimmed(contents@),
            id == text::ascii_lowercase(t@),
            low@ == id.take(i as int),
            forall|j: int| 0 <= j < i ==> text::is_hex_digit(#[trigger] id[j]),
        decreases t@.len() - i,
    {
        let c = text::to_lower_char(t[i]);
        if !text::hex_digit(c) {
            assert(!text::is_hex_digit(id[i as int]));
            return None;
        }
        low.push(c);
        i += 1;
    }
    assert(id.take(i as int) =~= id);
    if low.len() == 64 {
        Some(text::from_chars(low.as_slice()))
    } else {
        None
    }
}

/// Bytes as hexadecimal digits, two for each.
pub open spec fn hex_of(bytes: Seq<u8>) -> Seq<char>
    decreases bytes.len(),
{
    if bytes.len() == 0 {
        Seq::empty()
    } else {
        hex_of(bytes.drop_last()) + text::hex(bytes.last() as nat, 2)
    }
}

/// A machine id out of 32 random bytes, or of zeros where there are none.
pub fn new_machine_id(random: Option<[u8; 32]>) -> (r: String)
    ensures
        r@ == (match random {
            Some(bytes) => hex_of(bytes@),
            None => text::zeros(64),
        }),
{
    let mut r = String::new();
    match random {
        Some(bytes) => {
            let mut i: usize = 0;
            assert(bytes@.take(0) =~= Seq::empty());
            while i < 32
                invariant
                    i <= 32,
                    r@ == hex_of(bytes@.take(i as int)),
                decreases 32 - i,
            {
                assert(bytes@.take(i + 1).drop_last() =~= bytes@.take(i as int));
                text::push_hex(&mut r, bytes[i] as u64, 2);
                i += 1;
            }
            assert(bytes@.take(32) =~= bytes@);
        },
        None => {
            let mut i: usize = 0;
            while i < 64
                invariant
                    i <= 64,
                    r@ == text::zeros(i as int),
                decreases 64 - i,
            {
                r.push('0');
                i += 1;
                assert(r@ =~= text::zeros(i as int));
            }
        },
    }
    r
}

/// Hexadecimal digits are hexadecimal digits, and as many as were asked for.
proof fn lemma_hex(n: nat, count: nat)
    ensures
        text::hex(n, count).len() == count,
        forall|i: int| 0 <= i < count ==> text::is_hex_digit(#[trigger] text::hex(n, count)[i]),
        text::ascii_lowercase(text::hex(n, count)) == text::hex(n, count),
    decreases count,
{
    if count > 0 {
        lemma_hex(n / 16, (count - 1) as nat);
        assert forall|i: int| 0 <= i < count implies text::is_hex_digit(
            #[trigger] text::hex(n, count)[i],
        ) && text::lower_char(text::hex(n, count)[i]) == text::hex(n, count)[i] by {
            if i < count - 1 {
                assert(text::hex(n, count)[i] == text::hex(n / 16, (count - 1) as nat)[i]);
                assert(text::ascii_lowercase(text::hex(n / 16, (count - 1) as nat))[i]
                    == text::hex(n / 16, (count - 1) as nat)[i]);
            }
        }
    }
    assert(text::ascii_lowercase(text::hex(n, count)) =~= text::hex(n, count));
}

/// The digits of bytes.
proof fn lemma_hex_of(bytes: Seq<u8>)
    ensures
        hex_of(bytes).len() == 2 * bytes.len(),
        forall|i: int| 0 <= i < 2 * bytes.len() ==> text::is_hex_digit(#[trigger] hex_of(bytes)[i]),
        text::ascii_lowercase(hex_of(bytes)) == hex_of(bytes),
    decreases bytes.len(),
{
    if bytes.len() > 0 {
        let less = hex_of(bytes.drop_last());
        let two = text::hex(bytes.last() as nat, 2);
        lemma_hex_of(bytes.drop_last());
        lemma_hex(bytes.last() as nat, 2);
        assert forall|i: int| 0 <= i < 2 * bytes.len() implies text::is_hex_digit(
            #[trigger] hex_of(bytes)[i],
        ) && text::lower_char(hex_of(bytes)[i]) == hex_of(bytes)[i] by {
            if i < less.len() {
                assert(hex_of(bytes)[i] == less[i]);
                assert(text::ascii_lowercase(less)[i] == less[i]);
            } else {
                assert(hex_of(bytes)[i] == two[i - less.len()]);
                assert(text::ascii_lowercase(two)[i - less.len()] == two[i - less.len()]);
            }
        }
    }
    assert(text::ascii_lowercase(hex_of(bytes)) =~= hex_of(bytes));
}

/// Digits hold no white space.
proof fn lemma_no_white_space(s: Seq<char>)
    requires
        forall|i: int| 0 <= i < s.len() ==> text::is_hex_digit(#[trigger] s[i]),
    ensures
        text::trimmed(s) == s,
{
    if s.len() > 0 {
        assert(text::is_hex_digit(s[0]));
        assert(text::is_hex_digit(s[s.len() - 1]));
    }
}

/// Is a machine id kept on disk? One without random bytes is not: the next start
/// may have some.
pub fn is_kept(random: &Option<[u8; 32]>) -> (r: bool)
    ensures
        r == (*random is Some),
{
    random.is_some()
}

/// A machine id that was written is read again the next time: it is one, and it
/// is found unchanged.
pub proof fn law_a_machine_id_is_kept(bytes: Seq<u8>)
    requires
        bytes.len() == 32,
    ensures
        is_machine_id(hex_of(bytes)),
        text::ascii_lowercase(text::trimmed(hex_of(bytes))) == hex_of(bytes),
{
    lemma_hex_of(bytes);
    lemma_no_white_space(hex_of(bytes));
}

/// What a text adds to a hash: its bytes, and a byte that no text holds behind
/// them.
pub open spec fn hashed(s: Seq<char>) -> Seq<Seq<u8>> {
    seq![utf8::encode_utf8(s), seq![0xffu8]]
}

/// The key of a crash.
pub open spec fn stack_key(plugin_slug: Seq<char>, top_frame: Seq<char>) -> Seq<char> {
    text::hex(
        DefaultHasher::spec_finish(
            hashed(plugin_slug) + hashed(VERSION@) + hashed(top_frame),
        ) as nat,
        16,
    )
}

/// A key for a crash, by which identical ones are counted together: 16
/// hexadecimal digits that follow from the plug-in, its version and the topmost
/// frame of the stack.
pub fn compute_stack_hash(plugin_slug: &str, top_frame: &str) -> (r: String)
    ensures
        r@ == stack_key(plugin_slug@, top_frame@),
{
    let mut h = DefaultHasher::new();
    let end = [0xffu8];
    h.write(plugin_slug.as_bytes());
    h.write(end.as_slice());
    h.write(VERSION.as_bytes());
    h.write(end.as_slice());
    h.write(top_frame.as_bytes());
    h.write(end.as_slice());
    assert(end@ =~= seq![0xffu8]);
    assert(h@ =~= hashed(plugin_slug@) + hashed(VERSION@) + hashed(top_frame@));
    let mut r = String::new();
    text::push_hex(&mut r, h.finish(), 16);
    r
}

/// The key of a crash is always 16 hexadecimal digits in lower case.
pub proof fn law_a_key_has_16_digits(plugin_slug: Seq<char>, top_frame: Seq<char>)
    ensures
        stack_key(plugin_slug, top_frame).len() == 16,
        forall|i: int|
            0 <= i < 16 ==> text::is_hex_digit(#[trigger] stack_key(plugin_slug, top_frame)[i]),
        text::ascii_lowercase(stack_key(plugin_slug, top_frame)) == stack_key(
            plugin_slug,
            top_frame,
        ),
{
    lemma_hex(
        DefaultHasher::spec_finish(
            hashed(plugin_slug) + hashed(VERSION@) + hashed(top_frame),
        ) as nat,
        16,
    );
}

/// The operating system that the plug-in was built for.
#[derive(Clone, Copy, Debug, PartialEq, Eq, Structural)]
pub enum Platform {
    Windows,
    MacOs,
    Linux,
    Other,
}

/// What a crash report calls the machine.
pub fn os_label(platform: Platform, arm64: bool) -> (r: &'static str)
    ensures
        r@ == (match platform {
            Platform::Windows => if arm64 {
                "win-arm64"@
            } else {
                "win-x64"@
            },
            Platform::MacOs => if arm64 {
                "mac-arm64"@
            } else {
                "mac-intel"@
            },
            Platform::Linux => if arm64 {
                "linux-arm64"@
            } else {
                "linux-x64"@
            },
            Platform::Other => "unknown"@,
        }),
{
    match platform {
        Platform::Windows => if arm64 {
            "win-arm64"
        } else {
            "win-x64"
        },
        Platform::MacOs => if arm64 {
            "mac-arm64"
        } else {
            "mac-intel"
        },
        Platform::Linux => if arm64 {
            "linux-arm64"
        } else {
            "linux-x64"
        },
        Platform::Other => "unknown",
    }
}

/// The last place from `max` down where a text can be cut.
pub open spec fn cut_at(bytes: Seq<u8>, max: int) -> int
    decreases max,
{
    if max <= 0 || utf8::is_char_boundary(bytes, max) {
        max
    } else {
        cut_at(bytes, max - 1)
    }
}

/// The bytes of a text, cut to at most `max` of them between two characters.
pub open spec fn cut(bytes: Seq<u8>, max: int) -> Seq<u8> {
    if bytes.len() <= max {
        bytes
    } else {
        bytes.take(cut_at(bytes, max))
    }
}

/// A text, cut to at most `max` bytes between two characters.
pub fn truncate(s: &str, max: usize) -> (r: String)
    ensures
        utf8::encode_utf8(r@) == cut(utf8::encode_utf8(s@), max as int),
{
    let bytes = s.as_bytes();
    if bytes.len() <= max {
        return s.to_string();
    }
    proof {
        utf8::encode_utf8_valid_utf8(s@);
    }
    let mut end: usize = max;
    while end > 0 && !s.is_char_boundary(end)
        invariant
            bytes@ == utf8::encode_utf8(s@),
            end <= max,
            max < bytes@.len(),
            cut_at(bytes@, max as int) == cut_at(bytes@, end as int),
        decreases end,
    {
        end -= 1;
    }
    assert(bytes@.take(end as int) =~= bytes@.subrange(0, end as int));
    let (head, _) = s.split_at(end);
    head.to_string()
}

/// A text that was cut fits, and is the start of what it was cut from.
pub proof fn law_a_cut_text_fits(bytes: Seq<u8>, max: nat)
    ensures
        cut(bytes, max as int).len() <= max,
        cut(bytes, max as int) == bytes.take(cut(bytes, max as int).len() as int),
{
    if bytes.len() > max {
        lemma_cut_at(bytes, max as int);
    } else {
        assert(bytes.take(bytes.len() as int) =~= bytes);
    }
}

/// The place to cut at is no further on than it may be.
proof fn lemma_cut_at(bytes: Seq<u8>, max: int)
    requires
        max >= 0,
    ensures
        0 <= cut_at(bytes, max) <= max,
    decreases max,
{
    if max > 0 && !utf8::is_char_boundary(bytes, max) {
        lemma_cut_at(bytes, max - 1);
    }
}

/// What is known of a crash.
#[derive(Clone, Debug)]
pub struct CrashReport {
    pub machine_id: String,
    pub plugin_slug: String,
    pub os: String,
    pub top_frame: String,
    pub message: String,
    pub stack: String,
}

/// The members of an object, each a name and a text.
pub open spec fn fields_view(fields: Seq<(String, String)>) -> Seq<(Seq<char>, Seq<char>)> {
    Seq::new(fields.len(), |i: int| (fields[i].0@, fields[i].1@))
}

/// The members of a report: what is known of the crash, the version of the
/// plug-in, the key by which it is counted, and no more of the stack than is
/// sent.
pub open spec fn fields_of(report: CrashReport) -> Seq<(Seq<char>, Seq<char>)> {
    seq![
        ("machine_id"@, report.machine_id@),
        ("plugin_slug"@, report.plugin_slug@),
        ("version"@, VERSION@),
        ("os"@, report.os@),
        ("top_frame"@, report.top_frame@),
        ("message"@, report.message@),
        ("stack_hash"@, stack_key(report.plugin_slug@, report.top_frame@)),
        (
            "stack"@,
            utf8::decode_utf8(cut(utf8::encode_utf8(report.stack@), MAX_STACK_BYTES as int)),
        ),
    ]
}

/// One member.
fn field(name: &str, value: &str) -> (r: (String, String))
    ensures
        r.0@ == name@,
        r.1@ == value@,
{
    (name.to_string(), value.to_string())
}

/// The members of a report.
pub fn report_fields(report: &CrashReport) -> (r: Vec<(String, String)>)
    ensures
        fields_view(r@) == fields_of(*report),
{
    let key = compute_stack_hash(report.plugin_slug.as_str(), report.top_frame.as_str());
    let stack = truncate(report.stack.as_str(), MAX_STACK_BYTES);
    let mut r: Vec<(String, String)> = Vec::new();
    r.push(field("machine_id", report.machine_id.as_str()));
    r.push(field("plugin_slug", report.plugin_slug.as_str()));
    r.push(field("version", VERSION));
    r.push(field("os", report.os.as_str()));
    r.push(field("top_frame", report.top_frame.as_str()));
    r.push(field("message", report.message.as_str()));
    r.push(field("stack_hash", key.as_str()));
    r.push(field("stack", stack.as_str()));
    proof {
        utf8::encode_utf8_decode_utf8(stack@);
    }
    assert(fields_view(r@) =~= fields_of(*report));
    r
}

/// The JSON text of an object whose members are all texts, as `serde_json`
/// writes it.
pub uninterp spec fn object_text(fields: Seq<(Seq<char>, Seq<char>)>) -> Seq<char>;

/// `serde_json::Value::to_string` on an object whose members are all texts.
///
/// The contract only names the result, as a function of the names and texts in
/// their order: how strings are escaped and in which order the members stand is
/// up to the outside crate.
#[verifier::external_body]
fn write_object(fields: &Vec<(String, String)>) -> (r: String)
    ensures
        r@ == object_text(fields_view(fields@)),
{
    let members: serde_json::Map<String, serde_json::Value> = fields.iter().map(
        |(name, value)| (name.clone(), serde_json::Value::String(value.clone())),
    ).collect();
    serde_json::Value::Object(members).to_string()
}

/// The body of a report, as JSON.
pub fn report_body(report: &CrashReport) -> (r: String)
    ensures
        r@ == object_text(fields_of(*report)),
{
    let fields = report_fields(report);
    write_object(&fields)
}

/// A program under `deps`, `debug` or `release` is one of our own builds, wherever
/// that stands in its path and whichever way its slashes lean; any other is not.
pub proof fn law_our_own_builds_are_told_apart(a: Seq<char>, b: Seq<char>, path: Seq<char>)
    ensures
        is_build_output(a + "/deps/"@ + b),
        is_build_output(a + "/debug/"@ + b),
        is_build_output(a + "/release/"@ + b),
        is_build_output(a + "\\deps\\"@ + b),
        is_build_output(a + "\\debug\\"@ + b),
        is_build_output(a + "\\release\\"@ + b),
        is_build_output(path) ==> text::contains_text(with_slashes(path), "/deps/"@)
            || text::contains_text(with_slashes(path), "/debug/"@) || text::contains_text(
            with_slashes(path),
            "/release/"@,
        ),
        with_slashes(path).len() == path.len(),
        forall|i: int|
            0 <= i < path.len() ==> #[trigger] with_slashes(path)[i] == (if path[i] == '\\' {
                '/'
            } else {
                path[i]
            }),
{
    reveal_strlit("/deps/");
    reveal_strlit("\\deps\\");
    assert(with_slashes(a + "/deps/"@ + b) =~= with_slashes(a) + "/deps/"@ + with_slashes(b));
    assert(with_slashes(a + "\\deps\\"@ + b) =~= with_slashes(a) + "/deps/"@ + with_slashes(b));
    text::law_a_text_stands_in_what_is_put_around_it(with_slashes(a), "/deps/"@, with_slashes(b));
    reveal_strlit("/debug/");
    reveal_strlit("\\debug\\");
    assert(with_slashes(a + "/debug/"@ + b) =~= with_slashes(a) + "/debug/"@ + with_slashes(b));
    assert(with_slashes(a + "\\debug\\"@ + b) =~= with_slashes(a) + "/debug/"@ + with_slashes(b));
    text::law_a_text_stands_in_what_is_put_around_it(with_slashes(a), "/debug/"@, with_slashes(b));
    reveal_strlit("/release/");
    reveal_strlit("\\release\\");
    assert(with_slashes(a + "/release/"@ + b) =~= with_slashes(a) + "/release/"@ + with_slashes(b));
    assert(with_slashes(a + "\\release\\"@ + b) =~= with_slashes(a) + "/release/"@ + with_slashes(b));
    text::law_a_text_stands_in_what_is_put_around_it(with_slashes(a), "/release/"@, with_slashes(b));
}

/// A text is cut as late as it can be: there is no later place up to `max` where it
/// could have been cut, and it is cut between two characters.
pub proof fn law_a_text_is_cut_as_late_as_it_can_be(bytes: Seq<u8>, max: nat, k: int)
    requires
        bytes.len() > max,
        cut(bytes, max as int).len() < k <= max,
    ensures
        !utf8::is_char_boundary(bytes, k),
{
    lemma_cut_at(bytes, max as int);
    lemma_no_later_cut(bytes, max as int, k);
}

proof fn lemma_no_later_cut(bytes: Seq<u8>, max: int, k: int)
    requires
        cut_at(bytes, max) < k <= max,
    ensures
        !utf8::is_char_boundary(bytes, k),
    decreases max,
{
    if max > 0 && !utf8::is_char_boundary(bytes, max) && k < max {
        lemma_no_later_cut(bytes, max - 1, k);
    }
}

/// A text is cut between two characters, and not at all where it fits.
pub proof fn law_a_text_that_fits_is_not_cut(bytes: Seq<u8>, max: nat)
    ensures
        bytes.len() <= max ==> cut(bytes, max as int) == bytes,
        bytes.len() > max && cut(bytes, max as int).len() > 0 ==> utf8::is_char_boundary(
            bytes,
            cut(bytes, max as int).len() as int,
        ),
{
    if bytes.len() > max {
        lemma_cut_at(bytes, max as int);
        if cut_at(bytes, max as int) > 0 {
            lemma_cut_is_boundary(bytes, max as int);
        }
    }
}

proof fn lemma_cut_is_boundary(bytes: Seq<u8>, max: int)
    requires
        cut_at(bytes, max) > 0,
    ensures
        utf8::is_char_boundary(bytes, cut_at(bytes, max)),
    decreases max,
{
    if max > 0 && !utf8::is_char_boundary(bytes, max) {
        lemma_cut_is_boundary(bytes, max - 1);
    }
}

/// A report says all that is known of a crash under its own name, whole and
/// unchanged, and of the stack the first 8192 bytes; a stack that fits is whole.
pub proof fn law_a_report_says_all(report: CrashReport)
    ensures
        ({
            let f = fields_of(report);
            &&& f.len() == 8
            &&& f.contains(("machine_id"@, report.machine_id@))
            &&& f.contains(("plugin_slug"@, report.plugin_slug@))
            &&& f.contains(("version"@, "0.4.4"@))
            &&& f.contains(("os"@, report.os@))
            &&& f.contains(("top_frame"@, report.top_frame@))
            &&& f.contains(("message"@, report.message@))
            &&& f.contains(
                ("stack_hash"@, stack_key(report.plugin_slug@, report.top_frame@)),
            )
            &&& utf8::encode_utf8(report.stack@).len() <= 8192 ==> f.contains(
                ("stack"@, report.stack@),
            )
            &&& f[7].0 == "stack"@
            &&& f[7].1 == utf8::decode_utf8(cut(utf8::encode_utf8(report.stack@), 8192))
        }),
{
    let f = fields_of(report);
    utf8::encode_utf8_decode_utf8(report.stack@);
    assert(f[0] == ("machine_id"@, report.machine_id@));
    assert(f[1] == ("plugin_slug"@, report.plugin_slug@));
    assert(f[2] == ("version"@, "0.4.4"@));
    assert(f[3] == ("os"@, report.os@));
    assert(f[4] == ("top_frame"@, report.top_frame@));
    assert(f[5] == ("message"@, report.message@));
    assert(f[6] == ("stack_hash"@, stack_key(report.plugin_slug@, report.top_frame@)));
    if utf8::encode_utf8(report.stack@).len() <= 8192 {
        assert(f[7] == ("stack"@, report.stack@));
    }
}

/// The key of a crash spells the hash of the plug-in, its version and the topmost
/// frame, each with a byte behind it that no text holds: what else is known of the
/// crash has no part in it.
pub proof fn law_a_key_is_the_hash_of_where_it_was(plugin_slug: Seq<char>, top_frame: Seq<char>)
    ensures
        text::hex_spelled(stack_key(plugin_slug, top_frame)) == DefaultHasher::spec_finish(
            seq![
                utf8::encode_utf8(plugin_slug),
                seq![0xffu8],
                utf8::encode_utf8("0.4.4"@),
                seq![0xffu8],
                utf8::encode_utf8(top_frame),
                seq![0xffu8],
            ],
        ),
{
    let parts = hashed(plugin_slug) + hashed(VERSION@) + hashed(top_frame);
    assert(parts =~= seq![
        utf8::encode_utf8(plugin_slug),
        seq![0xffu8],
        utf8::encode_utf8("0.4.4"@),
        seq![0xffu8],
        utf8::encode_utf8(top_frame),
        seq![0xffu8],
    ]);
    let n = DefaultHasher::spec_finish(parts) as nat;
    power2::lemma2_to64();
    assert(n < power2::pow2(64));
    text::law_hex_digits_spell_their_number(n, 16);
}

/// A machine id spells its bytes, two digits for each, in order; without random bytes
/// it is 64 zeros.
pub proof fn law_a_machine_id_spells_its_bytes(bytes: Seq<u8>, i: int)
    requires
        0 <= i < bytes.len(),
    ensures
        hex_of(bytes).len() == 2 * bytes.len(),
        text::hex_spelled(hex_of(bytes).subrange(2 * i, 2 * i + 2)) == bytes[i],
        text::zeros(64).len() == 64,
        forall|k: int| 0 <= k < 64 ==> #[trigger] text::zeros(64)[k] == '0',
    decreases bytes.len(),
{
    lemma_hex_of(bytes);
    let less = bytes.drop_last();
    lemma_hex_of(less);
    let two = text::hex(bytes.last() as nat, 2);
    power2::lemma2_to64();
    text::law_hex_digits_spell_their_number(bytes.last() as nat, 2);
    let all = hex_of(bytes);
    assert(all == hex_of(less) + two);
    if i < less.len() {
        law_a_machine_id_spells_its_bytes(less, i);
        assert(all.subrange(2 * i, 2 * i + 2) =~= hex_of(less).subrange(2 * i, 2 * i + 2));
    } else {
        assert(all.subrange(2 * i, 2 * i + 2) =~= two);
    }
}

/// A machine id is 64 characters, each of them a hexadecimal digit; a text with any
/// other character in it, at whatever place, is none.
pub proof fn law_a_machine_id_is_digits_throughout(id: Seq<char>, i: int)
    ensures
        is_machine_id(id) ==> id.len() == 64,
        is_machine_id(id) && 0 <= i < id.len() ==> "0123456789abcdefABCDEF"@.contains(id[i]),
        id.len() == 64 && (forall|k: int|
            0 <= k < id.len() ==> "0123456789abcdefABCDEF"@.contains(#[trigger] id[k]))
            ==> is_machine_id(id),
{
    assert forall|k: int| 0 <= k < id.len() implies text::is_hex_digit(#[trigger] id[k])
        == "0123456789abcdefABCDEF"@.contains(id[k]) by {
        text::law_a_hex_digit_is_listed(id[k]);
    }
}

}
