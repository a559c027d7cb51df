//! What a crash leaves on the user's machine.

use vstd::prelude::*;

use crate::protocol::VERSION;
use crate::text;

verus! {

/// A moment, in seconds since 1970.
pub open spec fn moment(secs: nat) -> Seq<char> {
    text::decimal(secs) + " (unix)"@
}

/// A moment, in seconds since 1970.
pub fn unix_timestamp(secs: u64) -> (r: String)
    ensures
        r@ == moment(secs as nat),
{
    let mut r = String::new();
    text::push_decimal(&mut r, secs as u128);
    r.append(" (unix)");
    r
}

/// Where in the code something happened.
pub open spec fn place(file: Seq<char>, line: nat, column: nat) -> Seq<char> {
    file + ":"@ + text::decimal(line) + ":"@ + text::decimal(column)
}

/// Where in the code something happened, or what is said where that is not
/// known.
pub fn location_text(place: Option<(&str, u32, u32)>, unknown: &str) -> (r: String)
    ensures
        r@ == (match place {
            Some((file, line, column)) => self::place(file@, line as nat, column as nat),
            None => unknown@,
        }),
{
    match place {
        Some((file, line, column)) => {
            let mut r = file.to_string();
            r.append(":");
            text::push_decimal(&mut r, line as u128);
            r.append(":");
            text::push_decimal(&mut r, column as u128);
            r
        },
        None => unknown.to_string(),
    }
}

/// What a panic says, where it says anything.
pub fn panic_message(message: Option<&str>) -> (r: String)
    ensures
        r@ == (match message {
            Some(m) => m@,
            None => "unknown panic"@,
        }),
{
    match message {
        Some(m) => m.to_string(),
        None => "unknown panic".to_string(),
    }
}

/// What is known of a crash.
#[derive(Clone, Debug)]
pub struct Crash {
    pub secs: u64,
    pub os: String,
    pub arch: String,
    pub location: String,
    pub message: String,
    pub backtrace: String,
}

/// The rule above and below an entry.
pub const RULE: &'static str = "========================================\n";

/// One line of an entry: what it is about, and what there is to say.
pub open spec fn entry_line(about: Seq<char>, what: Seq<char>) -> Seq<char> {
    about + what + "\n"@
}

/// One entry of the log.
pub open spec fn entry(crash: Crash) -> Seq<char> {
    RULE@ + "HARDWAVE WETTBOI CRASH REPORT\n"@ + entry_line("Time:     "@, moment(crash.secs as nat))
        + entry_line("Version:  "@, VERSION@) + entry_line("OS:       "@, crash.os@) + entry_line(
        "Arch:     "@,
        crash.arch@,
    ) + entry_line("Location: "@, crash.location@) + entry_line("Message:  "@, crash.message@)
        + "\n"@ + "Backtrace:\n"@ + entry_line(""@, crash.backtrace@) + RULE@ + "\n"@
}

/// Append one line of an entry.
fn push_line(out: &mut String, about: &str, what: &str)
    ensures
        final(out)@ == old(out)@ + entry_line(about@, what@),
{
    let ghost before = out@;
    out.append(about);
    out.append(what);
    out.append("\n");
    assert(out@ =~= before + entry_line(about@, what@));
}

/// One entry of the log.
pub fn crash_entry(crash: &Crash) -> (r: String)
    ensures
        r@ == entry(*crash),
{
    let time = unix_timestamp(crash.secs);
    let mut r = RULE.to_string();
    r.append("HARDWAVE WETTBOI CRASH REPORT\n");
    push_line(&mut r, "Time:     ", time.as_str());
    push_line(&mut r, "Version:  ", VERSION);
    push_line(&mut r, "OS:       ", crash.os.as_str());
    push_line(&mut r, "Arch:     ", crash.arch.as_str());
    push_line(&mut r, "Location: ", crash.location.as_str());
    push_line(&mut r, "Message:  ", crash.message.as_str());
    r.append("\n");
    r.append("Backtrace:\n");
    push_line(&mut r, "", crash.backtrace.as_str());
    r.append(RULE);
    r.append("\n");
    r
}

/// The note that tells the next run that there was a crash.
pub fn pending_note(secs: u64) -> (r: String)
    ensures
        r@ == "wettboi\n"@ + VERSION@ + "\n"@ + moment(secs as nat),
{
    let time = unix_timestamp(secs);
    let mut r = "wettboi\n".to_string();
    r.append(VERSION);
    r.append("\n");
    r.append(time.as_str());
    r
}

/// An entry says all that is known of a crash, whole and unchanged: when it was, on
/// what, where, what was said, and the whole backtrace.
pub proof fn law_an_entry_says_all(crash: Crash)
    ensures
        text::contains_text(entry(crash), crash.message@),
        text::contains_text(entry(crash), crash.backtrace@),
        text::contains_text(entry(crash), crash.location@),
        text::contains_text(entry(crash), crash.os@),
        text::contains_text(entry(crash), crash.arch@),
        text::contains_text(entry(crash), "0.4.4"@),
        text::contains_text(entry(crash), text::decimal(crash.secs as nat)),
{
    let p0 = RULE@ + "HARDWAVE WETTBOI CRASH REPORT\n"@;
    let l0 = entry_line("Time:     "@, moment(crash.secs as nat));
    let p1 = p0 + l0;
    let l1 = entry_line("Version:  "@, VERSION@);
    let p2 = p1 + l1;
    let l2 = entry_line("OS:       "@, crash.os@);
    let p3 = p2 + l2;
    let l3 = entry_line("Arch:     "@, crash.arch@);
    let p4 = p3 + l3;
    let l4 = entry_line("Location: "@, crash.location@);
    let p5 = p4 + l4;
    let l5 = entry_line("Message:  "@, crash.message@);
    let p6 = p5 + l5;
    let l6 = "\n"@;
    let p7 = p6 + l6;
    let l7 = "Backtrace:\n"@;
    let p8 = p7 + l7;
    let l8 = entry_line(""@, crash.backtrace@);
    let p9 = p8 + l8;
    let l9 = RULE@;
    let p10 = p9 + l9;
    let l10 = "\n"@;
    let p11 = p10 + l10;
    assert(entry(crash) == p11);
    lemma_whole(text::decimal(crash.secs as nat));
    lemma_before(text::decimal(crash.secs as nat), " (unix)"@, text::decimal(crash.secs as nat));
    lemma_behind("Time:     "@, moment(crash.secs as nat), text::decimal(crash.secs as nat));
    lemma_before("Time:     "@ + moment(crash.secs as nat), "\n"@, text::decimal(crash.secs as nat));
    lemma_behind(p0, l0, text::decimal(crash.secs as nat));
    lemma_before(p1, l1, text::decimal(crash.secs as nat));
    lemma_before(p2, l2, text::decimal(crash.secs as nat));
    lemma_before(p3, l3, text::decimal(crash.secs as nat));
    lemma_before(p4, l4, text::decimal(crash.secs as nat));
    lemma_before(p5, l5, text::decimal(crash.secs as nat));
    lemma_before(p6, l6, text::decimal(crash.secs as nat));
    lemma_before(p7, l7, text::decimal(crash.secs as nat));
    lemma_before(p8, l8, text::decimal(crash.secs as nat));
    lemma_before(p9, l9, text::decimal(crash.secs as nat));
    lemma_before(p10, l10, text::decimal(crash.secs as nat));
    lemma_whole(VERSION@);
    lemma_behind("Version:  "@, VERSION@, VERSION@);
    lemma_before("Version:  "@ + VERSION@, "\n"@, VERSION@);
    lemma_behind(p1, l1, VERSION@);
    lemma_before(p2, l2, VERSION@);
    lemma_before(p3, l3, VERSION@);
    lemma_before(p4, l4, VERSION@);
    lemma_before(p5, l5, VERSION@);
    lemma_before(p6, l6, VERSION@);
    lemma_before(p7, l7, VERSION@);
    lemma_before(p8, l8, VERSION@);
    lemma_before(p9, l9, VERSION@);
    lemma_before(p10, l10, VERSION@);
    lemma_whole(crash.os@);
    lemma_behind("OS:       "@, crash.os@, crash.os@);
    lemma_before("OS:       "@ + crash.os@, "\n"@, crash.os@);
    lemma_behind(p2, l2, crash.os@);
    lemma_before(p3, l3, crash.os@);
    lemma_before(p4, l4, crash.os@);
    lemma_before(p5, l5, crash.os@);
    lemma_before(p6, l6, crash.os@);
    lemma_before(p7, l7, crash.os@);
    lemma_before(p8, l8, crash.os@);
    lemma_before(p9, l9, crash.os@);
    lemma_before(p10, l10, crash.os@);
    lemma_whole(crash.arch@);
    lemma_behind("Arch:     "@, crash.arch@, crash.arch@);
    lemma_before("Arch:     "@ + crash.arch@, "\n"@, crash.arch@);
    lemma_behind(p3, l3, crash.arch@);
    lemma_before(p4, l4, crash.arch@);
    lemma_before(p5, l5, crash.arch@);
    lemma_before(p6, l6, crash.arch@);
    lemma_before(p7, l7, crash.arch@);
    lemma_before(p8, l8, crash.arch@);
    lemma_before(p9, l9, crash.arch@);
    lemma_before(p10, l10, crash.arch@);
    lemma_whole(crash.location@);
    lemma_behind("Location: "@, crash.location@, crash.location@);
    lemma_before("Location: "@ + crash.location@, "\n"@, crash.location@);
    lemma_behind(p4, l4, crash.location@);
    lemma_before(p5, l5, crash.location@);
    lemma_before(p6, l6, crash.location@);
    lemma_before(p7, l7, crash.location@);
    lemma_before(p8, l8, crash.location@);
    lemma_before(p9, l9, crash.location@);
    lemma_before(p10, l10, crash.location@);
    lemma_whole(crash.message@);
    lemma_behind("Message:  "@, crash.message@, crash.message@);
    lemma_before("Message:  "@ + crash.message@, "\n"@, crash.message@);
    lemma_behind(p5, l5, crash.message@);
    lemma_before(p6, l6, crash.message@);
    lemma_before(p7, l7, crash.message@);
    lemma_before(p8, l8, crash.message@);
    lemma_before(p9, l9, crash.message@);
    lemma_before(p10, l10, crash.message@);
    lemma_whole(crash.backtrace@);
    lemma_behind(""@, crash.backtrace@, crash.backtrace@);
    lemma_before(""@ + crash.backtrace@, "\n"@, crash.backtrace@);
    lemma_behind(p8, l8, crash.backtrace@);
    lemma_before(p9, l9, crash.backtrace@);
    lemma_before(p10, l10, crash.backtrace@);
}

/// A text stands in itself.
proof fn lemma_whole(s: Seq<char>)
    ensures
        text::contains_text(s, s),
{
    assert(s.subrange(0, s.len() as int) =~= s);
    assert(text::occurs_at(s, s, 0));
}

/// What stands in a text stands in it with more behind it.
proof fn lemma_before(a: Seq<char>, b: Seq<char>, s: Seq<char>)
    requires
        text::contains_text(a, s),
    ensures
        text::contains_text(a + b, s),
{
    let i = choose|i: int| #[trigger] text::occurs_at(a, s, i);
    assert((a + b).subrange(i, i + s.len()) =~= a.subrange(i, i + s.len()));
    assert(text::occurs_at(a + b, s, i));
}

/// What stands in a text stands in it with more in front of it.
proof fn lemma_behind(a: Seq<char>, b: Seq<char>, s: Seq<char>)
    requires
        text::contains_text(b, s),
    ensures
        text::contains_text(a + b, s),
{
    let i = choose|i: int| #[trigger] text::occurs_at(b, s, i);
    assert((a + b).subrange(i + a.len(), i + a.len() + s.len()) =~= b.subrange(i, i + s.len()));
    assert(text::occurs_at(a + b, s, i + a.len()));
}

/// A moment is its seconds, and a place its file, line and column.
pub proof fn law_a_place_says_where(file: Seq<char>, line: nat, column: nat, secs: nat)
    ensures
        place(file, line, column) == file + ":"@ + text::decimal(line) + ":"@ + text::decimal(
            column,
        ),
        moment(secs) == text::decimal(secs) + " (unix)"@,
{
}

}
