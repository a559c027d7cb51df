//! Whether the interface can be reached: what is asked, and what an answer
//! means.
//!
//! Saying "no" costs the user their whole window, so it is only said when it is
//! sure. The page has a network stack of its own: a slow or half-open network
//! says nothing about whether it would have loaded.

use vstd::prelude::*;

use crate::protocol::VERSION;
use crate::text;

verus! {

/// Where the interface is.
pub const WETTBOI_URL: &'static str = "https://wettboi.hardwavestudios.com/vst/wettboi";

/// The address of the interface with what it is told: the licence token, where
/// there is one, and the version of the plug-in.
pub open spec fn address(token: Option<Seq<char>>) -> Seq<char> {
    match token {
        Some(t) => WETTBOI_URL@ + "?token="@ + t + "&v="@ + VERSION@,
        None => WETTBOI_URL@ + "?v="@ + VERSION@,
    }
}

/// The address of the interface.
pub fn interface_url(token: Option<&str>) -> (r: String)
    ensures
        r@ == address(
            match token {
                Some(t) => Some(t@),
                None => None,
            },
        ),
{
    let mut r = WETTBOI_URL.to_string();
    match token {
        Some(t) => {
            r.append("?token=");
            r.append(t);
            r.append("&v=");
        },
        None => {
            r.append("?v=");
        },
    }
    r.append(VERSION);
    r
}

/// An address up to its query string or fragment.
pub open spec fn bare(url: Seq<char>) -> Seq<char>
    decreases url.len(),
{
    if url.len() == 0 || url[0] == '?' || url[0] == '#' {
        Seq::empty()
    } else {
        seq![url[0]] + bare(url.drop_first())
    }
}

/// An address up to its query string or fragment.
///
/// The query carries the licence token, and asking whether the host answers has
/// no use for it.
pub fn without_query(url: &str) -> (r: String)
    ensures
        r@ == bare(url@),
{
    let chars = text::to_chars(url);
    let mut r = String::new();
    let mut i: usize = 0;
    assert(chars@.skip(0) =~= chars@);
    assert(r@ + bare(chars@) =~= bare(chars@));
    while i < chars.len() && chars[i] != '?' && chars[i] != '#'
        invariant
            i <= chars@.len(),
            chars@ == url@,
            r@ + bare(chars@.skip(i as int)) == bare(chars@),
        decreases chars@.len() - i,
    {
        let ghost rest = chars@.skip(i as int);
        r.push(chars[i]);
        proof {
            assert(rest.drop_first() =~= chars@.skip(i + 1));
            assert(bare(rest) == seq![rest[0]] + bare(rest.drop_first()));
            assert(r@ + bare(chars@.skip(i + 1)) =~= r@.drop_last() + bare(rest));
        }
        i += 1;
    }
    assert(bare(chars@.skip(i as int)) =~= Seq::empty());
    assert(r@ + Seq::<char>::empty() =~= r@);
    r
}

/// Without the query, whatever stands behind a `?` does not matter.
proof fn lemma_bare_of_sum(a: Seq<char>, b: Seq<char>)
    requires
        forall|i: int| 0 <= i < a.len() ==> a[i] != '?' && a[i] != '#',
        b.len() > 0,
        b[0] == '?',
    ensures
        bare(a + b) == a,
    decreases a.len(),
{
    if a.len() == 0 {
        assert(a + b =~= b);
        assert(bare(b) =~= a);
    } else {
        assert((a + b).drop_first() =~= a.drop_first() + b);
        lemma_bare_of_sum(a.drop_first(), b);
        assert(seq![a[0]] + a.drop_first() =~= a);
    }
}

/// The address that is asked never holds the licence token: it is the same
/// whatever the token is, and whether there is one.
pub proof fn law_the_probe_leaves_the_token_behind(token: Option<Seq<char>>)
    ensures
        bare(address(token)) == WETTBOI_URL@,
{
    let url = WETTBOI_URL@;
    reveal_strlit("https://wettboi.hardwavestudios.com/vst/wettboi");
    reveal_strlit("?token=");
    reveal_strlit("?v=");
    assert(forall|i: int| 0 <= i < url.len() ==> url[i] != '?' && url[i] != '#');
    match token {
        Some(t) => {
            let rest = "?token="@ + t + "&v="@ + VERSION@;
            assert(address(token) =~= url + rest);
            assert(rest[0] == '?');
            lemma_bare_of_sum(url, rest);
        },
        None => {
            let rest = "?v="@ + VERSION@;
            assert(address(token) =~= url + rest);
            assert(rest[0] == '?');
            lemma_bare_of_sum(url, rest);
        },
    }
}

/// What failed.
#[derive(Clone, Copy, Debug, PartialEq, Eq, Structural)]
pub enum FailureKind {
    InvalidUrl,
    UnknownScheme,
    Dns,
    InsecureRequestHttpsOnly,
    ConnectionFailed,
    TooManyRedirects,
    BadStatus,
    BadHeader,
    Io,
    InvalidProxyUrl,
    ProxyConnect,
    ProxyUnauthorized,
    Http,
}

/// What went wrong: the kind of failure, what is said of it, and the error
/// underneath, which is where the operating system says "refused" or "timed
/// out".
pub open spec fn reason_of(
    label: Seq<char>,
    message: Option<Seq<char>>,
    source: Option<Seq<char>>,
) -> Seq<char> {
    let said = match message {
        Some(m) => label + ": "@ + m,
        None => label,
    };
    match source {
        Some(s) => said + ": "@ + s,
        None => said,
    }
}

/// What went wrong. The address is no part of it.
pub fn transport_reason(label: &str, message: Option<&str>, source: Option<&str>) -> (r: String)
    ensures
        r@ == reason_of(
            label@,
            match message {
                Some(m) => Some(m@),
                None => None,
            },
            match source {
                Some(s) => Some(s@),
                None => None,
            },
        ),
{
    let mut r = label.to_string();
    if let Some(m) = message {
        r.append(": ");
        r.append(m);
    }
    if let Some(s) = source {
        r.append(": ");
        r.append(s);
    }
    r
}

/// The reason speaks of running out of time, which is no answer.
pub open spec fn ran_out_of_time(reason: Seq<char>) -> bool {
    let r = text::ascii_lowercase(reason);
    ||| text::contains_text(r, "timed out"@)
    ||| text::contains_text(r, "timeout"@)
    ||| text::contains_text(r, "would block"@)
}

/// The reason says that nothing is there for this machine.
pub open spec fn nothing_is_there(reason: Seq<char>) -> bool {
    let r = text::ascii_lowercase(reason);
    ||| text::contains_text(r, "refused"@)
    ||| text::contains_text(r, "unreachable"@)
    ||| text::contains_text(r, "no route"@)
}

/// A failure that means that this machine cannot get there at all: a name that
/// does not resolve, or a connection that nothing takes. Running out of time is
/// never one: a name server that is slow to answer looks like a name that does
/// not exist.
pub open spec fn certain(kind: FailureKind, reason: Seq<char>) -> bool {
    !ran_out_of_time(reason) && (kind == FailureKind::Dns || (kind == FailureKind::ConnectionFailed
        && nothing_is_there(reason)))
}

/// Does this failure mean that this machine cannot get there at all?
pub fn offline_is_certain(kind: FailureKind, reason: &str) -> (r: bool)
    ensures
        r == certain(kind, reason@),
{
    let low = text::to_ascii_lowercase(reason);
    if text::contains(&low, "timed out") || text::contains(&low, "timeout") || text::contains(
        &low,
        "would block",
    ) {
        return false;
    }
    match kind {
        FailureKind::Dns => true,
        FailureKind::ConnectionFailed => text::contains(&low, "refused") || text::contains(
            &low,
            "unreachable",
        ) || text::contains(&low, "no route"),
        _ => false,
    }
}

/// What came of asking.
#[derive(Clone, Debug)]
pub enum Answer {
    /// Something answered, with whatever status.
    Answered,
    /// Nothing did: the kind of failure, its label, what is said of it, and the
    /// error underneath.
    Failed {
        kind: FailureKind,
        label: String,
        message: Option<String>,
        source: Option<String>,
    },
}

/// The text of an optional string.
pub open spec fn text_of(s: Option<String>) -> Option<Seq<char>> {
    match s {
        Some(t) => Some(t@),
        None => None,
    }
}

/// Whether to load the interface, and why asking failed, where it did.
pub fn judge(answer: &Answer) -> (r: (bool, Option<String>))
    ensures
        match *answer {
            Answer::Answered => r.0 && r.1 is None,
            Answer::Failed { kind, label, message, source } => {
                let reason = reason_of(label@, text_of(message), text_of(source));
                r.0 == !certain(kind, reason) && r.1 is Some && r.1->Some_0@ == reason
            },
        },
{
    match answer {
        Answer::Answered => (true, None),
        Answer::Failed { kind, label, message, source } => {
            let said = match message {
                Some(m) => Some(m.as_str()),
                None => None,
            };
            let under = match source {
                Some(s) => Some(s.as_str()),
                None => None,
            };
            let reason = transport_reason(label.as_str(), said, under);
            let definite = offline_is_certain(*kind, reason.as_str());
            (!definite, Some(reason))
        },
    }
}

/// What the log says of a failed probe.
pub fn probe_log(reason: &str, reachable: bool) -> (r: String)
    ensures
        r@ == "[HardwaveWettBoi] probe failed ("@ + reason@ + "): "@ + (if reachable {
            "loading the interface anyway, the WebView may get through"@
        } else {
            "showing the offline page"@
        }),
{
    let mut r = "[HardwaveWettBoi] probe failed (".to_string();
    r.append(reason);
    r.append("): ");
    if reachable {
        r.append("loading the interface anyway, the WebView may get through");
    } else {
        r.append("showing the offline page");
    }
    r
}

/// A timeout never takes the interface away, whatever kind of failure it comes
/// as.
pub proof fn law_a_timeout_is_not_an_answer(kind: FailureKind, reason: Seq<char>)
    requires
        ran_out_of_time(reason),
    ensures
        !certain(kind, reason),
{
}

/// Only a failed lookup or a failed connect takes the interface away.
pub proof fn law_only_a_lookup_or_a_connect_is_certain(kind: FailureKind, reason: Seq<char>)
    requires
        certain(kind, reason),
    ensures
        kind == FailureKind::Dns || kind == FailureKind::ConnectionFailed,
{
}

/// When the interface is taken away: exactly where the lookup failed, or the connect
/// failed and the reason says "refused", "unreachable" or "no route", and the reason,
/// in either case, does not say "timed out", "timeout" or "would block".
pub proof fn law_when_the_interface_is_taken_away(kind: FailureKind, reason: Seq<char>)
    ensures
        ({
            let low = text::ascii_lowercase(reason);
            let late = text::contains_text(low, "timed out"@) || text::contains_text(
                low,
                "timeout"@,
            ) || text::contains_text(low, "would block"@);
            let gone = text::contains_text(low, "refused"@) || text::contains_text(
                low,
                "unreachable"@,
            ) || text::contains_text(low, "no route"@);
            &&& late ==> !certain(kind, reason)
            &&& !late && kind == FailureKind::Dns ==> certain(kind, reason)
            &&& !late && kind == FailureKind::ConnectionFailed && gone ==> certain(kind, reason)
            &&& kind == FailureKind::ConnectionFailed && !gone ==> !certain(kind, reason)
            &&& kind != FailureKind::Dns && kind != FailureKind::ConnectionFailed ==> !certain(
                kind,
                reason,
            )
        }),
{
}

/// A reason says all that is known, in order: the kind of failure, what is said of
/// it, and the error underneath.
pub proof fn law_a_reason_says_all(label: Seq<char>, m: Seq<char>, s: Seq<char>)
    ensures
        reason_of(label, None, None) == label,
        reason_of(label, Some(m), None) == label + ": "@ + m,
        reason_of(label, None, Some(s)) == label + ": "@ + s,
        reason_of(label, Some(m), Some(s)) == label + ": "@ + m + ": "@ + s,
{
}

/// The address says where the interface is, the token where there is one, whole and
/// unchanged, and the version.
pub proof fn law_the_address_says_all(token: Seq<char>)
    ensures
        address(Some(token)) == "https://wettboi.hardwavestudios.com/vst/wettboi"@ + "?token="@
            + token + "&v="@ + "0.4.4"@,
        address(None) == "https://wettboi.hardwavestudios.com/vst/wettboi"@ + "?v="@ + "0.4.4"@,
        text::contains_text(address(Some(token)), token),
{
    let a = "https://wettboi.hardwavestudios.com/vst/wettboi"@ + "?token="@;
    let b = "&v="@ + "0.4.4"@;
    assert(address(Some(token)) =~= a + token + b);
    text::law_a_text_stands_in_what_is_put_around_it(a, token, b);
}

/// A bare address is the start of the address up to the first `?` or `#`, and all of
/// it where there is none.
pub proof fn law_a_bare_address_ends_at_its_query(url: Seq<char>)
    ensures
        bare(url).len() <= url.len(),
        bare(url) == url.take(bare(url).len() as int),
        forall|i: int|
            0 <= i < bare(url).len() ==> (#[trigger] bare(url)[i]) != '?' && bare(url)[i] != '#',
        bare(url).len() < url.len() ==> url[bare(url).len() as int] == '?' || url[bare(
            url,
        ).len() as int] == '#',
    decreases url.len(),
{
    let r = bare(url);
    if url.len() > 0 && url[0] != '?' && url[0] != '#' {
        let rest = url.drop_first();
        law_a_bare_address_ends_at_its_query(rest);
        assert(r == seq![url[0]] + bare(rest));
        assert(r =~= url.take(r.len() as int)) by {
            assert forall|i: int| 0 <= i < r.len() implies r[i] == url[i] by {
                if i > 0 {
                    assert(r[i] == bare(rest)[i - 1]);
                    assert(rest.take(bare(rest).len() as int)[i - 1] == rest[i - 1]);
                }
            }
        }
        assert forall|i: int| 0 <= i < r.len() implies (#[trigger] r[i]) != '?' && r[i] != '#' by {
            if i > 0 {
                assert(r[i] == bare(rest)[i - 1]);
            }
        }
    } else {
        assert(r =~= url.take(0));
    }
}

}
