//! The texts that the editor hands to its page: the script that runs when the
//! page loads, the packets it is fed, and the page that stands in for it when it
//! cannot be reached.

use vstd::prelude::*;
use vstd::string::StringSliceAdditionalSpecFns;
use vstd::utf8;

use crate::protocol::VERSION;
use crate::text;

verus! {

/// The script of the page up to the version of the plug-in.
pub const INIT_HEAD: &'static str = r#"
(function() {
    var _focusTimer = null;
    window.addEventListener('mouseup', function(e) {
        if (e.target.tagName !== 'INPUT') {
            clearTimeout(_focusTimer);
            _focusTimer = setTimeout(function() {
                try { window.ipc.postMessage(JSON.stringify({ type: 'release_focus' })); } catch(_) {}
            }, 500);
        }
    }, true);
    document.addEventListener('blur', function(e) {
        if (e.target.tagName === 'INPUT') {
            clearTimeout(_focusTimer);
            try { window.ipc.postMessage(JSON.stringify({ type: 'release_focus' })); } catch(_) {}
        }
    }, true);
})();

window.__HARDWAVE_VST = true;
window.__HARDWAVE_VST_VERSION = '"#;

/// The script of the page from the version on, up to its first packet.
pub const INIT_MIDDLE: &'static str = r#"';
window.__hardwave = {
    postMessage: function(msg) {
        window.ipc.postMessage(JSON.stringify(msg));
    }
};

(function() {
    var _init = "#;

/// The script of the page after its first packet.
pub const INIT_TAIL: &'static str = r#";
    function pushInit() {
        if (window.__onWbPacket) {
            window.__onWbPacket(_init);
        } else {
            setTimeout(pushInit, 50);
        }
    }
    if (document.readyState === 'complete') { pushInit(); }
    else { window.addEventListener('load', pushInit); }
})();
"#;

/// The script that runs when the page loads. The first packet is given as JSON.
pub fn ipc_init_script(initial_json: &str) -> (r: String)
    ensures
        r@ == INIT_HEAD@ + VERSION@ + INIT_MIDDLE@ + initial_json@ + INIT_TAIL@,
{
    let mut r = INIT_HEAD.to_string();
    r.append(VERSION);
    r.append(INIT_MIDDLE);
    r.append(initial_json);
    r.append(INIT_TAIL);
    r
}

/// The polling script up to the port.
pub const POLL_HEAD: &'static str = r#"
(function() {
    var _port = "#;

/// The polling script after the port.
pub const POLL_TAIL: &'static str = r#";
    function poll() {
        fetch('http://127.0.0.1:' + _port)
            .then(function(r) { return r.json(); })
            .then(function(data) {
                if (window.__onWbPacket) window.__onWbPacket(data);
            })
            .catch(function() {});
        setTimeout(poll, 16);
    }
    poll();
})();
"#;

/// The script that asks a local port for packets again and again, behind the
/// script that runs when the page loads.
pub fn polling_script(init_script: &str, port: u16) -> (r: String)
    ensures
        r@ == init_script@ + "\n"@ + POLL_HEAD@ + text::decimal(port as nat) + POLL_TAIL@,
{
    let mut r = init_script.to_string();
    r.append("\n");
    r.append(POLL_HEAD);
    text::push_decimal(&mut r, port as u128);
    r.append(POLL_TAIL);
    r
}

/// The script that hands one packet, given as JSON, to the page.
pub fn packet_script(json: &str) -> (r: String)
    ensures
        r@ == "window.__onWbPacket && window.__onWbPacket("@ + json@ + ")"@,
{
    let mut r = "window.__onWbPacket && window.__onWbPacket(".to_string();
    r.append(json);
    r.append(")");
    r
}

/// The answer to the page that asks for a packet, up to its length.
pub const RESPONSE_HEAD: &'static str = "HTTP/1.1 200 OK\r\nAccess-Control-Allow-Origin: *\r\nContent-Type: application/json\r\nContent-Length: ";

/// The answer to the page that asks for a packet. Its length is in bytes.
pub fn http_response(body: &str) -> (r: String)
    ensures
        r@ == RESPONSE_HEAD@ + text::decimal(utf8::encode_utf8(body@).len()) + "\r\n\r\n"@ + body@,
{
    let mut r = RESPONSE_HEAD.to_string();
    text::push_decimal(&mut r, body.as_bytes().len() as u128);
    r.append("\r\n\r\n");
    r.append(body);
    r
}

/// The page for when the interface cannot be reached, line by line, up to its
/// address.
pub const OFFLINE_HEAD: [&'static str; 22] = [
    "<!doctype html><html><head><meta charset=\"utf-8\"><title>HardwaveWettBoi</title>\n",
    "<style>\n",
    "  html,body { margin:0; height:100%; background:#0a0a0b; color:#c8c8c8;\n",
    "    font:13px/1.6 -apple-system,Segoe UI,Roboto,Helvetica,Arial,sans-serif; }\n",
    "  .box { height:100%; display:flex; align-items:center; justify-content:center; }\n",
    "  .card { max-width:430px; padding:26px 28px; border:1px solid rgba(255,255,255,.09); border-radius:14px; }\n",
    "  h1 { font-size:15px; margin:0 0 10px; color:#fff; }\n",
    "  p { margin:0 0 10px; }\n",
    "  ul { margin:0 0 14px; padding-left:18px; } li { margin:3px 0; }\n",
    "  a.retry { display:inline-block; padding:7px 14px; border-radius:8px; background:#DC2626;\n",
    "    color:#fff; text-decoration:none; font-weight:700; }\n",
    "  .small { color:#6f6f6f; font-size:11.5px; margin-top:12px; }\n",
    "</style></head><body><div class=\"box\"><div class=\"card\">\n",
    "<h1>The plug-in cannot reach its interface</h1>\n",
    "<p>The controls are served from hardwavestudios.com, and this computer could not get there just now.\n",
    "The audio side of the plug-in is unaffected: your project still plays.</p>\n",
    "<ul>\n",
    "  <li>Check this machine is online.</li>\n",
    "  <li>A firewall, a VPN or a studio network may be blocking the DAW rather than the browser.</li>\n",
    "  <li>If your DAW blocks internet access per plug-in, allow it for this one.</li>\n",
    "</ul>\n",
    "<a class=\"retry\" href=\"",
];

/// The page for when the interface cannot be reached, line by line, after its
/// address.
pub const OFFLINE_TAIL: [&'static str; 3] = [
    "\">Try again</a>\n",
    "<div class=\"small\">If it keeps happening, write to support@hardwavestudios.com and say which DAW and which network you are on.</div>\n",
    "</div></div></body></html>",
];

/// Some texts, one behind the other.
pub open spec fn joined(lines: Seq<&'static str>) -> Seq<char>
    decreases lines.len(),
{
    if lines.len() == 0 {
        Seq::empty()
    } else {
        joined(lines.drop_last()) + lines.last()@
    }
}

/// Append some texts, one behind the other.
fn push_joined(out: &mut String, lines: &[&'static str])
    ensures
        final(out)@ == old(out)@ + joined(lines@),
{
    let ghost before = out@;
    let mut i: usize = 0;
    assert(out@ =~= before + joined(lines@.take(0)));
    while i < lines.len()
        invariant
            i <= lines.len(),
            out@ == before + joined(lines@.take(i as int)),
        decreases lines.len() - i,
    {
        proof {
            let next = lines@.take(i + 1);
            assert(next.drop_last() =~= lines@.take(i as int));
            assert(before + joined(next) =~= before + joined(lines@.take(i as int)) + lines@[i as int]@);
        }
        out.append(lines[i]);
        i += 1;
    }
    assert(lines@.take(i as int) =~= lines@);
}

/// The page that stands in for the interface at an address.
pub open spec fn offline_text(url: Seq<char>) -> Seq<char> {
    joined(OFFLINE_HEAD@) + url + joined(OFFLINE_TAIL@)
}

/// What the window shows when the interface cannot be reached, instead of
/// nothing.
///
/// Plain HTML with no request of its own, because the one thing that is known
/// here is that requests are failing. Trying again is a link back to the
/// interface: if the connection has come back, the window simply loads.
pub fn offline_page(url: &str) -> (r: String)
    ensures
        r@ == offline_text(url@),
{
    let mut r = String::new();
    push_joined(&mut r, &OFFLINE_HEAD);
    r.append(url);
    push_joined(&mut r, &OFFLINE_TAIL);
    assert(r@ =~= offline_text(url@));
    r
}

/// The words by which a page runs a script or asks for something else.
pub open spec fn is_a_request(word: Seq<char>) -> bool {
    ||| word == "<script"@
    ||| word == "src="@
    ||| word == "<link"@
    ||| word == "@import"@
    ||| word == "url("@
}

/// That no such word ends at a `=` or a `(`, nor begins at a `<` or a `@`, seen
/// from within the text alone.
spec fn quiet(s: Seq<char>) -> bool {
    &&& forall|i: int| 0 <= i < s.len() && #[trigger] s[i] == '=' ==> 0 < i && s[i - 1] != 'c'
    &&& forall|i: int| 0 <= i < s.len() && #[trigger] s[i] == '(' ==> 0 < i && s[i - 1] != 'l'
    &&& forall|i: int|
        0 <= i < s.len() && #[trigger] s[i] == '@' ==> i + 1 < s.len() && s[i + 1] != 'i'
    &&& forall|i: int|
        0 <= i < s.len() && #[trigger] s[i] == '<' ==> i + 3 < s.len() && !(s[i + 1] == 's'
            && s[i + 2] == 'c') && !(s[i + 1] == 'l' && s[i + 2] == 'i' && s[i + 3] == 'n')
}

proof fn lemma_quiet_joined(lines: Seq<&'static str>)
    requires
        forall|k: int| 0 <= k < lines.len() ==> quiet(#[trigger] lines[k]@),
    ensures
        quiet(joined(lines)),
    decreases lines.len(),
{
    if lines.len() > 0 {
        lemma_quiet_joined(lines.drop_last());
        assert(quiet(lines[lines.len() - 1]@));
    }
}

proof fn lemma_quiet(s: Seq<char>, word: Seq<char>)
    requires
        quiet(s),
        is_a_request(word),
    ensures
        !text::contains_text(s, word),
{
    lemma_requests();
    if text::contains_text(s, word) {
        let at = choose|at: int| #[trigger] text::occurs_at(s, word, at);
        assert forall|k: int| 0 <= k < word.len() implies s[at + k] == #[trigger] word[k] by {
            assert(s.subrange(at, at + word.len())[k] == s[at + k]);
        }
        if word == "src="@ {
            assert(s[at + 3] == word[3]);
            assert(s[at + 2] == word[2]);
        } else if word == "url("@ {
            assert(s[at + 3] == word[3]);
            assert(s[at + 2] == word[2]);
        } else {
            assert(s[at + 0] == word[0]);
            assert(s[at + 1] == word[1]);
            assert(s[at + 2] == word[2]);
            assert(s[at + 3] == word[3]);
        }
    }
}

/// The letters of the words, none of which is a quotation mark.
proof fn lemma_requests()
    ensures
        forall|word: Seq<char>, k: int|
            is_a_request(word) && 0 <= k < word.len() ==> #[trigger] word[k] != '"',
        forall|word: Seq<char>| #[trigger] is_a_request(word) ==> word.len() >= 4,
        "<script"@[0] == '<' && "<script"@[1] == 's' && "<script"@[2] == 'c',
        "<link"@[0] == '<' && "<link"@[1] == 'l' && "<link"@[2] == 'i' && "<link"@[3] == 'n',
        "@import"@[0] == '@' && "@import"@[1] == 'i',
        "src="@[2] == 'c' && "src="@[3] == '=',
        "url("@[2] == 'l' && "url("@[3] == '(',
{
    reveal_strlit("<script");
    reveal_strlit("src=");
    reveal_strlit("<link");
    reveal_strlit("@import");
    reveal_strlit("url(");
}

proof fn lemma_the_head_is_quiet()
    ensures
        quiet(joined(OFFLINE_HEAD@)),
{
    assert(quiet(OFFLINE_HEAD[0]@)) by {
        reveal_strlit("<!doctype html><html><head><meta charset=\"utf-8\"><title>HardwaveWettBoi</title>\n");
    }
    assert(quiet(OFFLINE_HEAD[1]@)) by {
        reveal_strlit("<style>\n");
    }
    assert(quiet(OFFLINE_HEAD[2]@)) by {
        reveal_strlit("  html,body { margin:0; height:100%; background:#0a0a0b; color:#c8c8c8;\n");
    }
    assert(quiet(OFFLINE_HEAD[3]@)) by {
        reveal_strlit("    font:13px/1.6 -apple-system,Segoe UI,Roboto,Helvetica,Arial,sans-serif; }\n");
    }
    assert(quiet(OFFLINE_HEAD[4]@)) by {
        reveal_strlit("  .box { height:100%; display:flex; align-items:center; justify-content:center; }\n");
    }
    assert(quiet(OFFLINE_HEAD[5]@)) by {
        reveal_strlit("  .card { max-width:430px; padding:26px 28px; border:1px solid rgba(255,255,255,.09); border-radius:14px; }\n");
    }
    assert(quiet(OFFLINE_HEAD[6]@)) by {
        reveal_strlit("  h1 { font-size:15px; margin:0 0 10px; color:#fff; }\n");
    }
    assert(quiet(OFFLINE_HEAD[7]@)) by {
        reveal_strlit("  p { margin:0 0 10px; }\n");
    }
    assert(quiet(OFFLINE_HEAD[8]@)) by {
        reveal_strlit("  ul { margin:0 0 14px; padding-left:18px; } li { margin:3px 0; }\n");
    }
    assert(quiet(OFFLINE_HEAD[9]@)) by {
        reveal_strlit("  a.retry { display:inline-block; padding:7px 14px; border-radius:8px; background:#DC2626;\n");
    }
    assert(quiet(OFFLINE_HEAD[10]@)) by {
        reveal_strlit("    color:#fff; text-decoration:none; font-weight:700; }\n");
    }
    assert(quiet(OFFLINE_HEAD[11]@)) by {
        reveal_strlit("  .small { color:#6f6f6f; font-size:11.5px; margin-top:12px; }\n");
    }
    assert(quiet(OFFLINE_HEAD[12]@)) by {
        reveal_strlit("</style></head><body><div class=\"box\"><div class=\"card\">\n");
    }
    assert(quiet(OFFLINE_HEAD[13]@)) by {
        reveal_strlit("<h1>The plug-in cannot reach its interface</h1>\n");
    }
    assert(quiet(OFFLINE_HEAD[14]@)) by {
        reveal_strlit("<p>The controls are served from hardwavestudios.com, and this computer could not get there just now.\n");
    }
    assert(quiet(OFFLINE_HEAD[15]@)) by {
        reveal_strlit("The audio side of the plug-in is unaffected: your project still plays.</p>\n");
    }
    assert(quiet(OFFLINE_HEAD[16]@)) by {
        reveal_strlit("<ul>\n");
    }
    assert(quiet(OFFLINE_HEAD[17]@)) by {
        reveal_strlit("  <li>Check this machine is online.</li>\n");
    }
    assert(quiet(OFFLINE_HEAD[18]@)) by {
        reveal_strlit("  <li>A firewall, a VPN or a studio network may be blocking the DAW rather than the browser.</li>\n");
    }
    assert(quiet(OFFLINE_HEAD[19]@)) by {
        reveal_strlit("  <li>If your DAW blocks internet access per plug-in, allow it for this one.</li>\n");
    }
    assert(quiet(OFFLINE_HEAD[20]@)) by {
        reveal_strlit("</ul>\n");
    }
    assert(quiet(OFFLINE_HEAD[21]@)) by {
        reveal_strlit("<a class=\"retry\" href=\"");
    }
    lemma_quiet_joined(OFFLINE_HEAD@);
}

proof fn lemma_the_tail_is_quiet()
    ensures
        quiet(joined(OFFLINE_TAIL@)),
{
    assert(quiet(OFFLINE_TAIL[0]@)) by {
        reveal_strlit("\">Try again</a>\n");
    }
    assert(quiet(OFFLINE_TAIL[1]@)) by {
        reveal_strlit("<div class=\"small\">If it keeps happening, write to support@hardwavestudios.com and say which DAW and which network you are on.</div>\n");
    }
    assert(quiet(OFFLINE_TAIL[2]@)) by {
        reveal_strlit("</div></div></body></html>");
    }
    lemma_quiet_joined(OFFLINE_TAIL@);
}

proof fn lemma_joined_begins(lines: Seq<&'static str>)
    requires
        lines.len() > 0,
    ensures
        joined(lines).len() >= lines[0]@.len(),
        joined(lines).take(lines[0]@.len() as int) == lines[0]@,
    decreases lines.len(),
{
    let rest = lines.drop_last();
    let n = lines[0]@.len() as int;
    if rest.len() == 0 {
        assert(joined(rest) =~= Seq::<char>::empty());
        assert(joined(lines) =~= lines[0]@);
        assert(joined(lines).take(n) =~= lines[0]@);
    } else {
        lemma_joined_begins(rest);
        assert(joined(lines).take(n) =~= joined(rest).take(n));
    }
}

/// The address stands between quotation marks, as that of the link to try again.
pub proof fn law_the_offline_page_links_back()
    ensures
        ({
            let head = joined(OFFLINE_HEAD@);
            head.len() >= 6 && head.skip(head.len() - 6) == "href=\""@
        }),
        ({
            let tail = joined(OFFLINE_TAIL@);
            tail.len() >= 11 && tail.take(11) == "\">Try again"@
        }),
{
    reveal_strlit("href=\"");
    reveal_strlit("\">Try again");
    let head = joined(OFFLINE_HEAD@);
    let last = "<a class=\"retry\" href=\""@;
    assert(OFFLINE_HEAD@.last()@ == last);
    reveal_strlit("<a class=\"retry\" href=\"");
    assert(head == joined(OFFLINE_HEAD@.drop_last()) + last);
    assert(head.skip(head.len() - 6) =~= "href=\""@);
    let tail = joined(OFFLINE_TAIL@);
    let first = "\">Try again</a>\n"@;
    assert(OFFLINE_TAIL@[0]@ == first);
    reveal_strlit("\">Try again</a>\n");
    lemma_joined_begins(OFFLINE_TAIL@);
    assert forall|k: int| 0 <= k < first.len() implies tail[k] == #[trigger] first[k] by {
        assert(tail.take(first.len() as int)[k] == tail[k]);
    }
    assert(tail.take(11) =~= "\">Try again"@);
}

/// The page for when the interface cannot be reached runs no script and asks for
/// nothing by itself: none of the words by which a page does so stands in it,
/// unless it stands in the address itself.
pub proof fn law_the_offline_page_asks_for_nothing(url: Seq<char>, word: Seq<char>)
    requires
        is_a_request(word),
    ensures
        text::contains_text(offline_text(url), word) == text::contains_text(url, word),
        !text::contains_text(joined(OFFLINE_HEAD@), word),
        !text::contains_text(joined(OFFLINE_TAIL@), word),
{
    let head = joined(OFFLINE_HEAD@);
    let tail = joined(OFFLINE_TAIL@);
    let page = offline_text(url);
    let (h, u, n) = (head.len() as int, url.len() as int, word.len() as int);
    lemma_the_head_is_quiet();
    lemma_the_tail_is_quiet();
    lemma_quiet(head, word);
    lemma_quiet(tail, word);
    lemma_requests();
    law_the_offline_page_links_back();
    reveal_strlit("href=\"");
    reveal_strlit("\">Try again");
    assert(head.skip(h - 6)[5] == head[h - 1]);
    assert(tail.take(11)[0] == tail[0]);
    assert(page[h - 1] == '"');
    assert(page[h + u] == '"');
    if text::contains_text(page, word) {
        let at = choose|at: int| #[trigger] text::occurs_at(page, word, at);
        let there = page.subrange(at, at + n);
        if at <= h - 1 < at + n {
            assert(there[h - 1 - at] == '"');
            assert(word[h - 1 - at] == '"');
        }
        if at <= h + u < at + n {
            assert(there[h + u - at] == '"');
            assert(word[h + u - at] == '"');
        }
        if at + n < h {
            assert(head.subrange(at, at + n) =~= there);
            assert(text::occurs_at(head, word, at));
        } else if at > h + u {
            assert(tail.subrange(at - h - u, at - h - u + n) =~= there);
            assert(text::occurs_at(tail, word, at - h - u));
        } else {
            assert(url.subrange(at - h, at - h + n) =~= there);
            assert(text::occurs_at(url, word, at - h));
        }
    }
    if text::contains_text(url, word) {
        let at = choose|at: int| #[trigger] text::occurs_at(url, word, at);
        assert(page.subrange(at + h, at + h + n) =~= url.subrange(at, at + n));
        assert(text::occurs_at(page, word, at + h));
    }
}

/// Whatever the address is, the page links to it, whole and unchanged.
pub proof fn law_the_offline_page_links_to_its_address(url: Seq<char>)
    ensures
        text::contains_text(offline_text(url), "href=\""@ + url + "\">Try again"@),
{
    law_the_offline_page_links_back();
    let head = joined(OFFLINE_HEAD@);
    let tail = joined(OFFLINE_TAIL@);
    let h = head.len() as int;
    reveal_strlit("href=\"");
    reveal_strlit("\">Try again");
    let link = "href=\""@ + url + "\">Try again"@;
    assert(head =~= head.take(h - 6) + head.skip(h - 6));
    assert(tail =~= tail.take(11) + tail.skip(11));
    assert(offline_text(url) =~= head.take(h - 6) + link + tail.skip(11));
    text::law_a_text_stands_in_what_is_put_around_it(head.take(h - 6), link, tail.skip(11));
}

}
