use hardwave_wettboi::page::{
    http_response, ipc_init_script, offline_page, packet_script, polling_script,
};
use hardwave_wettboi::probe::{
    interface_url, judge, offline_is_certain, probe_log, transport_reason, without_query, Answer,
    FailureKind, WETTBOI_URL,
};
use hardwave_wettboi::probe::FailureKind::{ConnectionFailed, Dns, Io, ProxyConnect};
use hardwave_wettboi::protocol::VERSION;

#[test]
fn only_a_definite_failure_takes_the_interface_away() {
    // Answers: nothing is there for this machine.
    assert!(offline_is_certain(
        ConnectionFailed,
        "Connection Failed: Connect error: Connection refused (os error 111)"
    ));
    assert!(offline_is_certain(
        Dns,
        "Dns Failed: resolve dns name 'example.com:443': failed to lookup address information"
    ));
    assert!(offline_is_certain(
        ConnectionFailed,
        "Connection Failed: Connect error: Network is unreachable (os error 101)"
    ));
    assert!(offline_is_certain(
        ConnectionFailed,
        "Connection Failed: Connect error: No route to host (os error 113)"
    ));

    // A slow name server is not a missing name: our own deadline runs through the resolver,
    // so a timeout arrives here wearing the DNS label.
    assert!(!offline_is_certain(
        Dns,
        "Dns Failed: resolve dns name 'hardwavestudios.com:443': timed out"
    ));

    // Not answers: the WebView may still get the page.
    assert!(!offline_is_certain(
        Io,
        "Network Error: timed out reading response"
    ));
    assert!(!offline_is_certain(
        ConnectionFailed,
        "Connection Failed: Connect error: Connection timed out (os error 110)"
    ));
    assert!(!offline_is_certain(
        ConnectionFailed,
        "Connection Failed: tls connection init failed: invalid peer certificate: UnknownIssuer"
    ));
    assert!(!offline_is_certain(
        ProxyConnect,
        "Proxy failed to connect: 407 Proxy Authentication Required"
    ));
    // Words that only mean something in a lookup or a connect mean nothing elsewhere.
    assert!(!offline_is_certain(Io, "Network Error: dns refused"));
}

#[test]
fn the_probe_leaves_the_query_behind() {
    assert_eq!(
        without_query("https://example.com/vst/thing?token=abc&v=1"),
        "https://example.com/vst/thing"
    );
    assert_eq!(
        without_query("https://example.com/vst/thing#x"),
        "https://example.com/vst/thing"
    );
    assert_eq!(
        without_query("https://example.com/vst/thing"),
        "https://example.com/vst/thing"
    );
}

#[test]
fn an_address_without_anything_is_left_alone() {
    assert_eq!(without_query(""), "");
    assert_eq!(without_query("?"), "");
    assert_eq!(without_query("a#b?c"), "a");
    assert_eq!(without_query("ä/ö?ü"), "ä/ö");
}

/// The page shown when the interface cannot be reached must be able to stand on its own: no
/// script, no stylesheet, no image, nothing that needs the connection that has just failed.
#[test]
fn offline_page_needs_nothing_from_the_network() {
    let html = offline_page("https://example.com/vst/thing?token=abc");
    assert!(
        !html.contains("<script"),
        "the offline page must not run script"
    );
    assert!(
        !html.contains("src="),
        "the offline page must not fetch anything"
    );
    assert!(
        html.contains("https://example.com/vst/thing?token=abc"),
        "trying again has to go back to the interface"
    );
    assert!(
        html.contains("support@hardwavestudios.com"),
        "say where to write when it keeps failing"
    );
}

#[test]
fn the_offline_page_is_plain_html() {
    let html = offline_page("X");
    assert!(html.starts_with("<!doctype html><html><head><meta charset=\"utf-8\">"));
    assert!(html.contains("html,body { margin:0; height:100%; background:#0a0a0b;"));
    assert!(html.contains("<a class=\"retry\" href=\"X\">Try again</a>"));
    assert!(html.ends_with("</div></div></body></html>"));
    assert!(!html.contains("{{") && !html.contains("}}"));
    assert!(!html.contains("<link") && !html.contains("<img") && !html.contains("url("));
    assert!(!html.contains("@import"));
}

#[test]
fn the_address_carries_the_token_and_the_version() {
    assert_eq!(
        interface_url(Some("abc")),
        format!("{WETTBOI_URL}?token=abc&v={VERSION}")
    );
    assert_eq!(interface_url(None), format!("{WETTBOI_URL}?v={VERSION}"));
    assert_eq!(VERSION, "0.4.4");
}

#[test]
fn the_probe_never_asks_with_the_token() {
    for token in ["abc", "", "x?y#z", "xDNSrefusedUnreachable"] {
        assert_eq!(without_query(&interface_url(Some(token))), WETTBOI_URL);
    }
    assert_eq!(without_query(&interface_url(None)), WETTBOI_URL);
}

#[test]
fn a_reason_is_put_together() {
    assert_eq!(transport_reason("Dns Failed", None, None), "Dns Failed");
    assert_eq!(
        transport_reason("Connection Failed", Some("Connect error"), Some("refused")),
        "Connection Failed: Connect error: refused"
    );
    assert_eq!(
        transport_reason("Network Error", None, Some("timed out")),
        "Network Error: timed out"
    );
}

fn failed(kind: FailureKind, message: &str) -> Answer {
    Answer::Failed {
        kind,
        label: "Label".to_string(),
        message: Some(message.to_string()),
        source: None,
    }
}

#[test]
fn an_answer_loads_the_interface() {
    assert_eq!(judge(&Answer::Answered), (true, None));
}

#[test]
fn a_timeout_loads_the_interface_whatever_it_comes_as() {
    for kind in [
        FailureKind::InvalidUrl,
        FailureKind::UnknownScheme,
        FailureKind::Dns,
        FailureKind::InsecureRequestHttpsOnly,
        FailureKind::ConnectionFailed,
        FailureKind::TooManyRedirects,
        FailureKind::BadStatus,
        FailureKind::BadHeader,
        FailureKind::Io,
        FailureKind::InvalidProxyUrl,
        FailureKind::ProxyConnect,
        FailureKind::ProxyUnauthorized,
        FailureKind::Http,
    ] {
        for message in ["TIMED OUT", "a TimeOut, refused", "operation would block"] {
            let (reachable, reason) = judge(&failed(kind, message));
            assert!(reachable);
            assert_eq!(reason, Some(format!("Label: {message}")));
        }
    }
}

#[test]
fn a_refused_connection_shows_the_offline_page() {
    let (reachable, reason) = judge(&failed(FailureKind::ConnectionFailed, "Refused"));
    assert!(!reachable);
    assert_eq!(
        probe_log(&reason.unwrap(), reachable),
        "[HardwaveWettBoi] probe failed (Label: Refused): showing the offline page"
    );
    assert_eq!(
        probe_log("slow", true),
        "[HardwaveWettBoi] probe failed (slow): loading the interface anyway, the WebView may get \
         through"
    );
}

#[test]
fn the_scripts_hold_what_they_are_given() {
    let init = ipc_init_script("{\"mix\":30}");
    assert!(init.contains("window.__HARDWAVE_VST_VERSION = '0.4.4';"));
    assert!(init.contains("var _init = {\"mix\":30};"));
    assert!(init.starts_with("\n(function() {\n    var _focusTimer = null;"));
    assert!(init.ends_with("})();\n"));
    assert!(!init.contains("{{") && !init.contains("}}}"));

    let all = polling_script(&init, 50_123);
    assert!(all.starts_with(&init));
    assert!(all.contains("var _port = 50123;"));
    assert!(all.contains("fetch('http://127.0.0.1:' + _port)"));

    assert_eq!(
        packet_script("{}"),
        "window.__onWbPacket && window.__onWbPacket({})"
    );
}

#[test]
fn an_answer_to_the_page_tells_its_length_in_bytes() {
    let body = "{\"preset\":\"Größe\"}";
    let response = http_response(body);
    assert_eq!(
        response,
        format!(
            "HTTP/1.1 200 OK\r\nAccess-Control-Allow-Origin: *\r\nContent-Type: \
             application/json\r\nContent-Length: {}\r\n\r\n{}",
            body.len(),
            body
        )
    );
    assert!(body.len() > body.chars().count());
}
