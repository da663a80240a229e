//! Application settings, their defaults, and the start-up decision whether
//! and where to open a browser.

use vstd::prelude::*;
use crate::text::{chars_of, decimal, ieq, push_decimal, span_ieq, trim, trim_span};

verus! {

/// Where the HTTP server (API and UI) listens.
#[derive(Debug, Clone)]
pub struct AppSettings {
    pub http_port: u16,
    pub http_bind: String,
}

/// The HTTP port used when the settings do not give one.
pub fn default_http_port() -> (r: u16)
    ensures
        r == 8080,
{
    8080
}

/// The HTTP bind address used when the settings do not give one: loopback.
pub fn default_http_bind() -> (r: String)
    ensures
        r@ == "127.0.0.1"@,
{
    String::from_str("127.0.0.1")
}

impl Default for AppSettings {
    fn default() -> (r: Self)
        ensures
            r.http_port == 8080,
            r.http_bind@ == "127.0.0.1"@,
    {
        AppSettings { http_port: default_http_port(), http_bind: default_http_bind() }
    }
}

/// What the browser setting asks for.
#[derive(Debug, Clone, Copy, PartialEq, Eq, Structural)]
pub enum BrowserChoice {
    /// Open the UI (also the default when the setting is empty).
    Open,
    /// Do not open a browser.
    Skip,
    /// A value that is neither; the UI is opened, as by default.
    Unrecognized,
}

/// The browser setting, trimmed and compared without ASCII case: empty,
/// `1`, `true`, `yes` and `on` open; `0`, `false`, `no` and `off` do not.
pub open spec fn spec_browser_choice(raw: Seq<char>) -> BrowserChoice {
    let t = trim(raw);
    if t.len() == 0 || ieq(t, "1"@) || ieq(t, "true"@) || ieq(t, "yes"@) || ieq(t, "on"@) {
        BrowserChoice::Open
    } else if ieq(t, "0"@) || ieq(t, "false"@) || ieq(t, "no"@) || ieq(t, "off"@) {
        BrowserChoice::Skip
    } else {
        BrowserChoice::Unrecognized
    }
}

/// Reads the browser setting.
pub fn browser_choice(raw: &str) -> (r: BrowserChoice)
    ensures
        r == spec_browser_choice(raw@),
{
    let v = chars_of(raw);
    assert(v@.subrange(0, v@.len() as int) =~= raw@);
    let (a, b) = trim_span(&v, 0, v.len());
    if a == b || span_ieq(&v, a, b, "1") || span_ieq(&v, a, b, "true") || span_ieq(&v, a, b, "yes")
        || span_ieq(&v, a, b, "on") {
        BrowserChoice::Open
    } else if span_ieq(&v, a, b, "0") || span_ieq(&v, a, b, "false") || span_ieq(&v, a, b, "no")
        || span_ieq(&v, a, b, "off") {
        BrowserChoice::Skip
    } else {
        BrowserChoice::Unrecognized
    }
}

/// The host a browser can reach for a bind address: loopback in place of a
/// wildcard address.
pub open spec fn browser_host(bind: Seq<char>) -> Seq<char> {
    if bind == "0.0.0.0"@ || bind == "::"@ || bind == "[::]"@ {
        "127.0.0.1"@
    } else {
        bind
    }
}

/// The UI's URL for a browser, given the HTTP bind address and port.
pub fn browser_url(bind: &str, port: u16) -> (r: String)
    ensures
        r@ == "http://"@ + browser_host(bind@) + ":"@ + decimal(port as nat) + "/"@,
{
    let mut url = String::from_str("http://");
    let wildcard = {
        let v = chars_of(bind);
        assert(v@.subrange(0, v@.len() as int) =~= bind@);
        crate::text::span_eq(&v, 0, v.len(), "0.0.0.0") || crate::text::span_eq(&v, 0, v.len(), "::")
            || crate::text::span_eq(&v, 0, v.len(), "[::]")
    };
    if wildcard {
        url.append("127.0.0.1");
    } else {
        url.append(bind);
    }
    url.append(":");
    push_decimal(&mut url, port as u64);
    url.append("/");
    url
}

} // verus!
