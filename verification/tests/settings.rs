use modsim::settings::{default_http_bind, default_http_port, AppSettings};

#[test]
fn settings_defaults() {
    let s = AppSettings::default();
    assert_eq!(s.http_port, 8080);
    assert_eq!(s.http_bind, "127.0.0.1");
    assert_eq!(default_http_port(), 8080);
    assert_eq!(default_http_bind(), "127.0.0.1");
}

use modsim::settings::{browser_choice, browser_url, BrowserChoice};

#[test]
fn browser_setting_values() {
    for v in ["", "  ", "1", "TRUE", " yes ", "On"] {
        assert_eq!(browser_choice(v), BrowserChoice::Open, "{v:?}");
    }
    for v in ["0", "false", "No", "OFF "] {
        assert_eq!(browser_choice(v), BrowserChoice::Skip, "{v:?}");
    }
    assert_eq!(browser_choice("maybe"), BrowserChoice::Unrecognized);
}

#[test]
fn browser_url_uses_loopback_for_wildcards() {
    assert_eq!(browser_url("0.0.0.0", 8080), "http://127.0.0.1:8080/");
    assert_eq!(browser_url("::", 80), "http://127.0.0.1:80/");
    assert_eq!(browser_url("[::]", 1), "http://127.0.0.1:1/");
    assert_eq!(browser_url("192.168.1.5", 9000), "http://192.168.1.5:9000/");
}
