use pscheckwait::config::SiteConfig;
use pscheckwait::origin::{
    check_origin, extract_origin_host, host_from_origin, host_part, normalize_domain, OriginError,
    RequestHeaders,
};

fn headers(origin: Option<&str>, referer: Option<&str>, host: Option<&str>) -> RequestHeaders {
    RequestHeaders {
        origin: origin.map(|s| s.to_string()),
        referer: referer.map(|s| s.to_string()),
        host: host.map(|s| s.to_string()),
    }
}

fn site_with(allowed: &[&str]) -> SiteConfig {
    let mut c = SiteConfig::default();
    c.allowed_origins = allowed.iter().map(|s| s.to_string()).collect();
    c
}

#[test]
fn host_of_a_full_url() {
    assert_eq!(host_from_origin("https://Example.COM:8443/path?x=1#top"), Some("example.com".to_string()));
}

#[test]
fn host_without_scheme() {
    assert_eq!(host_from_origin("shop.example.com"), Some("shop.example.com".to_string()));
    assert_eq!(host_from_origin("example.com:80/a"), Some("example.com".to_string()));
}

#[test]
fn host_is_trimmed_and_unbracketed() {
    assert_eq!(host_from_origin("  http://[::1]:3000  "), Some("::1".to_string()));
}

#[test]
fn bracketed_host_without_port_keeps_text_before_last_colon() {
    assert_eq!(host_from_origin("[::1]"), Some(":".to_string()));
}

#[test]
fn empty_hosts_are_none() {
    assert_eq!(host_from_origin(""), None);
    assert_eq!(host_from_origin("   "), None);
    assert_eq!(host_from_origin("https://"), None);
    assert_eq!(host_from_origin("https://:8080/x"), None);
    assert_eq!(host_from_origin("null"), Some("null".to_string()));
}

#[test]
fn query_and_fragment_cut_the_host() {
    assert_eq!(host_from_origin("https://a.com?b.com"), Some("a.com".to_string()));
    assert_eq!(host_from_origin("https://a.com#b.com"), Some("a.com".to_string()));
}

#[test]
fn host_part_keeps_case() {
    assert_eq!(host_part("https://Ab.Cd:1/x"), "Ab.Cd");
}

#[test]
fn normalize_domain_trims_and_lowercases() {
    assert_eq!(normalize_domain("  Example.COM \n"), "example.com");
}

#[test]
fn origin_comes_before_referer() {
    let h = headers(Some("https://a.com"), Some("https://b.com/page"), None);
    assert_eq!(extract_origin_host(&h), Some("a.com".to_string()));
    let h = headers(Some("https://"), Some("https://b.com/page"), None);
    assert_eq!(extract_origin_host(&h), Some("b.com".to_string()));
    let h = headers(None, None, None);
    assert_eq!(extract_origin_host(&h), None);
}

#[test]
fn site_domain_is_allowed_by_default() {
    let cfg = SiteConfig::default();
    let h = headers(Some("https://example.com"), None, Some("queue.local:3000"));
    assert_eq!(check_origin(&h, "example.com", &cfg), Ok(()));
    let h = headers(Some("https://evil.com"), None, Some("queue.local:3000"));
    assert_eq!(check_origin(&h, "example.com", &cfg), Err(OriginError::NotAllowed));
}

#[test]
fn missing_origin_is_refused() {
    let cfg = SiteConfig::default();
    let h = headers(None, None, Some("example.com"));
    assert_eq!(check_origin(&h, "example.com", &cfg), Err(OriginError::MissingOrigin));
}

#[test]
fn unchecked_sites_allow_anything() {
    let mut cfg = SiteConfig::default();
    cfg.verify_origin = false;
    let h = headers(None, None, None);
    assert_eq!(check_origin(&h, "example.com", &cfg), Ok(()));
}

#[test]
fn own_server_pages_are_allowed() {
    let cfg = SiteConfig::default();
    let h = headers(Some("http://localhost:3000"), None, Some("LOCALHOST:3000"));
    assert_eq!(check_origin(&h, "example.com", &cfg), Ok(()));
}

#[test]
fn listed_origins_replace_the_domain() {
    let cfg = site_with(&["www.example.com", "https://M.Example.com/"]);
    let h = headers(Some("https://www.example.com"), None, None);
    assert_eq!(check_origin(&h, "example.com", &cfg), Ok(()));
    let h = headers(Some("https://m.example.com"), None, None);
    assert_eq!(check_origin(&h, "example.com", &cfg), Ok(()));
    let h = headers(Some("https://example.com"), None, None);
    assert_eq!(check_origin(&h, "example.com", &cfg), Err(OriginError::NotAllowed));
}

#[test]
fn referer_is_used_when_origin_is_absent() {
    let cfg = SiteConfig::default();
    let h = headers(None, Some("https://example.com/shop?item=1"), None);
    assert_eq!(check_origin(&h, "Example.com", &cfg), Ok(()));
}

#[test]
fn unicode_white_space_is_trimmed() {
    assert_eq!(host_from_origin("\u{3000}example.com\u{a0}"), Some("example.com".to_string()));
    assert_eq!(host_from_origin("\u{2028}\t\u{85}"), None);
    assert_eq!(normalize_domain("\u{2003}Shop.Example.COM\r\n"), "shop.example.com".to_string());
}

#[test]
fn host_parts_have_no_separators() {
    for raw in ["https://a.b/c?d#e", "[x]", "[[x]]:1", "a#b/c", "http://h?q", "x:y:z"] {
        let h = host_part(raw);
        assert!(!h.contains('/') && !h.contains('?') && !h.contains('#'));
        assert!(!h.starts_with('[') && !h.ends_with(']'));
    }
    assert_eq!(host_part("shop.example.com"), "shop.example.com");
    assert_eq!(host_from_origin("Shop.Example.com"), Some("shop.example.com".to_string()));
}
