use ipdetect::agent::{agent_with, build_agent};
use ipdetect::proxy::{
    normalize_proxy_url, parse_proxy_server, read_system_proxy, resolve_effective_proxy,
    ProxySource,
};

#[test]
fn parse_simple_proxy() {
    assert_eq!(
        parse_proxy_server("127.0.0.1:7897"),
        Some("http://127.0.0.1:7897".to_string())
    );
}

#[test]
fn parse_protocol_specific_prefers_http() {
    let raw = "ftp=10.0.0.1:1;https=127.0.0.1:7897;socks=127.0.0.1:7898";
    assert_eq!(
        parse_proxy_server(raw),
        Some("http://127.0.0.1:7897".to_string())
    );
}

#[test]
fn parse_protocol_specific_fallback_any() {
    let raw = "socks=127.0.0.1:7898";
    assert_eq!(
        parse_proxy_server(raw),
        Some("http://127.0.0.1:7898".to_string())
    );
}

#[test]
fn parse_empty_is_none() {
    assert_eq!(parse_proxy_server("  "), None);
}

#[test]
fn normalize_keeps_existing_scheme() {
    assert_eq!(
        normalize_proxy_url("socks5://127.0.0.1:7898"),
        "socks5://127.0.0.1:7898"
    );
}

#[test]
fn manual_override_wins() {
    let eff = resolve_effective_proxy(Some("127.0.0.1:1080"), None);
    assert_eq!(eff.source(), ProxySource::Manual);
    assert_eq!(eff.url(), Some("http://127.0.0.1:1080".to_string()));
}

#[test]
fn lists_by_protocol() {
    assert_eq!(
        parse_proxy_server(" socks=1.1.1.1:1 ; HTTP = x ; HTTPS= 2.2.2.2:2 ;http=3.3.3.3:3"),
        Some("http://3.3.3.3:3".to_string())
    );
    assert_eq!(
        parse_proxy_server("http=;socks=1.1.1.1:1;ftp=2.2.2.2:2"),
        Some("http://1.1.1.1:1".to_string())
    );
    assert_eq!(parse_proxy_server("http=;socks= "), None);
    assert_eq!(parse_proxy_server("="), None);
    assert_eq!(
        parse_proxy_server("http=socks5://1.1.1.1:1"),
        Some("socks5://1.1.1.1:1".to_string())
    );
    assert_eq!(
        parse_proxy_server("first;http=a=b"),
        Some("http://a=b".to_string())
    );
}

#[test]
fn normalizing_twice_is_normalizing_once() {
    for addr in ["", " 127.0.0.1:1 ", "socks5://h", "a:/b", "\u{3000}h\u{2003}"] {
        let once = normalize_proxy_url(addr);
        assert_eq!(normalize_proxy_url(&once), once);
        assert!(once.contains("://"));
    }
    assert_eq!(normalize_proxy_url("\u{3000}h\u{2003}"), "http://h");
    assert_eq!(normalize_proxy_url(""), "http://");
}

#[test]
fn trimming_goes_by_unicode() {
    for code in 0..0x3100u32 {
        if let Some(c) = char::from_u32(code) {
            let addr = format!("{c}x{c}");
            assert_eq!(
                normalize_proxy_url(&addr),
                format!("http://{}", addr.trim()),
                "{code:x}"
            );
        }
    }
}

#[test]
fn override_then_system_then_direct() {
    let system = || Some("http://9.9.9.9:9".to_string());
    let manual = resolve_effective_proxy(Some(" socks5://127.0.0.1:7898 "), system());
    assert_eq!(manual.source(), ProxySource::Manual);
    assert_eq!(manual.url(), Some("socks5://127.0.0.1:7898".to_string()));
    for blank in [None, Some(""), Some(" \t")] {
        let eff = resolve_effective_proxy(blank, system());
        assert_eq!(eff.source(), ProxySource::System);
        assert_eq!(eff.url(), system());
        let eff = resolve_effective_proxy(blank, None);
        assert_eq!(eff.source(), ProxySource::Direct);
        assert_eq!(eff.url(), None);
    }
}

#[test]
fn system_proxy_must_be_switched_on() {
    assert_eq!(
        read_system_proxy(Some(1), Some("1.1.1.1:1")),
        Some("http://1.1.1.1:1".to_string())
    );
    assert_eq!(read_system_proxy(Some(0), Some("1.1.1.1:1")), None);
    assert_eq!(read_system_proxy(None, Some("1.1.1.1:1")), None);
    assert_eq!(read_system_proxy(Some(1), None), None);
    assert_eq!(read_system_proxy(Some(1), Some(" ")), None);
}

fn tls() -> Result<native_tls::TlsConnector, String> {
    native_tls::TlsConnector::new().map_err(|error| error.to_string())
}

fn built(
    timeout_secs: u64,
    proxy: Option<ureq::Proxy>,
) -> String {
    let mut builder = ureq::AgentBuilder::new()
        .timeout(std::time::Duration::from_secs(timeout_secs))
        .tls_connector(std::sync::Arc::new(tls().unwrap()));
    if let Some(proxy) = proxy {
        builder = builder.proxy(proxy);
    }
    format!("{:?}", builder.build())
}

#[test]
fn agent_uses_the_chosen_proxy() {
    for url in ["http://127.0.0.1:7897", "socks5://u:p@h:1", "socks4a://h//", "http://a:b@c@d"] {
        let proxy = resolve_effective_proxy(Some(url), None);
        let agent = agent_with(&proxy, 7, tls()).unwrap();
        let expected = built(7, Some(ureq::Proxy::new(url).unwrap()));
        assert_eq!(format!("{:?}", agent), expected);
        assert_ne!(format!("{:?}", agent), built(7, None));
        assert_ne!(expected, built(8, Some(ureq::Proxy::new(url).unwrap())));
        assert_eq!(format!("{:?}", build_agent(&proxy, 7).unwrap()), expected);
    }
}

#[test]
fn agent_without_a_proxy_is_direct() {
    let direct = resolve_effective_proxy(None, None);
    let agent = agent_with(&direct, 5, tls()).unwrap();
    assert_eq!(format!("{:?}", agent), built(5, None));
    assert_eq!(format!("{:?}", build_agent(&direct, 5).unwrap()), built(5, None));
}

#[test]
fn agent_refuses_what_is_no_proxy_address() {
    for url in ["https://h:1", "ftp://h", "http://user@h", "HTTP://h"] {
        let proxy = resolve_effective_proxy(Some(url), None);
        assert!(ureq::Proxy::new(url).is_err());
        let error = agent_with(&proxy, 5, tls()).unwrap_err();
        assert_eq!(error, format!("代理地址非法 {url}: Malformed proxy"));
        assert_eq!(build_agent(&proxy, 5).unwrap_err(), error);
    }
}

#[test]
fn agent_error_names_the_https_proxy() {
    let proxy = resolve_effective_proxy(Some("https://127.0.0.1:7897"), None);
    assert_eq!(
        build_agent(&proxy, 5).unwrap_err(),
        "代理地址非法 https://127.0.0.1:7897: Malformed proxy"
    );
    let system = read_system_proxy(Some(1), Some("https=127.0.0.1:7897"));
    let proxy = resolve_effective_proxy(None, system);
    assert_eq!(proxy.url(), Some("http://127.0.0.1:7897".to_string()));
    assert!(build_agent(&proxy, 5).is_ok());
}

#[test]
fn agent_needs_tls_first() {
    let proxy = resolve_effective_proxy(Some("ftp://h"), None);
    assert_eq!(
        agent_with(&proxy, 5, Err("no library".to_string())).unwrap_err(),
        "初始化 TLS 失败: no library"
    );
}
