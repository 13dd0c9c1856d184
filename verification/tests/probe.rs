use ipdetect::json::Json;
use ipdetect::probe::{
    info_from_json, parseProbeResponse, parse_trace, probeWithFallback, requestProbe, FallbackRun,
    FallbackStep, IpInfo, ProbeReply, CLOUDFLARE_TRACE_URL, DEFAULT_PROBE_URLS,
};

#[test]
fn parse_trace_extracts_ip_and_loc() {
    let body = "fl=123\nh=www.cloudflare.com\nip=1.2.3.4\nts=1\nloc=JP\ncolo=NRT\n";
    let info = parse_trace(body).unwrap();
    assert_eq!(info.ip, "1.2.3.4");
    assert_eq!(info.country_code, "JP");
}

#[test]
fn parse_trace_without_loc() {
    let body = "ip=9.9.9.9\nfoo=bar\n";
    let info = parse_trace(body).unwrap();
    assert_eq!(info.ip, "9.9.9.9");
    assert_eq!(info.country_code, "");
}

#[test]
fn parse_trace_no_ip_is_none() {
    assert!(parse_trace("loc=US\n").is_none());
}

#[test]
fn display_text_format() {
    let info = IpInfo {
        ip: "1.2.3.4".to_string(),
        country_code: "JP".to_string(),
    };
    assert_eq!(info.display_text(), "JP  1.2.3.4");
}

#[test]
fn display_text_without_country() {
    let info = IpInfo {
        ip: "1.2.3.4".to_string(),
        country_code: String::new(),
    };
    assert_eq!(info.display_text(), "1.2.3.4");
}

/// The answer of api.ip.sb gives the address and the country code.
#[test]
#[allow(non_snake_case)]
fn parseApiIpSbResponse() {
    let body = r#"{"ip":"20.27.94.129","country_code":"JP","city":"Osaka"}"#;
    let info = parseProbeResponse(body).unwrap();
    assert_eq!(info.ip, "20.27.94.129");
    assert_eq!(info.country_code, "JP");
}

/// Services name their fields differently; the address comes out the same way.
#[test]
#[allow(non_snake_case)]
fn parseAlternativeJsonResponses() {
    let db_ip = r#"{"ipAddress":"4.197.64.24","countryCode":"AU"}"#;
    let my_ip = r#"{"ip":"70.153.76.30","country":"Indonesia","cc":"ID"}"#;
    let ip_query = r#"{"ip":"20.210.211.204","location":{"country":"Japan","country_code":"JP"}}"#;

    assert_eq!(parseProbeResponse(db_ip).unwrap().country_code, "AU");
    assert_eq!(parseProbeResponse(my_ip).unwrap().country_code, "ID");
    assert_eq!(parseProbeResponse(ip_query).unwrap().country_code, "JP");
}

/// The built-in services are asked over HTTPS alone; api.ip.sb is one of them.
#[test]
#[allow(non_snake_case)]
fn defaultEndpointsAreSecureAndContainAddressFive() {
    assert!(DEFAULT_PROBE_URLS
        .iter()
        .all(|url| url.starts_with("https://")));
    assert!(DEFAULT_PROBE_URLS.contains(&"https://api.ip.sb/geoip/"));
}

fn object(members: Vec<(&str, Json)>) -> Json {
    Json::Object(
        members
            .into_iter()
            .map(|(name, value)| (name.to_string(), value))
            .collect(),
    )
}

fn text(value: &str) -> Json {
    Json::Text(value.to_string())
}

fn body(value: &str) -> ProbeReply {
    ProbeReply::Body(value.to_string())
}

fn failure(reason: &str) -> ProbeReply {
    ProbeReply::RequestFailed(reason.to_string())
}

#[test]
fn trace_fields_are_trimmed_and_the_last_one_counts() {
    let info = parse_trace("ip=1.1.1.1\r\nloc= jp \r\nip= 2.2.2.2\t\r\nloc=us\r").unwrap();
    assert_eq!(info.ip, "2.2.2.2");
    assert_eq!(info.country_code, "US");
}

#[test]
fn trace_keys_stand_at_the_start_of_a_line() {
    assert_eq!(parse_trace(" ip=1.1.1.1\nxip=2.2.2.2"), None);
    assert_eq!(parse_trace(""), None);
}

#[test]
fn trace_country_is_two_letters_or_nothing() {
    let code = |loc: &str| {
        parse_trace(&format!("ip=1.2.3.4\nloc={loc}"))
            .unwrap()
            .country_code
    };
    assert_eq!(code("jp"), "JP");
    assert_eq!(code(" Us\t"), "US");
    for loc in ["japan", "JPN", "J", "", "T1", "ß", "é", "jp us", "日本"] {
        assert_eq!(code(loc), "", "{loc}");
    }
    let info = parseProbeResponse("ip=1.2.3.4\nloc=JP\nloc=japan").unwrap();
    assert_eq!(info.display_text(), "1.2.3.4");
}

#[test]
fn trace_with_an_empty_address_is_a_trace() {
    let info = parse_trace("ip=\nloc=JP").unwrap();
    assert_eq!(info.ip, "");
    assert_eq!(info.country_code, "JP");
}

#[test]
fn trace_comes_before_json() {
    let info = parseProbeResponse("ip=9.9.9.9\n{\"ip\":\"1.1.1.1\"}").unwrap();
    assert_eq!(info.ip, "9.9.9.9");
}

#[test]
fn json_address_must_be_an_address() {
    assert_eq!(parseProbeResponse(r#"{"ip":"example.org"}"#), None);
    assert_eq!(parseProbeResponse(r#"{"ip":"256.1.1.1"}"#), None);
    assert_eq!(parseProbeResponse(r#"{"country":"JP"}"#), None);
    assert_eq!(parseProbeResponse("not json"), None);
    assert_eq!(parseProbeResponse(r#"{"ip":"1.1.1.1""#), None);
}

#[test]
fn json_country_is_two_letters_or_nothing() {
    let info = parseProbeResponse(r#"{"ip":" 2001:db8::1 ","country":"Japan"}"#).unwrap();
    assert_eq!(info.ip, "2001:db8::1");
    assert_eq!(info.country_code, "");
    let info = parseProbeResponse(r#"{"query":"1.1.1.1","cc":"au"}"#).unwrap();
    assert_eq!(info.country_code, "AU");
    let info = parseProbeResponse(r#"{"query":"1.1.1.1","cc":"é"}"#).unwrap();
    assert_eq!(info.country_code, "");
}

#[test]
fn json_first_text_decides_even_where_it_is_no_address() {
    let answer = r#"{"ip":"unknown","query":"1.1.1.1"}"#;
    assert_eq!(parseProbeResponse(answer), None);
    let answer = r#"{"ip":"  ","query":"1.1.1.1"}"#;
    assert_eq!(parseProbeResponse(answer).unwrap().ip, "1.1.1.1");
    let answer = r#"{"ip":17,"ipAddress":null,"query":"1.1.1.1"}"#;
    assert_eq!(parseProbeResponse(answer).unwrap().ip, "1.1.1.1");
}

#[test]
fn document_of_this_library_gives_its_address() {
    let json = object(vec![
        ("country", text("Japan")),
        (
            "location",
            object(vec![("country_code", text("jp")), ("ip", text("3.3.3.3"))]),
        ),
        ("query", text("1.2.3.4")),
    ]);
    let info = info_from_json(&json).unwrap();
    assert_eq!(info.ip, "1.2.3.4");
    assert_eq!(info.country_code, "");
    assert_eq!(info_from_json(&Json::Scalar), None);
}

#[test]
fn reply_outcomes() {
    assert_eq!(
        requestProbe(&body("ip=1.2.3.4\nloc=JP\n")).unwrap().display_text(),
        "JP  1.2.3.4"
    );
    assert_eq!(
        requestProbe(&body("<html>")),
        Err("响应中没有有效的 IP 与国家码".to_string())
    );
    assert_eq!(
        requestProbe(&failure("timed out")),
        Err("请求失败: timed out".to_string())
    );
    assert_eq!(
        requestProbe(&ProbeReply::ReadFailed("reset".to_string())),
        Err("读取响应失败: reset".to_string())
    );
}

#[test]
fn preferred_service_is_asked_first() {
    let run = FallbackRun::start(Some("  https://example.org/ip "));
    assert_eq!(run.url(), "https://example.org/ip");
    match probeWithFallback(run, &failure("x")) {
        FallbackStep::Request(next) => assert_eq!(next.url(), DEFAULT_PROBE_URLS[0]),
        FallbackStep::Finished(_) => panic!("eight services are left"),
    }
}

/// The services that a probe asks where all of them fail.
fn asked_by(mut run: FallbackRun) -> Vec<String> {
    let mut asked: Vec<String> = Vec::new();
    loop {
        asked.push(run.url().to_string());
        match probeWithFallback(run, &failure("down")) {
            FallbackStep::Request(next) => run = next,
            FallbackStep::Finished(_) => return asked,
        }
    }
}

#[test]
fn preferred_service_that_is_blank_changes_nothing() {
    let built_in = DEFAULT_PROBE_URLS.to_vec();
    assert_eq!(asked_by(FallbackRun::start(None)), built_in);
    assert_eq!(asked_by(FallbackRun::start(Some(""))), built_in);
    assert_eq!(asked_by(FallbackRun::start(Some(" \t"))), built_in);
}

#[test]
fn preferred_service_that_is_built_in_is_asked_first_and_once() {
    for preferred in DEFAULT_PROBE_URLS.iter().copied() {
        let mut expected = vec![preferred];
        expected.extend(DEFAULT_PROBE_URLS.iter().copied().filter(|url| *url != preferred));
        assert_eq!(asked_by(FallbackRun::start(Some(preferred))), expected);
    }
    let run = FallbackRun::start(Some(" https://ipapi.co/json/ "));
    assert_eq!(run.url(), "https://ipapi.co/json/");
    match probeWithFallback(run, &body("ip=1.2.3.4\nloc=JP")) {
        FallbackStep::Finished(Ok(info)) => assert_eq!(info.display_text(), "JP  1.2.3.4"),
        step => panic!("unexpected: {:?}", step),
    }
    assert_eq!(
        asked_by(FallbackRun::start(Some(CLOUDFLARE_TRACE_URL)))[..2],
        [CLOUDFLARE_TRACE_URL, DEFAULT_PROBE_URLS[0]]
    );
}

#[test]
fn first_address_ends_the_probe() {
    let run = FallbackRun::start(None);
    let run = match probeWithFallback(run, &failure("x")) {
        FallbackStep::Request(next) => next,
        FallbackStep::Finished(_) => panic!("seven services are left"),
    };
    assert_eq!(run.url(), DEFAULT_PROBE_URLS[1]);
    match probeWithFallback(run, &body(r#"{"ip":"5.6.7.8","country_code":"DE"}"#)) {
        FallbackStep::Finished(Ok(info)) => assert_eq!(info.display_text(), "DE  5.6.7.8"),
        step => panic!("unexpected: {:?}", step),
    }
}

#[test]
fn every_service_is_asked_once_and_the_error_names_them_all() {
    let mut run = FallbackRun::start(None);
    let mut asked: Vec<String> = Vec::new();
    let error = loop {
        asked.push(run.url().to_string());
        match probeWithFallback(run, &failure("down")) {
            FallbackStep::Request(next) => run = next,
            FallbackStep::Finished(result) => break result.unwrap_err(),
        }
    };
    let expected: Vec<String> = DEFAULT_PROBE_URLS.iter().map(|url| url.to_string()).collect();
    assert_eq!(asked, expected);
    let reasons: Vec<String> = expected
        .iter()
        .map(|url| format!("{url}: 请求失败: down"))
        .collect();
    assert_eq!(error, format!("所有出口 IP 接口均失败: {}", reasons.join(" | ")));
}
