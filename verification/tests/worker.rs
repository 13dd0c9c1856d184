use ipdetect::config::Config;
use ipdetect::probe::{ProbeReply, DEFAULT_PROBE_URLS};
use ipdetect::proxy::ProxySource;
use ipdetect::worker::{published_text, Worker, WorkerAction, WorkerEvent};

fn config(proxy_override: &str, refresh_secs: u64, probe_url: &str) -> WorkerEvent {
    WorkerEvent::Config(Config {
        proxy_override: proxy_override.to_string(),
        refresh_secs,
        probe_url: probe_url.to_string(),
    })
}

fn reply(body: &str) -> WorkerEvent {
    WorkerEvent::Reply(ProbeReply::Body(body.to_string()))
}

fn asked(worker: &Worker) -> (&str, &str) {
    match worker.action() {
        WorkerAction::Request {
            url, user_agent, ..
        } => (url, user_agent),
        action => panic!("unexpected: {:?}", action),
    }
}

#[test]
fn round_with_the_system_proxy() {
    let worker = Worker::LoadConfig;
    assert!(matches!(worker.action(), WorkerAction::LoadConfig));
    let worker = worker.advance(config(" ", 5, ""));
    assert!(matches!(worker.action(), WorkerAction::ReadSystemProxy));
    let worker = worker.advance(WorkerEvent::SystemProxy {
        enable: Some(1),
        server: Some("http=1.1.1.1:1".to_string()),
    });
    match worker.action() {
        WorkerAction::Connect { proxy, timeout_secs: 5 } => {
            assert_eq!(proxy.source(), ProxySource::System);
            assert_eq!(proxy.url(), Some("http://1.1.1.1:1".to_string()));
        }
        action => panic!("unexpected: {:?}", action),
    }
    let worker = worker.advance(WorkerEvent::Connected(Ok(agent(5))));
    assert_eq!(asked(&worker), (DEFAULT_PROBE_URLS[0], "ipDetect/0.1"));
    let worker = worker.advance(reply("no"));
    assert_eq!(asked(&worker), (DEFAULT_PROBE_URLS[1], "ipDetect/0.1"));
    let worker = worker.advance(reply("ip=1.2.3.4\nloc=JP"));
    assert!(matches!(worker.action(), WorkerAction::Publish("JP  1.2.3.4")));
    let worker = worker.advance(WorkerEvent::Returned);
    assert!(matches!(worker.action(), WorkerAction::Sleep(300)));
    let worker = worker.advance(WorkerEvent::Returned);
    assert!(matches!(worker.action(), WorkerAction::LoadConfig));
}

#[test]
fn round_without_any_proxy_is_direct() {
    let worker = Worker::LoadConfig
        .advance(config("", 900, "https://example.org/"))
        .advance(WorkerEvent::SystemProxy {
            enable: Some(0),
            server: Some("1.1.1.1:1".to_string()),
        });
    match worker.action() {
        WorkerAction::Connect { proxy, timeout_secs: 5 } => {
            assert_eq!(proxy.source(), ProxySource::Direct);
            assert_eq!(proxy.url(), None);
        }
        action => panic!("unexpected: {:?}", action),
    }
    let worker = worker.advance(WorkerEvent::Connected(Ok(agent(5))));
    assert_eq!(asked(&worker).0, "https://example.org/");
}

#[test]
fn round_with_an_override_leaves_the_system_alone() {
    let worker = Worker::LoadConfig.advance(config("127.0.0.1:1", 900, ""));
    match worker.action() {
        WorkerAction::Connect { proxy, timeout_secs: 5 } => {
            assert_eq!(proxy.source(), ProxySource::Manual);
            assert_eq!(proxy.url(), Some("http://127.0.0.1:1".to_string()));
        }
        action => panic!("unexpected: {:?}", action),
    }
    let worker = worker.advance(WorkerEvent::Connected(Err("no TLS".to_string())));
    assert!(matches!(worker.action(), WorkerAction::Publish("探测失败: no TLS")));
    let worker = worker.advance(WorkerEvent::Returned);
    assert!(matches!(worker.action(), WorkerAction::Sleep(900)));
}

#[test]
fn round_in_which_every_service_fails() {
    let mut worker = Worker::LoadConfig
        .advance(config("h", 300, ""))
        .advance(WorkerEvent::Connected(Ok(agent(5))));
    for url in DEFAULT_PROBE_URLS.iter() {
        assert_eq!(asked(&worker).0, *url);
        worker = worker.advance(reply(""));
    }
    let reasons: Vec<String> = DEFAULT_PROBE_URLS
        .iter()
        .map(|url| format!("{url}: 响应中没有有效的 IP 与国家码"))
        .collect();
    let expected = format!("探测失败: 所有出口 IP 接口均失败: {}", reasons.join(" | "));
    assert!(matches!(worker.action(), WorkerAction::Publish(text) if text == expected));
}

#[test]
fn other_events_change_nothing_in_a_round() {
    let worker = Worker::LoadConfig.advance(WorkerEvent::Returned).advance(reply("ip=1"));
    assert!(matches!(worker.action(), WorkerAction::LoadConfig));
}

#[test]
fn failure_is_published_with_its_reason() {
    assert_eq!(published_text(&Err("x".to_string())), "探测失败: x");
}

fn agent(timeout_secs: u64) -> ureq::Agent {
    ureq::AgentBuilder::new()
        .timeout(std::time::Duration::from_secs(timeout_secs))
        .build()
}

#[test]
fn requests_of_a_round_go_out_with_its_agent() {
    let mut worker = Worker::LoadConfig
        .advance(config("h", 300, ""))
        .advance(WorkerEvent::Connected(Ok(agent(77))));
    for _ in DEFAULT_PROBE_URLS.iter() {
        match worker.action() {
            WorkerAction::Request { agent: used, .. } => {
                assert_eq!(format!("{:?}", used), format!("{:?}", agent(77)));
                assert_ne!(format!("{:?}", used), format!("{:?}", agent(5)));
            }
            action => panic!("unexpected: {:?}", action),
        }
        worker = worker.advance(reply(""));
    }
}

#[test]
fn round_asks_a_configured_service_first() {
    let worker = Worker::LoadConfig
        .advance(config("h", 300, " https://ipapi.co/json/"))
        .advance(WorkerEvent::Connected(Ok(agent(5))));
    assert_eq!(asked(&worker).0, "https://ipapi.co/json/");
}
