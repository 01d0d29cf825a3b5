use tgin::source_longpull::{LongPollUpdate, SourceEvent, SourceStep};
use tgin::source_webhook::{RegistrationWebhookConfig, WebhookUpdate};

#[test]
fn longpoll_source_builds_upstream_url() {
    let up = LongPollUpdate::new("123:abc".to_string());
    assert_eq!(up.url, "https://api.telegram.org/bot123:abc/getUpdates");
    assert_eq!(up.offset, 0);
    assert_eq!(up.default_timeout_sleep, 100);
    assert_eq!(up.error_timeout_sleep, 200);
    assert_eq!(
        up.poll_request_url(),
        "https://api.telegram.org/bot123:abc/getUpdates?offset=0&timeout=30&limit=100"
    );
}

#[test]
fn longpoll_source_acknowledges_and_publishes() {
    let mut up = LongPollUpdate::new("t".to_string());
    up.set_timeouts(100, 200);
    let body = "{\"ok\":true,\"result\":[{\"update_id\":5},{\"update_id\":6}]}";
    let SourceStep { publish, sleep_ms } = up.step(SourceEvent::Response(body.to_string()));
    let bodies: Vec<&str> = publish.iter().map(|u| u.body.as_str()).collect();
    assert_eq!(bodies, vec!["{\"update_id\":5}", "{\"update_id\":6}"]);
    assert_eq!(up.offset, 7);
    assert_eq!(sleep_ms, 100);
    assert_eq!(
        up.poll_request_url(),
        "https://api.telegram.org/bott/getUpdates?offset=7&timeout=30&limit=100"
    );
}

#[test]
fn longpoll_source_skips_elements_without_an_id() {
    let mut up = LongPollUpdate::new("t".to_string());
    let body = "{\"result\":[{\"update_id\":3},{\"noise\":1},{\"update_id\":4}]}";
    let step = up.step(SourceEvent::Response(body.to_string()));
    let bodies: Vec<&str> = step.publish.iter().map(|u| u.body.as_str()).collect();
    assert_eq!(bodies, vec!["{\"update_id\":3}", "{\"update_id\":4}"]);
    assert_eq!(up.offset, 5);
}

#[test]
fn longpoll_source_parse_failure_backs_off() {
    let mut up = LongPollUpdate::new("t".to_string());
    up.set_timeouts(10, 99);
    let step = up.step(SourceEvent::Response("not json".to_string()));
    assert!(step.publish.is_empty());
    assert_eq!(step.sleep_ms, 99);
    assert_eq!(up.offset, 0);
}

#[test]
fn longpoll_source_missing_result_is_a_quiet_cycle() {
    let mut up = LongPollUpdate::new("t".to_string());
    up.set_timeouts(10, 99);
    let step = up.step(SourceEvent::Response("{\"ok\":true}".to_string()));
    assert!(step.publish.is_empty());
    assert_eq!(step.sleep_ms, 10);
    assert_eq!(up.offset, 0);
}

#[test]
fn longpoll_source_transport_failure_backs_off() {
    let mut up = LongPollUpdate::new("t".to_string());
    up.set_timeouts(10, 250);
    let step = up.step(SourceEvent::TransportError);
    assert!(step.publish.is_empty());
    assert_eq!(step.sleep_ms, 250);
}

#[test]
fn longpoll_source_custom_url() {
    let mut up = LongPollUpdate::new("t".to_string());
    up.set_url("http://localhost:9000/updates".to_string());
    assert_eq!(
        up.poll_request_url(),
        "http://localhost:9000/updates?offset=0&timeout=30&limit=100"
    );
}

#[test]
fn webhook_source_registration_request() {
    let mut up = WebhookUpdate::new("/hook".to_string());
    assert!(up.registration_request().is_none());

    let reg = RegistrationWebhookConfig::new("123:abc".to_string(), "http://1.2.3.4/".to_string());
    assert_eq!(reg.set_webhook_url, "https://api.telegram.org/bot123:abc/setWebhook");
    up.set_registration(reg);
    let (url, body) = up.registration_request().unwrap();
    assert_eq!(url, "https://api.telegram.org/bot123:abc/setWebhook");
    assert_eq!(body, "{\"url\":\"http://1.2.3.4/hook\"}");
}

#[test]
fn webhook_source_registration_override_url() {
    let mut reg = RegistrationWebhookConfig::new("t".to_string(), "http://h".to_string());
    reg.set_webhook_url("http://mock/setWebhook".to_string());
    let mut up = WebhookUpdate::new("/w".to_string());
    up.set_registration(reg);
    let (url, body) = up.registration_request().unwrap();
    assert_eq!(url, "http://mock/setWebhook");
    assert_eq!(body, "{\"url\":\"http://h/w\"}");
}
