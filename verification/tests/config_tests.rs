use tgin::config::{
    RouteConfig, RouteStrategyConfig, UpdateConfig, build_route, build_updates, default_timeout,
    default_workers, substitute_env_vars,
};
use tgin::route::RouteNode;
use tgin::tgin::UpdateSource;

#[test]
fn defaults_match_the_file_format() {
    assert_eq!(default_workers(), 4);
    assert_eq!(default_timeout(), 100);
    assert_eq!(tgin::api::default_sublevel(), 0);
}

#[test]
fn build_route_assembles_the_tree() {
    let cfg = RouteConfig::RoundRobinLB {
        routes: vec![
            RouteConfig::WebhookRoute { url: "http://a".to_string() },
            RouteConfig::AllLB {
                routes: vec![RouteConfig::LongPollRoute { path: "/p".to_string() }],
            },
        ],
    };
    let root = build_route(cfg);
    assert_eq!(
        root.describe(),
        "{\"type\":\"load-balancer\",\"name\":\"round-robin\",\"routes\":[\
         {\"type\":\"webhook\",\"options\":{\"url\":\"http://a\"}},\
         {\"type\":\"load-balancer\",\"name\":\"all\",\"routes\":[\
         {\"type\":\"longpoll\",\"options\":{\"path\":\"/p\"}}]}]}"
    );
}

#[test]
fn strategy_config_becomes_a_route_config() {
    let s = RouteStrategyConfig::AllLB {
        routes: vec![RouteConfig::WebhookRoute { url: "u".to_string() }],
    };
    let root = build_route(s.into_route_config());
    match root {
        RouteNode::All(a) => assert_eq!(a.routes.len(), 1),
        _ => panic!("expected a broadcast balancer"),
    }
}

#[test]
fn build_updates_configures_each_source() {
    let sources = build_updates(vec![
        UpdateConfig::LongPollUpdate {
            token: "tok".to_string(),
            url: None,
            default_timeout_sleep: 150,
            error_timeout_sleep: 300,
        },
        UpdateConfig::LongPollUpdate {
            token: "ignored".to_string(),
            url: Some("http://local/u".to_string()),
            default_timeout_sleep: 100,
            error_timeout_sleep: 100,
        },
        UpdateConfig::WebhookUpdate { path: "/in".to_string(), registration: None },
    ]);
    assert_eq!(sources.len(), 3);
    match &sources[0] {
        UpdateSource::LongPoll(lp) => {
            assert_eq!(lp.url, "https://api.telegram.org/bottok/getUpdates");
            assert_eq!(lp.default_timeout_sleep, 150);
            assert_eq!(lp.error_timeout_sleep, 300);
        },
        _ => panic!("expected a long-poll source"),
    }
    match &sources[1] {
        UpdateSource::LongPoll(lp) => assert_eq!(lp.url, "http://local/u"),
        _ => panic!("expected a long-poll source"),
    }
    match &sources[2] {
        UpdateSource::Webhook(w) => {
            assert_eq!(w.path, "/in");
            assert!(w.registration.is_none());
        },
        _ => panic!("expected a webhook source"),
    }
}

fn env(pairs: &[(&str, &str)]) -> Vec<(String, String)> {
    pairs.iter().map(|(k, v)| (k.to_string(), v.to_string())).collect()
}

#[test]
fn substitution_replaces_references() {
    let vars = env(&[("TOKEN", "123:abc"), ("PORT", "8080")]);
    let out = substitute_env_vars("(token: \"${TOKEN}\", port: ${PORT})", &vars).unwrap();
    assert_eq!(out, "(token: \"123:abc\", port: 8080)");
}

#[test]
fn substitution_fails_on_a_missing_variable() {
    let vars = env(&[("A", "1")]);
    let err = substitute_env_vars("x ${MISSING} y", &vars).unwrap_err();
    assert_eq!(err, "MISSING");
}

#[test]
fn substitution_keeps_malformed_references() {
    let vars = env(&[("A", "1")]);
    assert_eq!(substitute_env_vars("a $A b", &vars).unwrap(), "a $A b");
    assert_eq!(substitute_env_vars("a ${ } b", &vars).unwrap(), "a ${ } b");
    assert_eq!(substitute_env_vars("a ${} b", &vars).unwrap(), "a ${} b");
    assert_eq!(substitute_env_vars("tail ${A", &vars).unwrap(), "tail ${A");
    assert_eq!(substitute_env_vars("${A}${A}", &vars).unwrap(), "11");
}
