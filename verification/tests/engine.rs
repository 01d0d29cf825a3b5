use tgin::api::{AddLongpullRoute, AddRoute, AddWebhookRoute, RouteType, default_sublevel, route_of_add};
use tgin::route::{AllLB, LongPollRoute, RoundRobinLB, RouteNode, WebhookRoute};
use tgin::tgin::{Api, ApiMessage, Registry, Tgin};
use tgin::update::Update;

fn webhook(url: &str) -> RouteNode {
    RouteNode::Webhook(WebhookRoute::new(url.to_string()))
}

fn update(body: &str) -> Update {
    Update::new(body.to_string())
}

#[test]
fn round_robin_two_webhook_children() {
    let routes = vec![webhook("http://a"), webhook("http://b")];
    let root = RouteNode::RoundRobin(RoundRobinLB::new(routes));
    let mut engine = Tgin::new(Vec::new(), root, 4, None);

    let mut received_a: Vec<String> = Vec::new();
    let mut received_b: Vec<String> = Vec::new();
    for id in 1..=4 {
        let body = format!("{{\"update_id\":{}}}", id);
        let posts = engine.dispatch_update(&update(&body));
        assert_eq!(posts.len(), 1);
        assert_eq!(posts[0].body.body, body);
        match posts[0].url.as_str() {
            "http://a" => received_a.push(posts[0].body.body.clone()),
            "http://b" => received_b.push(posts[0].body.body.clone()),
            other => panic!("unexpected url {}", other),
        }
    }
    assert_eq!(received_a, vec!["{\"update_id\":1}", "{\"update_id\":3}"]);
    assert_eq!(received_b, vec!["{\"update_id\":2}", "{\"update_id\":4}"]);
}

#[test]
fn round_robin_empty_children_swallows() {
    let root = RouteNode::RoundRobin(RoundRobinLB::new(Vec::new()));
    let mut engine = Tgin::new(Vec::new(), root, 4, None);
    let posts = engine.dispatch_update(&update("{\"x\":1}"));
    assert!(posts.is_empty());
}

#[test]
fn broadcast_three_children() {
    let routes = vec![webhook("a"), webhook("b"), webhook("c")];
    let root = RouteNode::All(AllLB::new(routes));
    let mut engine = Tgin::new(Vec::new(), root, 4, None);
    let posts = engine.dispatch_update(&update("{\"msg\":\"hi\"}"));
    assert_eq!(posts.len(), 3);
    let urls: Vec<&str> = posts.iter().map(|p| p.url.as_str()).collect();
    assert_eq!(urls, vec!["a", "b", "c"]);
    for p in &posts {
        assert_eq!(p.body.body, "{\"msg\":\"hi\"}");
    }
}

#[test]
fn describe_reports_tree_shape() {
    let routes = vec![
        webhook("http://a"),
        RouteNode::LongPoll(LongPollRoute::new("/bot/updates".to_string())),
    ];
    let root = RouteNode::All(AllLB::new(routes));
    assert_eq!(
        root.describe(),
        "{\"type\":\"load-balancer\",\"name\":\"all\",\"routes\":[\
         {\"type\":\"webhook\",\"options\":{\"url\":\"http://a\"}},\
         {\"type\":\"longpoll\",\"options\":{\"path\":\"/bot/updates\"}}]}"
    );
}

#[test]
fn describe_escapes_quotes_and_backslashes() {
    let root = webhook("http://a/\"x\\y");
    assert_eq!(
        root.describe(),
        "{\"type\":\"webhook\",\"options\":{\"url\":\"http://a/\\\"x\\\\y\"}}"
    );
}

#[test]
fn describe_is_valid_json() {
    let routes = vec![webhook("http://a/\"q\\z"), webhook("b")];
    let root = RouteNode::RoundRobin(RoundRobinLB::new(routes));
    let parsed: serde_json::Value = serde_json::from_str(&root.describe()).unwrap();
    assert_eq!(parsed["type"], "load-balancer");
    assert_eq!(parsed["name"], "round-robin");
    assert_eq!(parsed["routes"][0]["options"]["url"], "http://a/\"q\\z");
}

#[test]
fn dynamic_add_webhook_then_describe_and_dispatch() {
    let root = RouteNode::All(AllLB::new(vec![webhook("http://a")]));
    let mut engine = Tgin::new(Vec::new(), root, 4, Some(3000));
    engine.set_api(Api::new("/admin".to_string()));

    let added = route_of_add(AddRoute {
        typee: RouteType::Webhook(AddWebhookRoute { url: "http://b".to_string() }),
        sublevel: default_sublevel(),
    });
    let reply = engine.handle_control(ApiMessage::AddRoute { route: added, sublevel: 0 });
    assert!(reply.is_none());

    let reply = engine.handle_control(ApiMessage::GetRoutes);
    assert_eq!(
        reply.unwrap(),
        "{\"type\":\"load-balancer\",\"name\":\"all\",\"routes\":[\
         {\"type\":\"webhook\",\"options\":{\"url\":\"http://a\"}},\
         {\"type\":\"webhook\",\"options\":{\"url\":\"http://b\"}}]}"
    );

    let posts = engine.dispatch_update(&update("{\"n\":1}"));
    let urls: Vec<&str> = posts.iter().map(|p| p.url.as_str()).collect();
    assert_eq!(urls, vec!["http://a", "http://b"]);
}

#[test]
fn dynamic_add_longpoll_registers_and_serves() {
    let root = RouteNode::All(AllLB::new(vec![webhook("http://a")]));
    let mut engine = Tgin::new(Vec::new(), root, 4, Some(3000));

    // before the add, the fallback handler knows nothing of the path
    let miss = engine.fallback_poll(&"/bot/late".to_string(), 10, 0, 100);
    assert!(miss.is_none());

    let added = route_of_add(AddRoute {
        typee: RouteType::Longpull(AddLongpullRoute { path: "/bot/late".to_string() }),
        sublevel: 0,
    });
    engine.handle_control(ApiMessage::AddRoute { route: added, sublevel: 0 });

    engine.dispatch_update(&update("{\"k\":9}"));
    match engine.fallback_poll(&"/bot/late".to_string(), 10, 0, 100) {
        Some(tgin::longpull::PollOutcome::Reply(batch)) => {
            let bodies: Vec<&str> = batch.iter().map(|u| u.body.as_str()).collect();
            assert_eq!(bodies, vec!["{\"k\":9}"]);
        },
        _ => panic!("fallback should serve the added path"),
    }
}

#[test]
fn add_route_on_leaf_root_is_dropped() {
    let root = webhook("http://only");
    let mut engine = Tgin::new(Vec::new(), root, 4, None);
    let added = route_of_add(AddRoute {
        typee: RouteType::Webhook(AddWebhookRoute { url: "http://b".to_string() }),
        sublevel: 0,
    });
    let reply = engine.handle_control(ApiMessage::AddRoute { route: added, sublevel: 0 });
    assert!(reply.is_none());
    assert_eq!(
        engine.routes_json(),
        "{\"type\":\"webhook\",\"options\":{\"url\":\"http://only\"}}"
    );
}

#[test]
fn static_longpoll_path_served_through_the_tree() {
    let routes = vec![
        webhook("http://a"),
        RouteNode::LongPoll(LongPollRoute::new("/bot/updates".to_string())),
    ];
    let root = RouteNode::All(AllLB::new(routes));
    let mut engine = Tgin::new(Vec::new(), root, 4, Some(3000));

    let posts = engine.dispatch_update(&update("{\"update_id\":1}"));
    assert_eq!(posts.len(), 1, "only the webhook leaf owes a post");

    match engine.poll_path(&"/bot/updates".to_string(), 5, 0, 100) {
        Some(tgin::longpull::PollOutcome::Reply(batch)) => {
            assert_eq!(
                tgin::longpull::updates_response(&batch),
                "{\"ok\":true,\"result\":[{\"update_id\":1}]}"
            );
        },
        _ => panic!("the mounted path must reply"),
    }
    assert!(engine.poll_path(&"/absent".to_string(), 5, 0, 100).is_none());
}

#[test]
fn registry_refuses_duplicate_paths() {
    let mut reg = Registry::new();
    assert!(reg.register("/bot/a".to_string()).is_ok());
    assert!(reg.register("/bot/a".to_string()).is_err());
    assert!(reg.register("/bot/b".to_string()).is_ok());
    assert!(reg.contains(&"/bot/a".to_string()));
    assert!(!reg.contains(&"/bot/c".to_string()));
}

#[test]
fn mount_paths_lists_longpoll_leaves_in_order() {
    let routes = vec![
        webhook("http://a"),
        RouteNode::LongPoll(LongPollRoute::new("/one".to_string())),
        RouteNode::All(AllLB::new(vec![RouteNode::LongPoll(LongPollRoute::new(
            "/two".to_string(),
        ))])),
    ];
    let root = RouteNode::RoundRobin(RoundRobinLB::new(routes));
    let paths = root.mount_paths();
    assert_eq!(paths, vec!["/one".to_string(), "/two".to_string()]);
}
