use tgin::longpull::{GetUpdatesParams, PollOutcome, deadline_of, parse_get_updates, updates_response};
use tgin::route::LongPollRoute;
use tgin::update::Update;

fn leaf(path: &str) -> LongPollRoute {
    LongPollRoute::new(path.to_string())
}

fn update(body: &str) -> Update {
    Update::new(body.to_string())
}

fn reply_bodies(outcome: PollOutcome) -> Vec<String> {
    match outcome {
        PollOutcome::Reply(batch) => batch.into_iter().map(|u| u.body).collect(),
        PollOutcome::Wait(_) => panic!("expected a reply"),
    }
}

#[test]
fn longpoll_basic_drains_in_order() {
    let mut l = leaf("/bot/updates");
    l.process(&update("{\"update_id\":1}"));
    l.process(&update("{\"update_id\":2}"));

    // timeout=0: the deadline equals now, so an answer comes at once
    let deadline = deadline_of(50, 0);
    assert_eq!(deadline, 50);
    let batch = match l.poll_step(50, deadline, 100) {
        PollOutcome::Reply(batch) => batch,
        PollOutcome::Wait(_) => panic!("non-empty queue must reply"),
    };
    assert_eq!(
        updates_response(&batch),
        "{\"ok\":true,\"result\":[{\"update_id\":1},{\"update_id\":2}]}"
    );

    // a second identical call finds the queue empty
    let batch = match l.poll_step(51, 51, 100) {
        PollOutcome::Reply(batch) => batch,
        PollOutcome::Wait(_) => panic!("expired deadline must reply"),
    };
    assert_eq!(updates_response(&batch), "{\"ok\":true,\"result\":[]}");
}

#[test]
fn longpoll_blocking_waits_then_carries_the_write() {
    let mut l = leaf("/bot/updates");
    // timeout=5s from t=0: the empty queue asks for a wait
    let deadline = deadline_of(0, 5);
    assert_eq!(deadline, 5000);
    match l.poll_step(0, deadline, 1000) {
        PollOutcome::Wait(ms) => assert_eq!(ms, 5000),
        PollOutcome::Reply(_) => panic!("empty queue before the deadline must wait"),
    }
    // at t=100ms the writer appends; the woken turn carries it
    l.process(&update("{\"msg\":\"hello\"}"));
    assert_eq!(reply_bodies(l.poll_step(100, deadline, 1000)), vec!["{\"msg\":\"hello\"}"]);
}

#[test]
fn longpoll_limit_batches_then_rest() {
    let mut l = leaf("/bot/updates");
    for id in 0..10 {
        l.process(&update(&format!("{{\"id\":{}}}", id)));
    }
    let first = reply_bodies(l.poll_step(10, 0, 4));
    assert_eq!(first, vec!["{\"id\":0}", "{\"id\":1}", "{\"id\":2}", "{\"id\":3}"]);
    let rest = reply_bodies(l.poll_step(11, 0, 1000));
    assert_eq!(
        rest,
        vec!["{\"id\":4}", "{\"id\":5}", "{\"id\":6}", "{\"id\":7}", "{\"id\":8}", "{\"id\":9}"]
    );
}

#[test]
fn longpoll_wait_is_the_remaining_time() {
    let mut l = leaf("/p");
    match l.poll_step(1200, 5000, 10) {
        PollOutcome::Wait(ms) => assert_eq!(ms, 3800),
        PollOutcome::Reply(_) => panic!("must wait"),
    }
}

#[test]
fn deadline_saturates_at_the_end_of_time() {
    assert_eq!(deadline_of(0, 5), 5000);
    assert_eq!(deadline_of(u64::MAX - 10, 1), u64::MAX);
    assert_eq!(deadline_of(7, u64::MAX), u64::MAX);
}

#[test]
fn form_params_parse_each_field() {
    let p: GetUpdatesParams = parse_get_updates("offset=5&timeout=30&limit=100");
    assert_eq!(p.offset, Some(5));
    assert_eq!(p.timeout, Some(30));
    assert_eq!(p.limit, Some(100));
}

#[test]
fn form_params_all_optional() {
    let p = parse_get_updates("");
    assert_eq!(p.offset, None);
    assert_eq!(p.timeout, None);
    assert_eq!(p.limit, None);

    let p = parse_get_updates("timeout=5");
    assert_eq!(p.offset, None);
    assert_eq!(p.timeout, Some(5));
    assert_eq!(p.limit, None);
}

#[test]
fn form_params_negative_offset_and_noise() {
    let p = parse_get_updates("offset=-3&other=9&timeout");
    assert_eq!(p.offset, Some(-3));
    assert_eq!(p.timeout, None);
    assert_eq!(p.limit, None);
}

#[test]
fn form_params_last_occurrence_wins_and_bad_values_are_ignored() {
    let p = parse_get_updates("limit=4&limit=7");
    assert_eq!(p.limit, Some(7));
    let p = parse_get_updates("limit=4&limit=abc");
    assert_eq!(p.limit, Some(4));
    let p = parse_get_updates("timeout=99999999999999999999");
    assert_eq!(p.timeout, None);
}

#[test]
fn empty_batch_renders_empty_result() {
    let batch: Vec<Update> = Vec::new();
    assert_eq!(updates_response(&batch), "{\"ok\":true,\"result\":[]}");
}
