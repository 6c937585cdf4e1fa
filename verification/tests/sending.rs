use datafusion_distributed::headers::request_headers;
use datafusion_distributed::plan::TaskKey;
use datafusion_distributed::prepare::SetPlanRequest;
use datafusion_distributed::sending::{
    plan_request, plan_request_with, plan_send_error, plan_sent, sent_result, CoordinatorMessage,
    SendError,
};
use http::{HeaderMap, HeaderName, HeaderValue};

fn headers(entries: &[(&'static str, &'static str)]) -> HeaderMap {
    let mut headers = HeaderMap::new();
    for (name, value) in entries {
        headers.append(HeaderName::from_static(name), HeaderValue::from_static(value));
    }
    headers
}

fn values(headers: &HeaderMap, name: &str) -> Vec<String> {
    headers
        .get_all(name)
        .iter()
        .map(|value| value.to_str().expect("text").to_string())
        .collect()
}

fn many(prefix: &str, count: usize) -> HeaderMap {
    let mut headers = HeaderMap::new();
    for i in 0..count {
        let name = HeaderName::try_from(format!("{prefix}-{i}")).expect("a header name");
        headers.insert(name, HeaderValue::from_static("x"));
    }
    headers
}

#[test]
fn passed_through_headers_win_over_the_configuration() {
    let config = headers(&[("a", "1"), ("b", "2"), ("b", "3")]);
    let passthrough = headers(&[("b", "4"), ("c", "5"), ("c", "6")]);
    let merged = request_headers(config, passthrough).expect("headers that fit");
    assert_eq!(values(&merged, "a"), ["1"]);
    assert_eq!(values(&merged, "b"), ["4"]);
    assert_eq!(values(&merged, "c"), ["5", "6"]);
    assert_eq!(merged.keys_len(), 3);
}

#[test]
fn headers_are_merged_up_to_a_limit() {
    let merged = request_headers(many("a", 6000), many("b", 553)).expect("headers that fit");
    assert_eq!(merged.keys_len(), 6553);
    assert!(request_headers(HeaderMap::new(), HeaderMap::new()).expect("none at all").is_empty());
    let merged = request_headers(many("a", 6553), HeaderMap::new()).expect("headers that fit");
    assert_eq!(merged.keys_len(), 6553);
    let merged = request_headers(HeaderMap::new(), many("b", 6553)).expect("headers that fit");
    assert_eq!(merged.keys_len(), 6553);
}

#[test]
fn headers_beyond_the_limit_are_given_back() {
    let given = request_headers(many("a", 6000), many("b", 554)).expect_err("too many headers");
    assert_eq!(given, (many("a", 6000), many("b", 554)));
    let given = request_headers(many("a", 6554), HeaderMap::new()).expect_err("too many headers");
    assert_eq!(given, (many("a", 6554), HeaderMap::new()));
}

#[test]
fn headers_with_one_name_are_counted_once() {
    let merged = request_headers(many("a", 4000), many("a", 4000)).expect("headers that fit");
    assert_eq!(merged.keys_len(), 4000);
    let merged = request_headers(many("a", 6000), many("a", 6553)).expect("headers that fit");
    assert_eq!(merged.keys_len(), 6553);
}

#[test]
fn headers_are_merged_as_by_extend() {
    let config = headers(&[("a", "1"), ("b", "2"), ("b", "3"), ("d", "9")]);
    let passthrough = headers(&[("c", "5"), ("b", "4"), ("c", "6"), ("c", "7"), ("b", "8")]);
    let mut extended = config.clone();
    extended.extend(passthrough.clone());
    let merged = request_headers(config, passthrough).expect("headers that fit");
    assert_eq!(merged, extended);
    assert_eq!(values(&merged, "b"), ["4", "8"]);
    assert_eq!(values(&merged, "c"), ["5", "6", "7"]);
}

#[test]
fn sensitive_headers_stay_sensitive() {
    let mut passthrough = HeaderMap::new();
    let mut value = HeaderValue::from_static("hidden");
    value.set_sensitive(true);
    passthrough.insert(HeaderName::from_static("token"), value);
    let merged = request_headers(HeaderMap::new(), passthrough).expect("headers that fit");
    assert!(merged.get("token").expect("the header").is_sensitive());
}

#[test]
fn a_plan_is_sent_in_one_message() {
    let request = SetPlanRequest {
        plan_proto: vec![1, 2],
        task_count: 3,
        task_key: Some(TaskKey { query_id: vec![9], stage_id: 1, task_number: 2 }),
    };
    let sent = plan_request(headers(&[("a", "1")]), headers(&[("b", "2")]), request)
        .expect("a request");
    assert_eq!(sent.metadata.keys_len(), 2);
    assert_eq!(values(sent.metadata.as_ref(), "a"), ["1"]);
    assert_eq!(values(sent.metadata.as_ref(), "b"), ["2"]);
    assert_eq!(sent.messages.len(), 1);
    let CoordinatorMessage::SetPlanRequest(request) = &sent.messages[0];
    assert_eq!(request.plan_proto, [1, 2]);
    assert_eq!(request.task_count, 3);
    assert_eq!(request.task_key.as_ref().expect("a key").task_number, 2);
}

#[test]
fn a_plan_with_too_many_headers_is_given_back() {
    let request = SetPlanRequest { plan_proto: vec![1], task_count: 2, task_key: None };
    let given = plan_request(many("a", 6000), many("b", 6000), request)
        .expect_err("too many headers");
    assert_eq!(given.config, many("a", 6000));
    assert_eq!(given.passthrough, many("b", 6000));
    let mut headers = given.config;
    headers.extend(given.passthrough);
    let sent = plan_request_with(headers, given.request);
    assert_eq!(sent.metadata.keys_len(), 12000);
    let CoordinatorMessage::SetPlanRequest(request) = &sent.messages[0];
    assert_eq!((request.plan_proto.as_slice(), request.task_count), ([1u8].as_slice(), 2));
    assert_eq!(sent.messages.len(), 1);
}

#[test]
fn refusals_are_described_unless_the_worker_says_more() {
    match plan_send_error(None::<u8>, "http://a/", "status: Unavailable") {
        SendError::Refused(text) => assert_eq!(
            text,
            "Error sending plan to worker http://a/: status: Unavailable"
        ),
        SendError::Worker(_) => panic!("the worker said nothing"),
    }
    assert!(matches!(
        plan_send_error(Some(7u8), "http://a/", "status"),
        SendError::Worker(7)
    ));
}

#[test]
fn waiters_learn_whether_a_plan_was_sent() {
    assert_eq!(plan_sent(Ok::<u8, &str>(7)), (Ok(()), Some(7)));
    assert_eq!(plan_sent(Err::<u8, &str>("refused")), (Err("refused"), None));
    assert_eq!(sent_result(Some(Err("refused"))), Err("refused"));
    assert_eq!(sent_result(Some(Ok::<(), &str>(()))), Ok(()));
    assert_eq!(sent_result(None::<Result<(), &str>>), Ok(()));
}
