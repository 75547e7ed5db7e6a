use loadster::dispatch::{parse_header, parse_headers, worker_count, RequestSpec, USER_AGENT_VALUE};
use loadster::method::HttpMethod;
use loadster::sample::{is_success, Sample};

#[test]
fn method_names_ignore_case() {
    assert_eq!(HttpMethod::parse("get").unwrap(), HttpMethod::Get);
    assert_eq!(HttpMethod::parse("POST").unwrap(), HttpMethod::Post);
    assert_eq!(HttpMethod::parse("Put").unwrap(), HttpMethod::Put);
    assert_eq!(HttpMethod::parse("deLete").unwrap(), HttpMethod::Delete);
    assert_eq!(HttpMethod::parse("PATCH").unwrap(), HttpMethod::Patch);
    assert_eq!("patch".parse::<HttpMethod>().unwrap(), HttpMethod::Patch);
}

#[test]
fn unknown_method_is_rejected() {
    let e = HttpMethod::parse("Fetch").unwrap_err();
    assert_eq!(e.input, "Fetch");
    assert!(HttpMethod::parse("").is_err());
    assert!(HttpMethod::parse("gett").is_err());
    assert!(HttpMethod::parse("ge").is_err());
}

#[test]
fn body_only_for_methods_that_carry_one() {
    assert!(HttpMethod::Post.carries_body());
    assert!(HttpMethod::Put.carries_body());
    assert!(HttpMethod::Patch.carries_body());
    assert!(!HttpMethod::Get.carries_body());
    assert!(!HttpMethod::Delete.carries_body());
    let lines: Vec<String> = Vec::new();
    let post = RequestSpec::new("http://x.test".to_string(), HttpMethod::Post, &lines, Some("{}".to_string()), 5, 2);
    assert_eq!(post.body_to_send(), Some(&"{}".to_string()));
    let get = RequestSpec::new("http://x.test".to_string(), HttpMethod::Get, &lines, Some("{}".to_string()), 5, 2);
    assert_eq!(get.body_to_send(), None);
    let none = RequestSpec::new("http://x.test".to_string(), HttpMethod::Put, &lines, None, 5, 2);
    assert_eq!(none.body_to_send(), None);
}

#[test]
fn header_splits_at_first_colon() {
    assert_eq!(
        parse_header("Authorization: Bearer a:b"),
        Some(("Authorization".to_string(), " Bearer a:b".to_string()))
    );
    assert_eq!(parse_header("X-Empty:"), Some(("X-Empty".to_string(), String::new())));
    assert_eq!(parse_header("no colon here"), None);
    assert_eq!(parse_header(""), None);
    assert_eq!(parse_header("Ünï: çödé"), Some(("Ünï".to_string(), " çödé".to_string())));
}

#[test]
fn malformed_header_lines_are_skipped() {
    let lines = vec![
        "Accept: text/plain".to_string(),
        "broken".to_string(),
        "X-Trace:1".to_string(),
        "Accept: application/json".to_string(),
    ];
    let h = parse_headers(&lines);
    assert_eq!(
        h,
        vec![
            ("Accept".to_string(), " text/plain".to_string()),
            ("X-Trace".to_string(), "1".to_string()),
            ("Accept".to_string(), " application/json".to_string()),
        ]
    );
    let spec = RequestSpec::new("http://example.test/ok".to_string(), HttpMethod::Get, &lines, None, 30, 10);
    assert_eq!(spec.headers, h);
    assert_eq!(spec.concurrency, 10);
    assert_eq!(spec.timeout_secs, 30);
    assert_eq!(spec.url, "http://example.test/ok");
}

#[test]
fn worker_count_of_concurrency() {
    assert_eq!(worker_count(5), 5);
    assert_eq!(worker_count(1), 1);
    assert_eq!(worker_count(0), 0);
    assert_eq!(worker_count(-3), 0);
    assert_eq!(worker_count(i32::MAX), i32::MAX as usize);
}

#[test]
fn success_means_2xx() {
    assert!(is_success(200));
    assert!(is_success(299));
    assert!(!is_success(199));
    assert!(!is_success(300));
    assert!(!is_success(500));
    assert!(Sample::new(204, 1, 1).is_success());
    assert!(!Sample::new(404, 1, 1).is_success());
    assert_eq!(USER_AGENT_VALUE, "loadster 1.0.0");
}
