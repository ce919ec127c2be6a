use grafbabe::http::{
    content_type, content_type_for, decide, empty_response, get_queryparam, if_none_match,
    json_response, metrics_query, parse_querystring, respond, Header, Reply, RequestHead,
    StatusCode,
};
use grafbabe::models::Window;

#[test]
fn status_lines() {
    assert_eq!(StatusCode::OK.as_str(), "200");
    assert_eq!(StatusCode::NOT_MODIFIED.as_str(), "304");
    assert_eq!(StatusCode::BAD_REQUEST.reason(), "Bad Request");
    assert_eq!(StatusCode::NOT_FOUND.to_string(), "404 Not Found");
    assert_eq!(
        empty_response(StatusCode::NOT_FOUND),
        "HTTP/1.1 404 Not Found\r\nConnection: close\r\n\r\n"
    );
}

#[test]
fn json_response_counts_bytes() {
    assert_eq!(
        json_response("{\"a\":\"é\"}"),
        "HTTP/1.1 200 Ok\r\nContent-Length: 10\r\nContent-Type: application/json;charset=utf-8\r\n\r\n{\"a\":\"é\"}"
    );
}

#[test]
fn content_types_by_extension() {
    assert_eq!(content_type("dashboard.html"), Some("text/html;charset=utf-8"));
    assert_eq!(content_type("a/b/chart.umd.min.js"), Some("application/javascript;charset=utf-8"));
    assert_eq!(content_type("style.css"), Some("text/css;charset=utf-8"));
    assert_eq!(content_type("chart.umd.min.js.map"), None);
    assert_eq!(content_type("README"), None);
    assert_eq!(content_type(".html"), None);
    assert_eq!(content_type_for(Some("js")), Some("application/javascript;charset=utf-8"));
    assert_eq!(content_type_for(None), None);
}

#[test]
fn querystrings() {
    let q = parse_querystring("range=1h&num_samples=50&flag&range=4h");
    assert_eq!(q, vec![("range", "1h"), ("num_samples", "50"), ("flag", ""), ("range", "4h")]);
    assert_eq!(get_queryparam(Some(q.as_slice()), "range"), Some("1h"));
    assert_eq!(get_queryparam(Some(q.as_slice()), "flag"), Some(""));
    assert_eq!(get_queryparam(Some(q.as_slice()), "missing"), None);
    assert_eq!(get_queryparam(None, "range"), None);
    assert_eq!(parse_querystring(""), vec![("", "")]);
}

#[test]
fn metrics_queries() {
    assert_eq!(metrics_query(None), Some((100, Window::Hour)));
    assert_eq!(metrics_query(Some("range=15m")), Some((100, Window::QuarterHour)));
    assert_eq!(metrics_query(Some("range=1m&num_samples=+20")), Some((20, Window::Month)));
    assert_eq!(metrics_query(Some("range=1y")), None);
    assert_eq!(metrics_query(Some("num_samples=-1")), None);
    assert_eq!(metrics_query(Some("num_samples=99999999999999999999999")), None);
}

fn head(method: &str, path: &str) -> RequestHead {
    RequestHead { method: Some(method.to_string()), path: Some(path.to_string()), headers: vec![] }
}

#[test]
fn routes() {
    assert!(matches!(decide(&head("GET", "/")), Reply::File { path: "dashboard.html", if_none_match: None }));
    assert!(matches!(decide(&head("GET", "/dashboard.js?x=1")), Reply::File { path: "dashboard.js", .. }));
    assert!(matches!(
        decide(&head("GET", "/metrics?range=4h&num_samples=10")),
        Reply::Metrics { num_samples: 10, window: Window::Hour4 }
    ));
    assert!(matches!(decide(&head("GET", "/metrics?range=2h")), Reply::Empty(StatusCode::BAD_REQUEST)));
    assert!(matches!(decide(&head("POST", "/")), Reply::Empty(StatusCode::NOT_FOUND)));
    assert!(matches!(decide(&head("GET", "/nope")), Reply::Empty(StatusCode::NOT_FOUND)));
    let no_path = RequestHead { method: Some("GET".to_string()), path: None, headers: vec![] };
    assert!(matches!(decide(&no_path), Reply::Empty(StatusCode::BAD_REQUEST)));
}

#[test]
fn if_none_match_header_in_any_case() {
    let headers = vec![
        Header { name: "Host".to_string(), value: b"x".to_vec() },
        Header { name: "If-None-Match".to_string(), value: b"\"abc\"".to_vec() },
        Header { name: "if-none-match".to_string(), value: b"\"def\"".to_vec() },
    ];
    assert_eq!(if_none_match(&headers), Some("\"abc\"".to_string()));
    let bad = vec![Header { name: "IF-NONE-MATCH".to_string(), value: vec![0xff, 0xfe] }];
    assert_eq!(if_none_match(&bad), None);
}

#[test]
fn requests_are_read_from_bytes() {
    let r = respond(b"GET /metrics?range=1d HTTP/1.1\r\nHost: x\r\n\r\n").unwrap();
    assert!(matches!(r, Reply::Metrics { num_samples: 100, window: Window::Day }));
    let r = respond(b"GET / HTTP/1.1\r\nIf-None-Match: \"e\"\r\n\r\n").unwrap();
    match r {
        Reply::File { path, if_none_match } => {
            assert_eq!(path, "dashboard.html");
            assert_eq!(if_none_match, Some("\"e\"".to_string()));
        }
        _ => panic!("expected a file"),
    }
    let partial = respond(b"GET / HTTP/1.1\r\nHost").unwrap();
    assert!(matches!(partial, Reply::Empty(StatusCode::BAD_REQUEST)));
    assert!(respond(b"GET / HTTP/1.1\r\nBad Header\r\n\r\n").is_err());
}

#[test]
fn too_many_headers_is_an_error() {
    let mut req = String::from("GET / HTTP/1.1\r\n");
    for i in 0..30 {
        req.push_str(&format!("X-{}: y\r\n", i));
    }
    req.push_str("\r\n");
    assert!(respond(req.as_bytes()).is_err());
}
