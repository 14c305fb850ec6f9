use mochi_browser::http::HttpResponse;

#[test]
fn test_http_response_default() {
    let response = HttpResponse {
        status: 0,
        headers: vec![],
        body: String::new(),
    };

    assert_eq!(response.status, 0);
    assert_eq!(response.headers.len(), 0);
    assert_eq!(response.body, "");
}

#[test]
fn test_http_response_with_data() {
    let response = HttpResponse {
        status: 200,
        headers: vec![
            ("content-length".to_string(), "100".to_string()),
            ("content-type".to_string(), "text/plain".to_string()),
        ],
        body: "Hello, World!".to_string(),
    };

    assert_eq!(response.status, 200);
    assert_eq!(response.headers.len(), 2);
    assert_eq!(response.headers[0].0, "content-length");
    assert_eq!(response.headers[0].1, "100");
    assert_eq!(response.headers[1].0, "content-type");
    assert_eq!(response.headers[1].1, "text/plain");
    assert_eq!(response.body, "Hello, World!");
}

#[test]
fn test_http_response_clone() {
    let response = HttpResponse {
        status: 404,
        headers: vec![("x-custom".to_string(), "value".to_string())],
        body: "Not Found".to_string(),
    };

    let cloned = response.clone();

    assert_eq!(cloned, response);
    assert_eq!(cloned.status, 404);
    assert_eq!(cloned.body, "Not Found");
}
