use radiology_teaching_files::api::{
    bad_request, create_cors_headers, extract_method_and_path, not_found, options_response,
    server_error, HttpContext, Request, RequestContext, Response,
};
use radiology_teaching_files::models::{ApiResponse, ErrorResponse};

fn request() -> Request {
    Request { http_method: None, path: None, raw_path: None, request_context: None, body: None }
}

fn header<'a>(r: &'a Response, name: &str) -> Option<&'a str> {
    r.headers.iter().find(|h| h.0 == name).map(|h| h.1.as_str())
}

#[test]
fn method_and_path_from_top_level() {
    let mut r = request();
    r.http_method = Some("POST".to_string());
    r.path = Some("/api/cases".to_string());
    r.raw_path = Some("/raw".to_string());
    assert_eq!(extract_method_and_path(&r), ("POST".to_string(), "/api/cases".to_string()));
}

#[test]
fn method_and_path_from_context() {
    let mut r = request();
    r.raw_path = Some("/raw".to_string());
    r.request_context = Some(RequestContext {
        http: Some(HttpContext { method: Some("GET".to_string()), path: Some("/ctx".to_string()) }),
    });
    assert_eq!(extract_method_and_path(&r), ("GET".to_string(), "/raw".to_string()));
    r.raw_path = None;
    assert_eq!(extract_method_and_path(&r).1, "/ctx");
}

#[test]
fn method_and_path_defaults() {
    assert_eq!(extract_method_and_path(&request()), ("UNKNOWN".to_string(), "/".to_string()));
}

#[test]
fn cors_headers_listed() {
    let h = create_cors_headers();
    assert_eq!(h.len(), 3);
    assert_eq!(h[0], ("Content-Type".to_string(), "application/json".to_string()));
    assert_eq!(h[1].1, "GET, POST, PUT, DELETE, OPTIONS");
    assert_eq!(h[2].1, "Content-Type, Authorization, X-Requested-With");
}

#[test]
fn options_answer() {
    let r = options_response();
    assert_eq!(r.status_code, 200);
    assert!(!r.is_base64_encoded);
    assert_eq!(r.body, "");
    assert_eq!(header(&r, "Content-Type"), Some("application/json"));
}

#[test]
fn error_answers_carry_json_body() {
    let r = not_found("Case not found: \"x\"").unwrap();
    assert_eq!(r.status_code, 404);
    assert_eq!(r.body, "{\"success\":false,\"error\":\"Case not found: \\\"x\\\"\",\"error_code\":\"NOT_FOUND\"}");
    let r = bad_request("Missing request body").unwrap();
    assert_eq!(r.status_code, 400);
    assert_eq!(r.body, "{\"success\":false,\"error\":\"Missing request body\",\"error_code\":\"BAD_REQUEST\"}");
    let r = server_error("boom").unwrap();
    assert_eq!(r.status_code, 500);
    assert_eq!(r.body, "{\"success\":false,\"error\":\"boom\",\"error_code\":\"SERVER_ERROR\"}");
}

#[test]
fn error_answer_escapes_control_characters() {
    let r = not_found("a\\b\n\u{1}").unwrap();
    assert_eq!(r.body, "{\"success\":false,\"error\":\"a\\\\b\\n\\u0001\",\"error_code\":\"NOT_FOUND\"}");
}

#[test]
fn content_type_replaced_not_duplicated() {
    let r = Response::new(200, String::new()).with_content_type("application/dicom");
    assert_eq!(r.headers.len(), 3);
    assert_eq!(header(&r, "Content-Type"), Some("application/dicom"));
    let r = r.with_content_type("text/plain");
    assert_eq!(r.headers[0].1, "text/plain");
}

#[test]
fn binary_body_is_base64() {
    let r = Response::new(200, String::new()).into_binary(vec![0x44, 0x49, 0x43, 0x4d, 0xff]);
    assert!(r.is_base64_encoded);
    assert_eq!(r.body, "RElDTf8=");
    let r = Response::new(200, String::new()).into_binary(vec![0xfb, 0xff]);
    assert_eq!(r.body, "+/8=");
    let r = Response::new(200, String::new()).into_binary(Vec::new());
    assert_eq!(r.body, "");
    assert_eq!(r.status_code, 200);
}

#[test]
fn envelopes() {
    let ok = ApiResponse::success(5u8);
    assert!(ok.success);
    assert_eq!(ok.data, 5);
    assert!(ok.error.is_none());
    let e = ErrorResponse::not_found("gone");
    assert!(!e.success);
    assert_eq!((e.error.as_str(), e.error_code.as_str()), ("gone", "NOT_FOUND"));
    assert_eq!(ErrorResponse::bad_request("b").error_code, "BAD_REQUEST");
    assert_eq!(ErrorResponse::server_error("s".to_string()).error_code, "SERVER_ERROR");
    assert_eq!(ErrorResponse::not_implemented("n").error_code, "NOT_IMPLEMENTED");
}
