use ai_strategist::relay_json::{
    chat_body_to_responses, chat_reply_body_to_responses, extract_model,
    chat_reply_to_responses, chat_request_to_responses, error_body, first_item, get_field,
    health_body, reply_is_rewritten, response_head, response_text_from_responses,
    responses_reply_to_chat, responses_request_to_chat, status_text_exec, text_of, JsonValue,
};

fn s(x: &str) -> JsonValue {
    JsonValue::Str(x.to_string())
}

fn obj(pairs: Vec<(&str, JsonValue)>) -> JsonValue {
    JsonValue::Object(pairs.into_iter().map(|(k, v)| (k.to_string(), v)).collect())
}

fn at<'a>(v: &'a JsonValue, key: &str) -> &'a JsonValue {
    get_field(v, key).expect("field present")
}

fn first<'a>(v: &'a JsonValue) -> &'a JsonValue {
    first_item(v).expect("non-empty array")
}

fn text(v: &JsonValue) -> String {
    text_of(v).expect("string value")
}

#[test]
fn converts_between_chat_and_responses_shapes() {
    let chat = obj(vec![
        ("model", s("x")),
        ("messages", JsonValue::Array(vec![obj(vec![("role", s("user")), ("content", s("hi"))])])),
        ("stream", JsonValue::Bool(true)),
    ]);
    let responses = chat_request_to_responses(chat).unwrap();
    assert_eq!(text(at(&responses, "model")), "x");
    assert_eq!(text(at(first(at(&responses, "input")), "content")), "hi");
    assert!(matches!(at(&responses, "stream"), JsonValue::Bool(true)));

    let request = obj(vec![("model", s("x")), ("input", s("hello"))]);
    let chat = responses_request_to_chat(request, "\"hello\"".to_string()).unwrap();
    assert_eq!(text(at(first(at(&chat, "messages")), "role")), "user");
    assert_eq!(text(at(first(at(&chat, "messages")), "content")), "hello");
}

#[test]
fn converts_response_payloads_between_protocol_shapes() {
    assert!(reply_is_rewritten(200, "application/json"));
    let reply = obj(vec![("id", s("r1")), ("model", s("x")), ("output_text", s("hello"))]);
    let chat = responses_reply_to_chat(reply);
    assert_eq!(text(at(&chat, "object")), "chat.completion");
    assert_eq!(text(at(at(first(at(&chat, "choices")), "message"), "content")), "hello");

    let reply = obj(vec![
        ("id", s("c1")),
        ("model", s("x")),
        ("choices", JsonValue::Array(vec![obj(vec![("message", obj(vec![("content", s("hi"))]))])])),
    ]);
    let responses = chat_reply_to_responses(reply);
    assert_eq!(text(at(&responses, "object")), "response");
    assert_eq!(text(at(&responses, "output_text")), "hi");
}

#[test]
fn request_conversions_report_missing_fields() {
    assert_eq!(chat_request_to_responses(obj(vec![("messages", JsonValue::Array(vec![]))])).unwrap_err(), "model is required");
    assert_eq!(chat_request_to_responses(obj(vec![("model", s("x"))])).unwrap_err(), "messages is required");
    assert_eq!(responses_request_to_chat(obj(vec![("model", s("x"))]), String::new()).unwrap_err(), "input is required");
    assert_eq!(chat_request_to_responses(s("not an object")).unwrap_err(), "model is required");
}

#[test]
fn responses_input_other_than_text_or_list() {
    let listed = obj(vec![
        ("model", s("x")),
        ("input", JsonValue::Array(vec![obj(vec![("role", s("system")), ("content", s("be brief"))])])),
    ]);
    let chat = responses_request_to_chat(listed, String::new()).unwrap();
    assert_eq!(text(at(first(at(&chat, "messages")), "role")), "system");
    assert!(get_field(&chat, "stream").is_none());

    let number = obj(vec![("model", s("x")), ("input", JsonValue::Number("42".to_string())), ("stream", JsonValue::Bool(false))]);
    let chat = responses_request_to_chat(number, "42".to_string()).unwrap();
    assert_eq!(text(at(first(at(&chat, "messages")), "content")), "42");
    assert!(matches!(at(&chat, "stream"), JsonValue::Bool(false)));
}

#[test]
fn reply_conversion_defaults_and_output_path() {
    let reply = obj(vec![(
        "output",
        JsonValue::Array(vec![obj(vec![(
            "content",
            JsonValue::Array(vec![obj(vec![("type", s("output_text")), ("text", s("from parts"))])]),
        )])]),
    )]);
    assert_eq!(response_text_from_responses(&reply), Some("from parts".to_string()));
    let chat = responses_reply_to_chat(reply);
    assert_eq!(text(at(&chat, "id")), "relay-response");
    assert_eq!(text(at(&chat, "model")), "");
    assert!(matches!(at(first(at(&chat, "choices")), "index"), JsonValue::Number(n) if n == "0"));
    assert_eq!(text(at(first(at(&chat, "choices")), "finish_reason")), "stop");

    let empty = chat_reply_to_responses(obj(vec![]));
    assert_eq!(text(at(&empty, "output_text")), "");
    assert_eq!(text(at(first(at(first(at(&empty, "output")), "content")), "type")), "output_text");
    assert_eq!(response_text_from_responses(&obj(vec![("output_text", JsonValue::Null)])), None);
}

#[test]
fn relay_reply_framing() {
    assert!(!reply_is_rewritten(404, "application/json"));
    assert!(!reply_is_rewritten(200, "text/event-stream"));
    assert_eq!(status_text_exec(404), "Not Found");
    assert_eq!(status_text_exec(201), "OK");
    assert_eq!(
        response_head(500, "application/json", 12),
        "HTTP/1.1 500 Internal Server Error\r\nContent-Type: application/json\r\nContent-Length: 12\r\nAccess-Control-Allow-Origin: *\r\nConnection: close\r\n\r\n"
    );
    let body = error_body("boom".to_string());
    assert_eq!(text(at(at(&body, "error"), "message")), "boom");
    assert!(matches!(at(&health_body(), "ok"), JsonValue::Bool(true)));
}

#[test]
fn bodies_are_parsed_before_they_are_converted() {
    assert_eq!(extract_model(r#"{"model":"gpt-5","messages":[]}"#).as_deref(), Some("gpt-5"));
    assert_eq!(extract_model("{"), None);
    assert_eq!(extract_model(r#"{"model":3}"#), None);
    assert!(chat_body_to_responses("{").is_err());
    let converted = chat_body_to_responses(r#"{"model":"m","messages":[{"role":"user","content":"hi"}]}"#)
        .expect("converted");
    assert_eq!(text_of(at(&converted, "model")).as_deref(), Some("m"));
    assert!(chat_reply_body_to_responses(500, "application/json", "{}").is_none());
    assert!(chat_reply_body_to_responses(200, "text/plain", "{}").is_none());
    assert!(chat_reply_body_to_responses(200, "application/json", "{oops").is_none());
    assert!(chat_reply_body_to_responses(200, "application/json", r#"{"choices":[]}"#).is_some());
}
