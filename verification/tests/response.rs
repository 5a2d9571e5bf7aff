use bot_requests::json::Json;
use bot_requests::requests::{
    deserialize, read_body, unwrap_envelope, DecodeError, Envelope, Error, HttpResponse,
    JsonIdResponse, JsonResponse, ResponseType,
};
use bot_requests::types::MessageId;

fn reply(text: &str) -> HttpResponse {
    HttpResponse { body: Some(text.as_bytes().to_vec()) }
}

fn object(members: Vec<(&str, Json)>) -> Json {
    Json::Object(members.into_iter().map(|(k, v)| (k.to_string(), v)).collect())
}

fn text(s: &str) -> Json {
    Json::Str(s.to_string())
}

#[test]
fn success_envelope_extract_id() {
    let response = reply(r#"{"ok": true, "result": {"message_id": 42, "text": "hi"}}"#);
    assert_eq!(deserialize::<JsonIdResponse>(response), Ok(MessageId::new(42)));
}

#[test]
fn success_envelope_whole_object() {
    let response = reply(r#"{"ok": true, "result": {"message_id": 42, "text": "hi"}}"#);
    assert_eq!(
        deserialize::<JsonResponse>(response),
        Ok(object(vec![("message_id", Json::Int(42)), ("text", text("hi"))]))
    );
}

#[test]
fn failure_envelope_under_both_strategies() {
    let body = r#"{"ok": false, "error_code": 400, "description": "bad request"}"#;
    let expected = Error::Api { error_code: 400, description: "bad request".to_string() };
    assert_eq!(deserialize::<JsonIdResponse>(reply(body)), Err(expected.clone()));
    assert_eq!(deserialize::<JsonResponse>(reply(body)), Err(expected));
}

#[test]
fn failure_envelope_ignores_other_members() {
    let body = r#"{"description":"Too Many Requests","parameters":{"retry_after":5},"error_code":429,"ok":false,"result":{"message_id":1}}"#;
    assert_eq!(
        deserialize::<JsonIdResponse>(reply(body)),
        Err(Error::Api { error_code: 429, description: "Too Many Requests".to_string() })
    );
}

#[test]
fn no_body() {
    assert_eq!(
        deserialize::<JsonIdResponse>(HttpResponse { body: None }),
        Err(Error::Decode(DecodeError::Empty))
    );
    assert_eq!(read_body(HttpResponse { body: None }), Err(DecodeError::Empty));
}

#[test]
fn body_is_not_json() {
    for bad in ["", "ok", "{\"ok\": true", "{\"ok\": true, \"result\": }", "<html></html>"] {
        assert_eq!(
            deserialize::<JsonResponse>(reply(bad)),
            Err(Error::Decode(DecodeError::Syntax)),
            "{}",
            bad
        );
    }
}

#[test]
fn body_is_not_utf8() {
    let mut bytes = br#"{"ok": true, "result": {"message_id": 1, "text": ""#.to_vec();
    bytes.push(0xff);
    bytes.extend_from_slice(br#""}}"#);
    assert_eq!(
        deserialize::<JsonIdResponse>(HttpResponse { body: Some(bytes.clone()) }),
        Err(Error::Decode(DecodeError::Syntax))
    );
    assert_eq!(read_body(HttpResponse { body: Some(bytes) }), Err(DecodeError::Syntax));
    assert_eq!(
        read_body(HttpResponse { body: Some(vec![0xc3, 0x28]) }),
        Err(DecodeError::Syntax)
    );
}

#[test]
fn body_with_text_beyond_ascii() {
    let response = reply("{\"ok\":true,\"result\":{\"message_id\":7,\"text\":\"é 日本 😀\"}}");
    assert_eq!(
        deserialize::<JsonResponse>(response),
        Ok(object(vec![("message_id", Json::Int(7)), ("text", text("é 日本 😀"))]))
    );
    assert_eq!(read_body(reply(" [1] ")), Ok(Json::Array(vec![Json::Int(1)])));
}

#[test]
fn envelope_shape() {
    let decode = |body: &str| Envelope::from_json(Json::parse(body).unwrap());
    assert_eq!(
        decode(r#"{"ok":true,"result":[1,2]}"#),
        Ok(Envelope::Success { result: Json::Array(vec![Json::Int(1), Json::Int(2)]) })
    );
    assert_eq!(
        decode(r#"{"result":null,"ok":true}"#),
        Ok(Envelope::Success { result: Json::Null })
    );
    assert_eq!(
        decode(r#"{"ok":false,"error_code":-1,"description":""}"#),
        Ok(Envelope::Failure { error_code: -1, description: String::new() })
    );
    assert_eq!(decode("[]"), Err(DecodeError::TypeMismatch));
    assert_eq!(decode("true"), Err(DecodeError::TypeMismatch));
    assert_eq!(decode("{}"), Err(DecodeError::MissingField));
    assert_eq!(decode(r#"{"result":{}}"#), Err(DecodeError::MissingField));
    assert_eq!(decode(r#"{"ok":1,"result":{}}"#), Err(DecodeError::TypeMismatch));
    assert_eq!(decode(r#"{"ok":"true","result":{}}"#), Err(DecodeError::TypeMismatch));
    assert_eq!(decode(r#"{"ok":null}"#), Err(DecodeError::TypeMismatch));
    assert_eq!(decode(r#"{"ok":true}"#), Err(DecodeError::MissingField));
    assert_eq!(decode(r#"{"ok":true,"error_code":1,"description":"x"}"#), Err(DecodeError::MissingField));
    assert_eq!(decode(r#"{"ok":false}"#), Err(DecodeError::MissingField));
    assert_eq!(decode(r#"{"ok":false,"description":"x"}"#), Err(DecodeError::MissingField));
    assert_eq!(decode(r#"{"ok":false,"error_code":400}"#), Err(DecodeError::MissingField));
    assert_eq!(
        decode(r#"{"ok":false,"error_code":"400","description":"x"}"#),
        Err(DecodeError::TypeMismatch)
    );
    assert_eq!(
        decode(r#"{"ok":false,"error_code":4.5,"description":"x"}"#),
        Err(DecodeError::TypeMismatch)
    );
    assert_eq!(
        decode(r#"{"ok":false,"error_code":400,"description":7}"#),
        Err(DecodeError::TypeMismatch)
    );
    assert_eq!(
        decode(r#"{"ok":false,"error_code":"400"}"#),
        Err(DecodeError::TypeMismatch)
    );
}

#[test]
fn envelope_takes_the_first_of_repeated_members() {
    let decode = |body: &str| Envelope::from_json(Json::parse(body).unwrap());
    assert_eq!(
        decode(r#"{"ok":true,"ok":false,"result":1,"result":2}"#),
        Ok(Envelope::Success { result: Json::Int(1) })
    );
}

#[test]
fn extract_id() {
    let extract = |body: &str| JsonIdResponse::extract(Json::parse(body).unwrap());
    assert_eq!(extract(r#"{"message_id":42}"#), Ok(MessageId::new(42)));
    assert_eq!(extract(r#"{"date":1,"message_id":-3,"message_id":9}"#), Ok(MessageId::new(-3)));
    assert_eq!(extract(r#"{}"#), Err(DecodeError::MissingField));
    assert_eq!(extract(r#"{"id":42}"#), Err(DecodeError::MissingField));
    assert_eq!(extract(r#"{"message_id":"42"}"#), Err(DecodeError::TypeMismatch));
    assert_eq!(extract(r#"{"message_id":4.2}"#), Err(DecodeError::TypeMismatch));
    assert_eq!(
        extract(r#"{"message_id":92233720368547758070}"#),
        Err(DecodeError::TypeMismatch)
    );
    assert_eq!(extract(r#"{"message_id":null}"#), Err(DecodeError::TypeMismatch));
    assert_eq!(extract("42"), Err(DecodeError::TypeMismatch));
    assert_eq!(extract("[{\"message_id\":42}]"), Err(DecodeError::TypeMismatch));
}

#[test]
fn extract_whole_object() {
    let extract = |body: &str| JsonResponse::extract(Json::parse(body).unwrap());
    assert_eq!(extract("{}"), Ok(Json::Object(vec![])));
    assert_eq!(
        extract(r#"{"b":1,"a":[2]}"#),
        Ok(object(vec![("b", Json::Int(1)), ("a", Json::Array(vec![Json::Int(2)]))]))
    );
    assert_eq!(extract("[]"), Err(DecodeError::TypeMismatch));
    assert_eq!(extract("true"), Err(DecodeError::TypeMismatch));
    assert_eq!(extract("\"x\""), Err(DecodeError::TypeMismatch));
}

#[test]
fn result_of_the_wrong_shape_is_a_decode_error() {
    assert_eq!(
        deserialize::<JsonIdResponse>(reply(r#"{"ok":true,"result":true}"#)),
        Err(Error::Decode(DecodeError::TypeMismatch))
    );
    assert_eq!(
        deserialize::<JsonIdResponse>(reply(r#"{"ok":true,"result":{"text":"x"}}"#)),
        Err(Error::Decode(DecodeError::MissingField))
    );
    assert_eq!(
        deserialize::<JsonResponse>(reply(r#"{"ok":true,"result":[1]}"#)),
        Err(Error::Decode(DecodeError::TypeMismatch))
    );
    assert_eq!(
        unwrap_envelope::<JsonResponse>(Json::Int(1)),
        Err(Error::Decode(DecodeError::TypeMismatch))
    );
    assert_eq!(
        unwrap_envelope::<JsonIdResponse>(object(vec![
            ("ok", Json::Bool(true)),
            ("result", object(vec![("message_id", Json::Int(5))])),
        ])),
        Ok(MessageId::new(5))
    );
}
