use bot_requests::json::Json;
use bot_requests::requests::{
    deserialize, Body, CanReplySendPhoto, CanSendPhoto, Error, HttpRequest, HttpResponse, Method,
    Request, RequestUrl, SendPhoto,
};
use bot_requests::types::{ChatId, ChatRef, Message, MessageId, ParseMode, ReplyMarkup};

fn body_text(request: &HttpRequest) -> String {
    match &request.body {
        Body::Json(text) => text.clone(),
        Body::Empty => panic!("the request has no body"),
    }
}

#[test]
fn required_fields_only() {
    let request = SendPhoto::with_url(ChatId::new(42), "https://example.org/cat.png");
    let wire = request.serialize().unwrap();
    assert_eq!(wire.url, RequestUrl::Method("sendPhoto"));
    assert_eq!(wire.url.method_name(), "sendPhoto");
    assert_eq!(wire.method, Method::Post);
    assert_eq!(
        body_text(&wire),
        r#"{"chat_id":42,"photo":"https://example.org/cat.png"}"#
    );
}

#[test]
fn channel_by_name() {
    let request = SendPhoto::with_url(ChatRef::channel("@news"), "u");
    assert_eq!(
        body_text(&request.serialize().unwrap()),
        r#"{"chat_id":"@news","photo":"u"}"#
    );
}

#[test]
fn every_field_set() {
    let mut request = SendPhoto::with_url(ChatId::new(-7), "u");
    request
        .caption("a \"cat\"")
        .parse_mode(ParseMode::Html)
        .reply_to(MessageId::new(9))
        .disable_notification()
        .reply_markup(ReplyMarkup::ForceReply { selective: true });
    assert_eq!(
        body_text(&request.serialize().unwrap()),
        concat_all(&[
            r#"{"chat_id":-7,"photo":"u","caption":"a \"cat\"","parse_mode":"HTML","#,
            r#""reply_to_message_id":9,"disable_notification":true,"#,
            r#""reply_markup":{"force_reply":true,"selective":true}}"#,
        ])
    );
}

fn concat_all(parts: &[&str]) -> String {
    let mut out = String::new();
    for part in parts {
        out.push_str(part);
    }
    out
}

#[test]
fn last_write_wins() {
    let mut request = SendPhoto::with_url(ChatId::new(1), "u");
    request.caption("first").caption("second");
    request.parse_mode(ParseMode::Markdown).parse_mode(ParseMode::MarkdownV2);
    request.reply_to(MessageId::new(1)).reply_to(MessageId::new(2));
    assert_eq!(
        body_text(&request.serialize().unwrap()),
        concat_all(&[
            r#"{"chat_id":1,"photo":"u","caption":"second","parse_mode":"MarkdownV2","#,
            r#""reply_to_message_id":2}"#,
        ])
    );
}

#[test]
fn notification_flag_absent_until_set() {
    let mut request = SendPhoto::with_url(ChatId::new(1), "u");
    assert!(!body_text(&request.serialize().unwrap()).contains("disable_notification"));
    request.disable_notification();
    assert_eq!(
        body_text(&request.serialize().unwrap()),
        r#"{"chat_id":1,"photo":"u","disable_notification":true}"#
    );
}

#[test]
fn serialize_twice_is_identical() {
    let mut request = SendPhoto::with_url(ChatId::new(5), "u");
    request
        .caption("c")
        .parse_mode(ParseMode::Markdown)
        .reply_to(MessageId::new(3))
        .disable_notification()
        .reply_markup(ReplyMarkup::RemoveKeyboard { selective: false });
    let first = request.serialize().unwrap();
    let second = request.serialize().unwrap();
    assert_eq!(first, second);
    assert_eq!(body_text(&first).into_bytes(), body_text(&second).into_bytes());
}

#[test]
fn send_to_chat() {
    let chat = ChatId::new(11);
    let request = chat.photo_url("u");
    assert_eq!(request, SendPhoto::with_url(ChatId::new(11), "u"));
    assert_eq!(
        body_text(&request.serialize().unwrap()),
        r#"{"chat_id":11,"photo":"u"}"#
    );
}

#[test]
fn reply_sets_chat_and_target() {
    let message = Message::new(MessageId::new(77), ChatId::new(-100123));
    let request = message.photo_url_reply("u");
    assert_eq!(
        body_text(&request.serialize().unwrap()),
        r#"{"chat_id":-100123,"photo":"u","reply_to_message_id":77}"#
    );
    let mut by_hand = SendPhoto::with_url(ChatId::new(-100123), "u");
    by_hand.reply_to(MessageId::new(77));
    assert_eq!(request, by_hand);
}

#[test]
fn keyboard_markup() {
    let mut request = SendPhoto::with_url(ChatId::new(1), "u");
    request.reply_markup(ReplyMarkup::Keyboard {
        rows: vec![vec!["a".to_string(), "b".to_string()], vec![], vec!["c".to_string()]],
        resize: true,
        one_time: false,
        selective: false,
    });
    assert_eq!(
        body_text(&request.serialize().unwrap()),
        concat_all(&[
            r#"{"chat_id":1,"photo":"u","reply_markup":{"keyboard":"#,
            r#"[[{"text":"a"},{"text":"b"}],[],[{"text":"c"}]],"resize_keyboard":true}}"#,
        ])
    );
}

#[test]
fn payload_as_json() {
    let mut request = SendPhoto::with_url(ChatRef::channel("@news"), "u");
    request.caption("c").reply_to(MessageId::new(4));
    assert_eq!(
        request.to_json(),
        Json::Object(vec![
            ("chat_id".to_string(), Json::Str("@news".to_string())),
            ("photo".to_string(), Json::Str("u".to_string())),
            ("caption".to_string(), Json::Str("c".to_string())),
            ("reply_to_message_id".to_string(), Json::Int(4)),
        ])
    );
    assert_eq!(Json::parse(&body_text(&request.serialize().unwrap())), Some(request.to_json()));
}

#[test]
fn body_reads_back_without_unset_fields() {
    let mut request = SendPhoto::with_url(ChatId::new(3), "https://example.org/a \"b\".png");
    request.caption("line one\nline two \u{1} é 😀");
    let body = Json::parse(&body_text(&request.serialize().unwrap())).unwrap();
    assert_eq!(body.get("chat_id"), Some(&Json::Int(3)));
    assert_eq!(
        body.get("photo"),
        Some(&Json::Str("https://example.org/a \"b\".png".to_string()))
    );
    assert_eq!(
        body.get("caption"),
        Some(&Json::Str("line one\nline two \u{1} é 😀".to_string()))
    );
    assert_eq!(body.get("parse_mode"), None);
    assert_eq!(body.get("reply_to_message_id"), None);
    assert_eq!(body.get("disable_notification"), None);
    assert_eq!(body.get("reply_markup"), None);
}

#[test]
fn reply_is_read_by_the_strategy_of_the_request() {
    let ok = HttpResponse {
        body: Some(br#"{"ok":true,"result":{"message_id":42,"chat":{"id":1}}}"#.to_vec()),
    };
    assert_eq!(deserialize::<<SendPhoto as Request>::Response>(ok), Ok(MessageId::new(42)));
    let failed = HttpResponse {
        body: Some(br#"{"ok":false,"error_code":400,"description":"bad request"}"#.to_vec()),
    };
    assert_eq!(
        deserialize::<<SendPhoto as Request>::Response>(failed),
        Err(Error::Api { error_code: 400, description: "bad request".to_string() })
    );
}
