use bot_requests::json::Json;
use bot_requests::requests::{
    Error, HttpRequest, JsonRequestType, Method, RequestType, RequestUrl,
};
use bot_requests::types::{
    ChatId, ChatRef, Message, MessageId, ParseMode, ReplyMarkup, ToChatRef, ToMessageId,
    ToSourceChat,
};

#[test]
fn chat_references() {
    assert_eq!(ChatId::new(5).to_chat_ref(), ChatRef::Id(ChatId(5)));
    assert_eq!(ChatRef::from_chat_id(ChatId::new(5)), ChatRef::Id(ChatId(5)));
    assert_eq!(ChatRef::channel("@a"), ChatRef::ChannelUsername("@a".to_string()));
    assert_eq!(ChatRef::channel("@a").to_chat_ref(), ChatRef::channel("@a"));
    assert_eq!((&ChatId::new(6)).to_chat_ref(), ChatRef::Id(ChatId(6)));
    assert_eq!(ChatRef::Id(ChatId(-9)).to_json(), Json::Int(-9));
    assert_eq!(ChatRef::channel("@a").to_json(), Json::Str("@a".to_string()));
}

#[test]
fn message_references() {
    let message = Message::new(MessageId::new(3), ChatId::new(4));
    assert_eq!(message.to_message_id(), MessageId(3));
    assert_eq!(message.to_source_chat(), ChatId(4));
    assert_eq!((&message).to_message_id(), MessageId(3));
    assert_eq!((&message).to_source_chat(), ChatId(4));
    assert_eq!(MessageId::new(8).to_message_id(), MessageId(8));
    assert_eq!(MessageId::new(8).to_json(), Json::Int(8));
}

#[test]
fn parse_mode_names() {
    assert_eq!(ParseMode::Markdown.as_str(), "Markdown");
    assert_eq!(ParseMode::MarkdownV2.as_str(), "MarkdownV2");
    assert_eq!(ParseMode::Html.as_str(), "HTML");
    assert_eq!(ParseMode::Html.to_json(), Json::Str("HTML".to_string()));
}

#[test]
fn reply_markup_wire_form() {
    assert_eq!(
        ReplyMarkup::ForceReply { selective: false }.to_json().to_text(),
        r#"{"force_reply":true}"#
    );
    assert_eq!(
        ReplyMarkup::ForceReply { selective: true }.to_json().to_text(),
        r#"{"force_reply":true,"selective":true}"#
    );
    assert_eq!(
        ReplyMarkup::RemoveKeyboard { selective: false }.to_json().to_text(),
        r#"{"remove_keyboard":true}"#
    );
    assert_eq!(
        ReplyMarkup::RemoveKeyboard { selective: true }.to_json().to_text(),
        r#"{"remove_keyboard":true,"selective":true}"#
    );
    assert_eq!(
        ReplyMarkup::Keyboard { rows: vec![], resize: false, one_time: false, selective: false }
            .to_json()
            .to_text(),
        r#"{"keyboard":[]}"#
    );
    assert_eq!(
        ReplyMarkup::Keyboard {
            rows: vec![vec!["yes".to_string(), "no".to_string()], vec!["\"?\"".to_string()]],
            resize: true,
            one_time: true,
            selective: true,
        }
        .to_json()
        .to_text(),
        r#"{"keyboard":[[{"text":"yes"},{"text":"no"}],[{"text":"\"?\""}]],"resize_keyboard":true,"one_time_keyboard":true,"selective":true}"#
    );
}

#[test]
fn json_request_type() {
    let payload = Json::Object(vec![("a".to_string(), Json::Int(1))]);
    let request = JsonRequestType::serialize(RequestUrl::method("getMe"), &payload).unwrap();
    assert_eq!(request.url.method_name(), "getMe");
    assert_eq!(request.method, Method::Post);
    assert_eq!(
        request,
        HttpRequest {
            url: RequestUrl::Method("getMe"),
            method: Method::Post,
            body: bot_requests::requests::Body::Json(r#"{"a":1}"#.to_string()),
        }
    );
}

#[test]
fn json_request_type_wants_an_object() {
    for payload in [Json::Null, Json::Int(1), Json::Array(vec![]), Json::Str("{}".to_string())] {
        assert_eq!(
            JsonRequestType::serialize(RequestUrl::method("getMe"), &payload),
            Err(Error::Encode)
        );
    }
}
