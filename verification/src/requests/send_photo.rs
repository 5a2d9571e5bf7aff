use crate::json::encode::encode;
use crate::json::grammar::{parse, MAX_DEPTH};
use crate::json::object::{
    flag_member, lemma_lookup_concat, lemma_lookup_flag, lemma_lookup_optional, optional_member,
    push_flag, push_member, push_optional,
};
use crate::json::roundtrip::{fits, lemma_members_fit_all, lemma_parse_encode, text_member};
use crate::json::value::{first_index, lookup, members_view, Json, JsonValue, Member};
use crate::requests::errors::Error;
use crate::requests::http::{BodyView, HttpRequest, HttpRequestView, Method, RequestUrl};
use crate::requests::request::{JsonRequestType, Request, RequestType};
use crate::requests::response::JsonIdResponse;
use crate::types::parse_mode::ParseMode;
use crate::types::refs::{ChatRef, MessageId, ToChatRef, ToMessageId, ToSourceChat};
use crate::types::reply_markup::{lemma_reply_markup_fits, ReplyMarkup};
use vstd::prelude::*;

verus! {

/// Sends a photo to a chat.
///
/// The chat and the photo are given when the request is made and stay. The
/// rest is optional: each setter overwrites what an earlier call of it set,
/// and what was never set does not go on the wire.
#[derive(Debug, Clone, PartialEq, Eq, PartialOrd, Ord, Hash)]
#[must_use]
pub struct SendPhoto {
    chat_id: ChatRef,
    photo: String,
    caption: Option<String>,
    parse_mode: Option<ParseMode>,
    reply_to_message_id: Option<MessageId>,
    disable_notification: bool,
    reply_markup: Option<ReplyMarkup>,
}

/// The fields of a [`SendPhoto`].
pub ghost struct SendPhotoView {
    pub chat_id: ChatRef,
    pub photo: Seq<char>,
    pub caption: Option<Seq<char>>,
    pub parse_mode: Option<ParseMode>,
    pub reply_to_message_id: Option<MessageId>,
    pub disable_notification: bool,
    pub reply_markup: Option<ReplyMarkup>,
}

impl SendPhotoView {
    /// A request with the required fields alone: nothing optional is set,
    /// and notifications are on.
    pub open spec fn new(chat_id: ChatRef, photo: Seq<char>) -> SendPhotoView {
        SendPhotoView {
            chat_id,
            photo,
            caption: None,
            parse_mode: None,
            reply_to_message_id: None,
            disable_notification: false,
            reply_markup: None,
        }
    }

    pub open spec fn with_caption(self, caption: Seq<char>) -> SendPhotoView {
        SendPhotoView { caption: Some(caption), ..self }
    }

    pub open spec fn with_parse_mode(self, parse_mode: ParseMode) -> SendPhotoView {
        SendPhotoView { parse_mode: Some(parse_mode), ..self }
    }

    pub open spec fn with_reply_to(self, to: MessageId) -> SendPhotoView {
        SendPhotoView { reply_to_message_id: Some(to), ..self }
    }

    pub open spec fn with_notification_disabled(self) -> SendPhotoView {
        SendPhotoView { disable_notification: true, ..self }
    }

    pub open spec fn with_reply_markup(self, reply_markup: ReplyMarkup) -> SendPhotoView {
        SendPhotoView { reply_markup: Some(reply_markup), ..self }
    }

    /// The members of the payload, in the order in which they go on the
    /// wire: the two required fields, then each optional field that is set.
    pub open spec fn fields(self) -> Seq<Member> {
        seq![
            Member { key: "chat_id"@, value: self.chat_id.json() },
            Member { key: "photo"@, value: JsonValue::Str(self.photo) },
        ] + optional_member(
            "caption"@,
            match self.caption {
                Some(caption) => Some(JsonValue::Str(caption)),
                None => None,
            },
        ) + optional_member(
            "parse_mode"@,
            match self.parse_mode {
                Some(parse_mode) => Some(parse_mode.json()),
                None => None,
            },
        ) + optional_member(
            "reply_to_message_id"@,
            match self.reply_to_message_id {
                Some(to) => Some(to.json()),
                None => None,
            },
        ) + flag_member("disable_notification"@, self.disable_notification) + optional_member(
            "reply_markup"@,
            match self.reply_markup {
                Some(reply_markup) => Some(reply_markup.json()),
                None => None,
            },
        )
    }

    /// The payload: the object of the fields.
    pub open spec fn json(self) -> JsonValue {
        JsonValue::Object(self.fields())
    }

    /// The body of the request on the wire: the compact text of the
    /// payload.
    pub open spec fn body(self) -> Seq<char> {
        encode(self.json())
    }

    /// What the payload holds under a key: the value of the field of that
    /// name where the field is required or set, and nothing otherwise.
    pub open spec fn field(self, key: Seq<char>) -> Option<JsonValue> {
        if key == "chat_id"@ {
            Some(self.chat_id.json())
        } else if key == "photo"@ {
            Some(JsonValue::Str(self.photo))
        } else if key == "caption"@ {
            match self.caption {
                Some(caption) => Some(JsonValue::Str(caption)),
                None => None,
            }
        } else if key == "parse_mode"@ {
            match self.parse_mode {
                Some(parse_mode) => Some(parse_mode.json()),
                None => None,
            }
        } else if key == "reply_to_message_id"@ {
            match self.reply_to_message_id {
                Some(to) => Some(to.json()),
                None => None,
            }
        } else if key == "disable_notification"@ {
            if self.disable_notification {
                Some(JsonValue::Bool(true))
            } else {
                None
            }
        } else if key == "reply_markup"@ {
            match self.reply_markup {
                Some(reply_markup) => Some(reply_markup.json()),
                None => None,
            }
        } else {
            None
        }
    }
}

impl View for SendPhoto {
    type V = SendPhotoView;

    closed spec fn view(&self) -> SendPhotoView {
        SendPhotoView {
            chat_id: self.chat_id,
            photo: self.photo@,
            caption: match self.caption {
                Some(caption) => Some(caption@),
                None => None,
            },
            parse_mode: self.parse_mode,
            reply_to_message_id: self.reply_to_message_id,
            disable_notification: self.disable_notification,
            reply_markup: self.reply_markup,
        }
    }
}

impl SendPhoto {
    /// A request to send the photo at `url` to `chat`.
    pub fn with_url<C: ToChatRef>(chat: C, url: &str) -> (request: SendPhoto)
        ensures
            request@ == SendPhotoView::new(chat.chat_ref(), url@),
    {
        SendPhoto {
            chat_id: chat.to_chat_ref(),
            photo: url.to_owned(),
            caption: None,
            parse_mode: None,
            reply_to_message_id: None,
            reply_markup: None,
            disable_notification: false,
        }
    }

    /// Sets the caption shown under the photo.
    pub fn caption(&mut self, caption: &str) -> (request: &mut SendPhoto)
        ensures
            request@ == old(self)@.with_caption(caption@),
            *final(self) == *final(request),
    {
        self.caption = Some(caption.to_owned());
        self
    }

    /// Sets how the marks in the caption are read.
    pub fn parse_mode(&mut self, parse_mode: ParseMode) -> (request: &mut SendPhoto)
        ensures
            request@ == old(self)@.with_parse_mode(parse_mode),
            *final(self) == *final(request),
    {
        self.parse_mode = Some(parse_mode);
        self
    }

    /// Makes the photo a reply to the given message.
    pub fn reply_to<R: ToMessageId>(&mut self, to: R) -> (request: &mut SendPhoto)
        ensures
            request@ == old(self)@.with_reply_to(to.message_id()),
            *final(self) == *final(request),
    {
        self.reply_to_message_id = Some(to.to_message_id());
        self
    }

    /// Sends the photo without a notification.
    pub fn disable_notification(&mut self) -> (request: &mut SendPhoto)
        ensures
            request@ == old(self)@.with_notification_disabled(),
            *final(self) == *final(request),
    {
        self.disable_notification = true;
        self
    }

    /// Sets what the client shows in place of its keyboard.
    pub fn reply_markup(&mut self, reply_markup: ReplyMarkup) -> (request: &mut SendPhoto)
        ensures
            request@ == old(self)@.with_reply_markup(reply_markup),
            *final(self) == *final(request),
    {
        self.reply_markup = Some(reply_markup);
        self
    }

    /// The payload of the request as a JSON object.
    pub fn to_json(&self) -> (payload: Json)
        ensures
            payload@ == self@.json(),
    {
        let mut members: Vec<(String, Json)> = Vec::new();
        assert(members_view(members@) =~= Seq::<Member>::empty());
        push_member(&mut members, "chat_id", self.chat_id.to_json());
        push_member(&mut members, "photo", Json::Str(self.photo.clone()));
        push_optional(
            &mut members,
            "caption",
            match &self.caption {
                Some(caption) => Some(Json::Str(caption.clone())),
                None => None,
            },
        );
        push_optional(
            &mut members,
            "parse_mode",
            match &self.parse_mode {
                Some(parse_mode) => Some(parse_mode.to_json()),
                None => None,
            },
        );
        push_optional(
            &mut members,
            "reply_to_message_id",
            match &self.reply_to_message_id {
                Some(to) => Some(to.to_json()),
                None => None,
            },
        );
        push_flag(&mut members, "disable_notification", self.disable_notification);
        push_optional(
            &mut members,
            "reply_markup",
            match &self.reply_markup {
                Some(reply_markup) => Some(reply_markup.to_json()),
                None => None,
            },
        );
        assert(members_view(members@) =~= self@.fields());
        Json::object(members)
    }
}

impl Request for SendPhoto {
    type Type = JsonRequestType;

    type Response = JsonIdResponse;

    open spec fn name() -> Seq<char> {
        "sendPhoto"@
    }

    open spec fn payload(&self) -> JsonValue {
        self@.json()
    }

    /// The request on the wire: a POST to `sendPhoto` whose body is the
    /// text of the payload. It never fails.
    fn serialize(&self) -> (r: Result<HttpRequest, Error>)
        ensures
            r matches Ok(request) && request@ == (HttpRequestView {
                name: "sendPhoto"@,
                method: Method::Post,
                body: BodyView::Json(self@.body()),
            }),
    {
        <JsonRequestType as RequestType>::serialize(
            RequestUrl::method("sendPhoto"),
            &self.to_json(),
        )
    }
}

/// Can reply with a photo.
pub trait CanReplySendPhoto {
    /// The chat that the reply goes to.
    spec fn reply_chat(&self) -> ChatRef;

    /// The message that the reply answers.
    spec fn reply_target(&self) -> MessageId;

    /// A request to send the photo at `url` to the chat that this value
    /// came from, as a reply to it. The chat and the message replied to are
    /// set together; nothing else optional is set.
    fn photo_url_reply(&self, url: &str) -> (request: SendPhoto)
        ensures
            request@ == SendPhotoView::new(self.reply_chat(), url@).with_reply_to(
                self.reply_target(),
            ),
    ;
}

impl<M> CanReplySendPhoto for M where M: ToMessageId + ToSourceChat {
    open spec fn reply_chat(&self) -> ChatRef {
        ChatRef::Id(self.source_chat())
    }

    open spec fn reply_target(&self) -> MessageId {
        self.message_id()
    }

    fn photo_url_reply(&self, url: &str) -> (request: SendPhoto) {
        let mut req = SendPhoto::with_url(self.to_source_chat(), url);
        req.reply_to(self.to_message_id());
        req
    }
}

/// Can be sent a photo.
pub trait CanSendPhoto {
    /// The chat that the photo goes to.
    spec fn photo_chat(&self) -> ChatRef;

    /// A request to send the photo at `url` to this chat. Nothing optional
    /// is set, and so no message is replied to.
    fn photo_url(&self, url: &str) -> (request: SendPhoto)
        ensures
            request@ == SendPhotoView::new(self.photo_chat(), url@),
    ;
}

impl<M> CanSendPhoto for M where M: ToChatRef {
    open spec fn photo_chat(&self) -> ChatRef {
        self.chat_ref()
    }

    fn photo_url(&self, url: &str) -> (request: SendPhoto) {
        SendPhoto::with_url(self.to_chat_ref(), url)
    }
}

/// The names of the seven fields differ from one another.
proof fn lemma_field_names_differ()
    ensures
        "chat_id"@ != "photo"@,
        "chat_id"@ != "caption"@,
        "chat_id"@ != "parse_mode"@,
        "chat_id"@ != "reply_to_message_id"@,
        "chat_id"@ != "disable_notification"@,
        "chat_id"@ != "reply_markup"@,
        "photo"@ != "caption"@,
        "photo"@ != "parse_mode"@,
        "photo"@ != "reply_to_message_id"@,
        "photo"@ != "disable_notification"@,
        "photo"@ != "reply_markup"@,
        "caption"@ != "parse_mode"@,
        "caption"@ != "reply_to_message_id"@,
        "caption"@ != "disable_notification"@,
        "caption"@ != "reply_markup"@,
        "parse_mode"@ != "reply_to_message_id"@,
        "parse_mode"@ != "disable_notification"@,
        "parse_mode"@ != "reply_markup"@,
        "reply_to_message_id"@ != "disable_notification"@,
        "reply_to_message_id"@ != "reply_markup"@,
        "disable_notification"@ != "reply_markup"@,
{
    reveal_strlit("chat_id");
    reveal_strlit("photo");
    reveal_strlit("caption");
    reveal_strlit("parse_mode");
    reveal_strlit("reply_to_message_id");
    reveal_strlit("disable_notification");
    reveal_strlit("reply_markup");
    assert("chat_id"@.len() == 7 && "caption"@.len() == 7);
    assert("photo"@.len() == 5);
    assert("parse_mode"@.len() == 10);
    assert("reply_to_message_id"@.len() == 19);
    assert("disable_notification"@.len() == 20);
    assert("reply_markup"@.len() == 12);
    assert("chat_id"@[1] != "caption"@[1]);
}

/// Under every key the payload holds what [`SendPhotoView::field`] says:
/// the required fields always, an optional field where it is set, and
/// nothing under any other key.
pub proof fn lemma_payload_by_key(request: SendPhotoView, key: Seq<char>)
    ensures
        lookup(request.fields(), key) == request.field(key),
{
    lemma_field_names_differ();
    let required = seq![
        Member { key: "chat_id"@, value: request.chat_id.json() },
        Member { key: "photo"@, value: JsonValue::Str(request.photo) },
    ];
    let caption = optional_member(
        "caption"@,
        match request.caption {
            Some(caption) => Some(JsonValue::Str(caption)),
            None => None,
        },
    );
    let parse_mode = optional_member(
        "parse_mode"@,
        match request.parse_mode {
            Some(parse_mode) => Some(parse_mode.json()),
            None => None,
        },
    );
    let reply_to = optional_member(
        "reply_to_message_id"@,
        match request.reply_to_message_id {
            Some(to) => Some(to.json()),
            None => None,
        },
    );
    let silent = flag_member("disable_notification"@, request.disable_notification);
    let reply_markup = optional_member(
        "reply_markup"@,
        match request.reply_markup {
            Some(reply_markup) => Some(reply_markup.json()),
            None => None,
        },
    );
    assert(request.fields() == required + caption + parse_mode + reply_to + silent
        + reply_markup);
    assert(lookup(required, key) == if key == "chat_id"@ {
        Some(request.chat_id.json())
    } else if key == "photo"@ {
        Some(JsonValue::Str(request.photo))
    } else {
        None
    }) by {
        reveal_with_fuel(first_index, 3);
    }
    lemma_lookup_optional(
        "caption"@,
        match request.caption {
            Some(caption) => Some(JsonValue::Str(caption)),
            None => None,
        },
        key,
    );
    lemma_lookup_optional(
        "parse_mode"@,
        match request.parse_mode {
            Some(parse_mode) => Some(parse_mode.json()),
            None => None,
        },
        key,
    );
    lemma_lookup_optional(
        "reply_to_message_id"@,
        match request.reply_to_message_id {
            Some(to) => Some(to.json()),
            None => None,
        },
        key,
    );
    lemma_lookup_flag("disable_notification"@, request.disable_notification, key);
    lemma_lookup_optional(
        "reply_markup"@,
        match request.reply_markup {
            Some(reply_markup) => Some(reply_markup.json()),
            None => None,
        },
        key,
    );
    lemma_lookup_concat(required, caption, key);
    lemma_lookup_concat(required + caption, parse_mode, key);
    lemma_lookup_concat(required + caption + parse_mode, reply_to, key);
    lemma_lookup_concat(required + caption + parse_mode + reply_to, silent, key);
    lemma_lookup_concat(required + caption + parse_mode + reply_to + silent, reply_markup, key);
}

/// The chat and the photo are in the body of every request, whatever else
/// was set.
pub proof fn lemma_required_fields_are_always_sent(request: SendPhotoView)
    ensures
        text_member(request.body(), "chat_id"@) == Some(request.chat_id.json()),
        text_member(request.body(), "photo"@) == Some(JsonValue::Str(request.photo)),
{
    lemma_field_names_differ();
    lemma_body_by_key(request, "chat_id"@);
    lemma_body_by_key(request, "photo"@);
}

/// An optional field that is not set has no member in the body, and one
/// that is set has a member with the value that it holds now.
pub proof fn lemma_optional_fields_are_sent_when_set(request: SendPhotoView)
    ensures
        text_member(request.body(), "caption"@) == match request.caption {
            Some(caption) => Some(JsonValue::Str(caption)),
            None => None,
        },
        text_member(request.body(), "parse_mode"@) == match request.parse_mode {
            Some(parse_mode) => Some(parse_mode.json()),
            None => None,
        },
        text_member(request.body(), "reply_to_message_id"@) == match request.reply_to_message_id {
            Some(to) => Some(to.json()),
            None => None,
        },
        text_member(request.body(), "reply_markup"@) == match request.reply_markup {
            Some(reply_markup) => Some(reply_markup.json()),
            None => None,
        },
{
    lemma_field_names_differ();
    lemma_body_by_key(request, "caption"@);
    lemma_body_by_key(request, "parse_mode"@);
    lemma_body_by_key(request, "reply_to_message_id"@);
    lemma_body_by_key(request, "reply_markup"@);
}

/// The notification flag has no member in the body while notifications are
/// on, and is `true` there once they were switched off.
pub proof fn lemma_notification_flag_is_sent_when_set(request: SendPhotoView)
    ensures
        text_member(request.body(), "disable_notification"@) == if request.disable_notification {
            Some(JsonValue::Bool(true))
        } else {
            None
        },
{
    lemma_field_names_differ();
    lemma_body_by_key(request, "disable_notification"@);
}

/// A request that was only made, with nothing set after, sends the chat
/// and the photo and no other member.
pub proof fn lemma_new_request_sends_required_fields_only(chat_id: ChatRef, photo: Seq<char>)
    ensures
        parse(SendPhotoView::new(chat_id, photo).body()) == Some(
            JsonValue::Object(
                seq![
                    Member { key: "chat_id"@, value: chat_id.json() },
                    Member { key: "photo"@, value: JsonValue::Str(photo) },
                ],
            ),
        ),
{
    assert(SendPhotoView::new(chat_id, photo).fields() =~= seq![
        Member { key: "chat_id"@, value: chat_id.json() },
        Member { key: "photo"@, value: JsonValue::Str(photo) },
    ]);
    lemma_payload_text_reads_back(SendPhotoView::new(chat_id, photo));
}

/// Setting a field twice leaves the request as if only the second call had
/// been made.
pub proof fn lemma_last_write_wins(
    request: SendPhotoView,
    caption: (Seq<char>, Seq<char>),
    parse_mode: (ParseMode, ParseMode),
    reply_to: (MessageId, MessageId),
    reply_markup: (ReplyMarkup, ReplyMarkup),
)
    ensures
        request.with_caption(caption.0).with_caption(caption.1) == request.with_caption(
            caption.1,
        ),
        request.with_parse_mode(parse_mode.0).with_parse_mode(parse_mode.1)
            == request.with_parse_mode(parse_mode.1),
        request.with_reply_to(reply_to.0).with_reply_to(reply_to.1) == request.with_reply_to(
            reply_to.1,
        ),
        request.with_reply_markup(reply_markup.0).with_reply_markup(reply_markup.1)
            == request.with_reply_markup(reply_markup.1),
        request.with_notification_disabled().with_notification_disabled()
            == request.with_notification_disabled(),
{
}

/// A reply goes to the chat that the message came from and names that
/// message as the one replied to: both are in the body.
pub proof fn lemma_reply_names_chat_and_message<M: ToMessageId + ToSourceChat>(
    message: M,
    url: Seq<char>,
)
    ensures
        ({
            let request = SendPhotoView::new(message.reply_chat(), url).with_reply_to(
                message.reply_target(),
            );
            &&& text_member(request.body(), "chat_id"@) == Some(
                JsonValue::Int(message.source_chat().0 as int),
            )
            &&& text_member(request.body(), "reply_to_message_id"@) == Some(
                JsonValue::Int(message.message_id().0 as int),
            )
        }),
{
    let request = SendPhotoView::new(message.reply_chat(), url).with_reply_to(
        message.reply_target(),
    );
    lemma_required_fields_are_always_sent(request);
    lemma_optional_fields_are_sent_when_set(request);
}

/// Under every key the body holds what [`SendPhotoView::field`] says.
pub proof fn lemma_body_by_key(request: SendPhotoView, key: Seq<char>)
    ensures
        text_member(request.body(), key) == request.field(key),
{
    lemma_payload_text_reads_back(request);
    lemma_payload_by_key(request, key);
}

/// The body reads back as the payload: an object with the members of
/// [`SendPhotoView::fields`], in their order, and no others.
pub proof fn lemma_payload_text_reads_back(request: SendPhotoView)
    ensures
        parse(request.body()) == Some(request.json()),
{
    let members = request.fields();
    let depth = (MAX_DEPTH - 1) as nat;
    assert forall|k: int| 0 <= k < members.len() implies fits(
        (#[trigger] members[k]).value,
        depth,
    ) by {
        lemma_field_is_known(request, k);
        if let Some(reply_markup) = request.reply_markup {
            lemma_reply_markup_fits(reply_markup, depth);
        }
    }
    lemma_members_fit_all(members, members.len(), depth);
    lemma_parse_encode(request.json());
}

/// Every member of the payload is one of the seven fields, with the value
/// that the field has on the wire.
proof fn lemma_field_is_known(request: SendPhotoView, k: int)
    requires
        0 <= k < request.fields().len(),
    ensures
        ({
            let value = request.fields()[k].value;
            ||| value == request.chat_id.json()
            ||| value == JsonValue::Str(request.photo)
            ||| request.caption matches Some(caption) && value == JsonValue::Str(caption)
            ||| request.parse_mode matches Some(parse_mode) && value == parse_mode.json()
            ||| request.reply_to_message_id matches Some(to) && value == to.json()
            ||| value == JsonValue::Bool(true)
            ||| request.reply_markup matches Some(reply_markup) && value == reply_markup.json()
        }),
{
}

} // verus!
