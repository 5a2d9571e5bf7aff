use crate::json::grammar;
use crate::json::object::find_member;
use crate::json::value::{lemma_object_view, lookup, Json, JsonValue};
use crate::requests::errors::{DecodeError, Error, ErrorView};
use crate::requests::http::HttpResponse;
use crate::types::refs::MessageId;
use std::string::FromUtf8Error;
use vstd::prelude::*;
use vstd::utf8::{decode_utf8, encode_utf8, encode_utf8_decode_utf8, valid_utf8};

verus! {

/// The outer wrapper of a reply: either the result of the call, or the
/// failure that the remote end reports.
#[derive(Debug, Clone, PartialEq, Eq)]
pub enum Envelope {
    Success { result: Json },
    Failure { error_code: i64, description: String },
}

/// The mathematical value of an [`Envelope`].
pub ghost enum EnvelopeView {
    Success { result: JsonValue },
    Failure { error_code: int, description: Seq<char> },
}

impl View for Envelope {
    type V = EnvelopeView;

    open spec fn view(&self) -> EnvelopeView {
        match self {
            Envelope::Success { result } => EnvelopeView::Success { result: result@ },
            Envelope::Failure { error_code, description } => EnvelopeView::Failure {
                error_code: *error_code as int,
                description: description@,
            },
        }
    }
}

/// The envelope that a reply is, or why it is none.
///
/// A reply is an object with a boolean `ok`. Where `ok` is true, it has a
/// `result`; where `ok` is false, it has an integer `error_code` and a string
/// `description`. Members besides these are passed over, and of a name that
/// occurs more than once the first occurrence counts.
pub open spec fn envelope_of(body: JsonValue) -> Result<EnvelopeView, DecodeError> {
    match body {
        JsonValue::Object(members) => match lookup(members, "ok"@) {
            None => Err(DecodeError::MissingField),
            Some(JsonValue::Bool(true)) => match lookup(members, "result"@) {
                None => Err(DecodeError::MissingField),
                Some(result) => Ok(EnvelopeView::Success { result }),
            },
            Some(JsonValue::Bool(false)) => match lookup(members, "error_code"@) {
                None => Err(DecodeError::MissingField),
                Some(JsonValue::Int(error_code)) => match lookup(members, "description"@) {
                    None => Err(DecodeError::MissingField),
                    Some(JsonValue::Str(description)) => Ok(
                        EnvelopeView::Failure { error_code, description },
                    ),
                    Some(_) => Err(DecodeError::TypeMismatch),
                },
                Some(_) => Err(DecodeError::TypeMismatch),
            },
            Some(_) => Err(DecodeError::TypeMismatch),
        },
        _ => Err(DecodeError::TypeMismatch),
    }
}

impl Envelope {
    /// Reads a reply as an envelope.
    pub fn from_json(body: Json) -> (r: Result<Envelope, DecodeError>)
        ensures
            match r {
                Ok(envelope) => envelope_of(body@) == Ok::<EnvelopeView, DecodeError>(envelope@),
                Err(e) => envelope_of(body@) == Err::<EnvelopeView, DecodeError>(e),
            },
    {
        let mut members = match body {
            Json::Object(members) => {
                proof {
                    lemma_object_view(members);
                }
                members
            },
            _ => {
                return Err(DecodeError::TypeMismatch);
            },
        };
        let ok = match find_member(&members, "ok") {
            None => {
                return Err(DecodeError::MissingField);
            },
            Some(i) => match &members[i].1 {
                Json::Bool(ok) => *ok,
                _ => {
                    return Err(DecodeError::TypeMismatch);
                },
            },
        };
        if ok {
            match find_member(&members, "result") {
                None => Err(DecodeError::MissingField),
                Some(i) => {
                    let member = members.remove(i);
                    Ok(Envelope::Success { result: member.1 })
                },
            }
        } else {
            let error_code = match find_member(&members, "error_code") {
                None => {
                    return Err(DecodeError::MissingField);
                },
                Some(i) => match &members[i].1 {
                    Json::Int(error_code) => *error_code,
                    _ => {
                        return Err(DecodeError::TypeMismatch);
                    },
                },
            };
            match find_member(&members, "description") {
                None => Err(DecodeError::MissingField),
                Some(i) => {
                    let member = members.remove(i);
                    match member.1 {
                        Json::Str(description) => Ok(Envelope::Failure { error_code, description }),
                        _ => Err(DecodeError::TypeMismatch),
                    }
                },
            }
        }
    }
}

/// A way of reading the result of a call out of its reply.
pub trait ResponseType {
    /// What the caller gets.
    type Type: View;

    /// What the caller gets for the given result, or why the result is not
    /// of the expected shape.
    spec fn extracted(result: JsonValue) -> Result<<Self::Type as View>::V, DecodeError>;

    /// Reads the result of a call.
    fn extract(result: Json) -> (r: Result<Self::Type, DecodeError>)
        ensures
            match r {
                Ok(value) => Self::extracted(result@) == Ok::<
                    <Self::Type as View>::V,
                    DecodeError,
                >(value@),
                Err(e) => Self::extracted(result@) == Err::<<Self::Type as View>::V, DecodeError>(
                    e,
                ),
            },
    ;
}

/// The caller gets the result object as it is.
pub struct JsonResponse;

/// The result is a message, and the caller gets its id alone.
pub struct JsonIdResponse;

impl ResponseType for JsonResponse {
    type Type = Json;

    open spec fn extracted(result: JsonValue) -> Result<JsonValue, DecodeError> {
        if result is Object {
            Ok(result)
        } else {
            Err(DecodeError::TypeMismatch)
        }
    }

    fn extract(result: Json) -> (r: Result<Json, DecodeError>) {
        match result {
            Json::Object(members) => Ok(Json::Object(members)),
            _ => Err(DecodeError::TypeMismatch),
        }
    }
}

impl ResponseType for JsonIdResponse {
    type Type = MessageId;

    open spec fn extracted(result: JsonValue) -> Result<MessageId, DecodeError> {
        match result {
            JsonValue::Object(members) => match lookup(members, "message_id"@) {
                None => Err(DecodeError::MissingField),
                Some(JsonValue::Int(id)) => if i64::MIN <= id <= i64::MAX {
                    Ok(MessageId(id as i64))
                } else {
                    Err(DecodeError::TypeMismatch)
                },
                Some(_) => Err(DecodeError::TypeMismatch),
            },
            _ => Err(DecodeError::TypeMismatch),
        }
    }

    fn extract(result: Json) -> (r: Result<MessageId, DecodeError>) {
        match result.get("message_id") {
            None => match result {
                Json::Object(_) => Err(DecodeError::MissingField),
                _ => Err(DecodeError::TypeMismatch),
            },
            Some(Json::Int(id)) => Ok(MessageId(*id)),
            Some(_) => Err(DecodeError::TypeMismatch),
        }
    }
}

/// What the caller gets for the given reply under the strategy `R`.
///
/// A reply that is no envelope is a decode error. A failure envelope is the
/// API error that it carries, whatever the strategy. A success envelope is
/// what the strategy reads out of its result.
pub open spec fn unwrapped<R: ResponseType>(body: JsonValue) -> Result<
    <R::Type as View>::V,
    ErrorView,
> {
    match envelope_of(body) {
        Err(e) => Err(ErrorView::Decode(e)),
        Ok(EnvelopeView::Failure { error_code, description }) => Err(
            ErrorView::Api { error_code, description },
        ),
        Ok(EnvelopeView::Success { result }) => match R::extracted(result) {
            Ok(value) => Ok(value),
            Err(e) => Err(ErrorView::Decode(e)),
        },
    }
}

/// Reads a reply under the strategy `R`.
pub fn unwrap_envelope<R: ResponseType>(body: Json) -> (r: Result<R::Type, Error>)
    ensures
        match r {
            Ok(value) => unwrapped::<R>(body@) == Ok::<<R::Type as View>::V, ErrorView>(value@),
            Err(e) => unwrapped::<R>(body@) == Err::<<R::Type as View>::V, ErrorView>(e@),
        },
{
    match Envelope::from_json(body) {
        Err(e) => Err(Error::Decode(e)),
        Ok(Envelope::Failure { error_code, description }) => Err(
            Error::Api { error_code, description },
        ),
        Ok(Envelope::Success { result }) => match R::extract(result) {
            Ok(value) => Ok(value),
            Err(e) => Err(Error::Decode(e)),
        },
    }
}

/// The error of `String::from_utf8`.
#[verifier::external_type_specification]
#[verifier::external_body]
pub struct ExFromUtf8Error(FromUtf8Error);

/// `String::from_utf8` succeeds exactly on well-formed UTF-8, and the
/// string that it gives then has the bytes that it was given.
pub assume_specification[ String::from_utf8 ](vec: Vec<u8>) -> (r: Result<String, FromUtf8Error>)
    ensures
        r is Ok <==> valid_utf8(vec@),
        r matches Ok(text) ==> encode_utf8(text@) == vec@,
;

/// The JSON value that the body of a reply is, or why it is none: there is
/// no body, or its bytes are not UTF-8, or its text is not JSON.
pub open spec fn body_json(body: Option<Seq<u8>>) -> Result<JsonValue, DecodeError> {
    match body {
        None => Err(DecodeError::Empty),
        Some(bytes) => if valid_utf8(bytes) {
            match grammar::parse(decode_utf8(bytes)) {
                Some(value) => Ok(value),
                None => Err(DecodeError::Syntax),
            }
        } else {
            Err(DecodeError::Syntax)
        },
    }
}

/// Reads the body of a reply as JSON.
pub fn read_body(response: HttpResponse) -> (r: Result<Json, DecodeError>)
    ensures
        match r {
            Ok(value) => body_json(response@) == Ok::<JsonValue, DecodeError>(value@),
            Err(e) => body_json(response@) == Err::<JsonValue, DecodeError>(e),
        },
{
    let bytes = match response.body {
        Some(bytes) => bytes,
        None => {
            return Err(DecodeError::Empty);
        },
    };
    let text = match String::from_utf8(bytes) {
        Ok(text) => text,
        Err(_) => {
            return Err(DecodeError::Syntax);
        },
    };
    proof {
        encode_utf8_decode_utf8(text@);
    }
    match Json::parse(text.as_str()) {
        Some(value) => Ok(value),
        None => Err(DecodeError::Syntax),
    }
}

/// What the caller gets for the given reply under the strategy `R`: what
/// the strategy makes of the JSON value that the body is, and a decode
/// error where the body is none.
pub open spec fn deserialized<R: ResponseType>(body: Option<Seq<u8>>) -> Result<
    <R::Type as View>::V,
    ErrorView,
> {
    match body_json(body) {
        Ok(value) => unwrapped::<R>(value),
        Err(e) => Err(ErrorView::Decode(e)),
    }
}

/// Reads a reply under the strategy `R`.
pub fn deserialize<R: ResponseType>(response: HttpResponse) -> (r: Result<R::Type, Error>)
    ensures
        match r {
            Ok(value) => deserialized::<R>(response@) == Ok::<<R::Type as View>::V, ErrorView>(
                value@,
            ),
            Err(e) => deserialized::<R>(response@) == Err::<<R::Type as View>::V, ErrorView>(e@),
        },
{
    match read_body(response) {
        Ok(body) => unwrap_envelope::<R>(body),
        Err(e) => Err(Error::Decode(e)),
    }
}

/// A reply that is a failure envelope gives the API error with the code and
/// the description that it carries, and gives the same under any two
/// strategies.
pub proof fn lemma_failure_is_the_same_under_every_strategy<A: ResponseType, B: ResponseType>(
    body: Option<Seq<u8>>,
    reply: JsonValue,
    error_code: int,
    description: Seq<char>,
)
    requires
        body_json(body) == Ok::<JsonValue, DecodeError>(reply),
        envelope_of(reply) == Ok::<EnvelopeView, DecodeError>(
            EnvelopeView::Failure { error_code, description },
        ),
    ensures
        deserialized::<A>(body) == Err::<<A::Type as View>::V, ErrorView>(
            ErrorView::Api { error_code, description },
        ),
        deserialized::<B>(body) == Err::<<B::Type as View>::V, ErrorView>(
            ErrorView::Api { error_code, description },
        ),
{
}

/// Where the strategy that extracts the id gives an id, the strategy that
/// gives the whole object gives the object that was the result, and the id
/// is the `message_id` of that object.
pub proof fn lemma_id_is_the_id_of_the_whole_object(result: JsonValue, id: MessageId)
    requires
        JsonIdResponse::extracted(result) == Ok::<MessageId, DecodeError>(id),
    ensures
        JsonResponse::extracted(result) == Ok::<JsonValue, DecodeError>(result),
        result matches JsonValue::Object(members) && lookup(members, "message_id"@) == Some(
            JsonValue::Int(id.0 as int),
        ),
{
}

} // verus!
