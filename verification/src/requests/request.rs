use crate::json::encode::encode;
use crate::json::grammar::{parse, MAX_DEPTH};
use crate::json::roundtrip::{fits, lemma_parse_encode};
use crate::json::value::{Json, JsonValue};
use crate::requests::errors::Error;
use crate::requests::http::{Body, BodyView, HttpRequest, HttpRequestView, Method, RequestUrl};
use crate::requests::response::ResponseType;
use vstd::prelude::*;

verus! {

/// A way of putting a request on the wire.
pub trait RequestType {
    /// The wire form of the request to the API method `name` with the
    /// given fields, where this way of encoding has one for them.
    spec fn wire_form(name: Seq<char>, payload: JsonValue) -> Option<HttpRequestView>;

    /// Puts the request on the wire, or fails with [`Error::Encode`] where
    /// the fields have no wire form.
    fn serialize(url: RequestUrl, payload: &Json) -> (r: Result<HttpRequest, Error>)
        ensures
            match r {
                Ok(request) => Self::wire_form(url.name(), payload@) == Some(request@),
                Err(e) => e is Encode && Self::wire_form(url.name(), payload@) is None,
            },
    ;
}

/// The fields go out as a JSON object in the body of a POST.
pub struct JsonRequestType;

impl RequestType for JsonRequestType {
    open spec fn wire_form(name: Seq<char>, payload: JsonValue) -> Option<HttpRequestView> {
        if payload is Object {
            Some(HttpRequestView { name, method: Method::Post, body: BodyView::Json(encode(payload)) })
        } else {
            None
        }
    }

    fn serialize(url: RequestUrl, payload: &Json) -> (r: Result<HttpRequest, Error>) {
        match payload {
            Json::Object(_) => Ok(
                HttpRequest { url, method: Method::Post, body: Body::Json(payload.to_text()) },
            ),
            _ => Err(Error::Encode),
        }
    }
}

/// One call of the API: a value that holds its fields, knows how it goes on
/// the wire and how its reply is read.
pub trait Request {
    /// How the request goes on the wire.
    type Type: RequestType;

    /// How the reply is read.
    type Response: ResponseType;

    /// The name of the API method. It is fixed for the type.
    spec fn name() -> Seq<char>;

    /// The fields of the call as they stand now.
    spec fn payload(&self) -> JsonValue;

    /// The request in its wire form. The request itself is left as it was,
    /// and may be serialized again.
    fn serialize(&self) -> (r: Result<HttpRequest, Error>)
        ensures
            match r {
                Ok(request) => Self::Type::wire_form(Self::name(), self.payload()) == Some(
                    request@,
                ),
                Err(e) => e is Encode && Self::Type::wire_form(Self::name(), self.payload())
                    is None,
            },
    ;
}

/// What [`JsonRequestType`] puts in the body reads back as the payload that
/// it was given: every member of the payload is there with its value, and
/// nothing else is.
pub proof fn lemma_json_body_reads_back(name: Seq<char>, payload: JsonValue)
    requires
        payload is Object,
        fits(payload, MAX_DEPTH as nat),
    ensures
        JsonRequestType::wire_form(name, payload) matches Some(request) && request.body
            matches BodyView::Json(text) && parse(text) == Some(payload),
{
    lemma_parse_encode(payload);
}

/// Serializing is repeatable: whatever two calls of `serialize` return for
/// one request that was not changed in between, they return the same, down
/// to the last character of the body.
pub proof fn lemma_serialize_is_repeatable<R: Request>(
    request: R,
    first: Result<HttpRequest, Error>,
    second: Result<HttpRequest, Error>,
)
    requires
        call_ensures(R::serialize, (&request,), first),
        call_ensures(R::serialize, (&request,), second),
    ensures
        match (first, second) {
            (Ok(a), Ok(b)) => a@ == b@,
            (Err(e), Err(f)) => e@ == f@,
            _ => false,
        },
{
}

} // verus!
