//! Requests: what every request has in common, and the requests themselves.

pub mod errors;
pub mod http;
pub mod request;
pub mod response;
pub mod send_photo;

pub use errors::{DecodeError, Error, ErrorView};
pub use http::{
    Body, BodyView, HttpRequest, HttpRequestView, HttpResponse, Method, RequestUrl,
};
pub use request::{JsonRequestType, Request, RequestType};
pub use response::{
    deserialize, read_body, unwrap_envelope, Envelope, EnvelopeView, JsonIdResponse, JsonResponse,
    ResponseType,
};
pub use send_photo::{CanReplySendPhoto, CanSendPhoto, SendPhoto, SendPhotoView};
