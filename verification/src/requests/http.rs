use vstd::prelude::*;

verus! {

/// The HTTP method of a request.
#[derive(Debug, Clone, Copy, PartialEq, Eq, Structural, Hash)]
pub enum Method {
    Get,
    Post,
}

/// Where a request goes.
#[derive(Debug, Clone, Copy, PartialEq, Eq, Hash)]
pub enum RequestUrl {
    /// The API method of the given name.
    Method(&'static str),
}

impl RequestUrl {
    /// The address of the API method `name`.
    pub fn method(name: &'static str) -> (url: RequestUrl)
        ensures
            url.name() == name@,
    {
        RequestUrl::Method(name)
    }

    /// The name of the API method that this address stands for.
    pub open spec fn name(self) -> Seq<char> {
        match self {
            RequestUrl::Method(name) => name@,
        }
    }

    pub fn method_name(&self) -> (name: &'static str)
        ensures
            name@ == self.name(),
    {
        match self {
            RequestUrl::Method(name) => name,
        }
    }
}

/// What a request carries, and in which encoding.
#[derive(Debug, Clone, PartialEq, Eq, Hash)]
pub enum Body {
    /// Nothing.
    Empty,
    /// JSON text.
    Json(String),
}

/// The mathematical value of a [`Body`].
pub ghost enum BodyView {
    Empty,
    Json(Seq<char>),
}

impl View for Body {
    type V = BodyView;

    open spec fn view(&self) -> BodyView {
        match self {
            Body::Empty => BodyView::Empty,
            Body::Json(text) => BodyView::Json(text@),
        }
    }
}

/// A request as the transport takes it.
#[derive(Debug, Clone, PartialEq, Eq, Hash)]
pub struct HttpRequest {
    pub url: RequestUrl,
    pub method: Method,
    pub body: Body,
}

/// The mathematical value of an [`HttpRequest`].
pub ghost struct HttpRequestView {
    /// The name of the API method.
    pub name: Seq<char>,
    pub method: Method,
    pub body: BodyView,
}

impl View for HttpRequest {
    type V = HttpRequestView;

    open spec fn view(&self) -> HttpRequestView {
        HttpRequestView { name: self.url.name(), method: self.method, body: self.body@ }
    }
}

/// A reply as the transport hands it over: the bytes of its body, where it
/// has one.
#[derive(Debug, Clone, PartialEq, Eq, Hash)]
pub struct HttpResponse {
    pub body: Option<Vec<u8>>,
}

impl View for HttpResponse {
    type V = Option<Seq<u8>>;

    open spec fn view(&self) -> Option<Seq<u8>> {
        match self.body {
            Some(bytes) => Some(bytes@),
            None => None,
        }
    }
}

} // verus!
