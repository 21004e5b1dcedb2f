use vstd::prelude::*;

verus! {

/// Error of the HTTP API, each kind with its message.
#[derive(Debug, Clone, PartialEq, Eq)]
pub enum ApiError {
    BadRequest(String),
    NotFound(String),
    Conflict(String),
    Unprocessable(String),
    TooManyRequests(String),
    Internal(String),
}

/// `code: msg`.
pub open spec fn coded(code: Seq<char>, msg: Seq<char>) -> Seq<char> {
    code + ": "@ + msg
}

fn coded_message(code: &str, msg: &str) -> (r: String)
    ensures
        r@ == coded(code@, msg@),
{
    let mut s = String::from_str(code);
    s.append(": ");
    s.append(msg);
    s
}

impl ApiError {
    /// The message carried by any kind.
    pub open spec fn text(&self) -> Seq<char> {
        match self {
            ApiError::BadRequest(m) => m@,
            ApiError::NotFound(m) => m@,
            ApiError::Conflict(m) => m@,
            ApiError::Unprocessable(m) => m@,
            ApiError::TooManyRequests(m) => m@,
            ApiError::Internal(m) => m@,
        }
    }

    /// 400, with message `code: msg`.
    pub fn bad_request(code: &str, msg: &str) -> (e: ApiError)
        ensures
            e is BadRequest && e.text() == coded(code@, msg@),
    {
        ApiError::BadRequest(coded_message(code, msg))
    }

    /// 404, with message `code: msg`.
    pub fn not_found(code: &str, msg: &str) -> (e: ApiError)
        ensures
            e is NotFound && e.text() == coded(code@, msg@),
    {
        ApiError::NotFound(coded_message(code, msg))
    }

    /// 409, with message `code: msg`.
    pub fn conflict(code: &str, msg: &str) -> (e: ApiError)
        ensures
            e is Conflict && e.text() == coded(code@, msg@),
    {
        ApiError::Conflict(coded_message(code, msg))
    }

    /// 422, with message `code: msg`.
    pub fn unprocessable(code: &str, msg: &str) -> (e: ApiError)
        ensures
            e is Unprocessable && e.text() == coded(code@, msg@),
    {
        ApiError::Unprocessable(coded_message(code, msg))
    }

    /// 500, with message `code: msg`.
    pub fn internal(code: &str, msg: &str) -> (e: ApiError)
        ensures
            e is Internal && e.text() == coded(code@, msg@),
    {
        ApiError::Internal(coded_message(code, msg))
    }

    /// 429, with message `code: msg`.
    pub fn too_many_requests(code: &str, msg: &str) -> (e: ApiError)
        ensures
            e is TooManyRequests && e.text() == coded(code@, msg@),
    {
        ApiError::TooManyRequests(coded_message(code, msg))
    }

    /// The instance URI is not kept on the error; the error is returned as is.
    pub fn with_instance(self, instance: &str) -> (e: ApiError)
        ensures
            e == self,
    {
        self
    }

    /// The request id is not kept on the error; the error is returned as is.
    pub fn with_request_id(self, rid: &str) -> (e: ApiError)
        ensures
            e == self,
    {
        self
    }

    /// The HTTP status code of the kind.
    pub fn status_code(&self) -> (c: u16)
        ensures
            c == match self {
                ApiError::BadRequest(_) => 400u16,
                ApiError::NotFound(_) => 404,
                ApiError::Conflict(_) => 409,
                ApiError::Unprocessable(_) => 422,
                ApiError::TooManyRequests(_) => 429,
                ApiError::Internal(_) => 500,
            },
    {
        match self {
            ApiError::BadRequest(_) => 400,
            ApiError::NotFound(_) => 404,
            ApiError::Conflict(_) => 409,
            ApiError::Unprocessable(_) => 422,
            ApiError::TooManyRequests(_) => 429,
            ApiError::Internal(_) => 500,
        }
    }
}

/// An RFC 7807 problem document.
#[derive(Debug, Clone)]
pub struct Problem {
    pub kind: String,
    pub title: String,
    pub status: u16,
    pub detail: Option<String>,
    pub instance: Option<String>,
    pub request_id: Option<String>,
}

impl Problem {
    /// A problem of type `about:blank` with this status and title.
    pub fn new(status: u16, title: &str) -> (p: Problem)
        ensures
            p.kind@ == "about:blank"@,
            p.title@ == title@,
            p.status == status,
            p.detail is None && p.instance is None && p.request_id is None,
    {
        Problem {
            kind: String::from_str("about:blank"),
            title: String::from_str(title),
            status,
            detail: None,
            instance: None,
            request_id: None,
        }
    }

    /// Sets the detail text.
    pub fn detail(self, d: &str) -> (p: Problem)
        ensures
            p.detail matches Some(x) && x@ == d@,
            p.kind == self.kind && p.title == self.title && p.status == self.status,
            p.instance == self.instance && p.request_id == self.request_id,
    {
        Problem { detail: Some(String::from_str(d)), ..self }
    }

    /// Sets the instance URI.
    pub fn instance(self, i: &str) -> (p: Problem)
        ensures
            p.instance matches Some(x) && x@ == i@,
            p.kind == self.kind && p.title == self.title && p.status == self.status,
            p.detail == self.detail && p.request_id == self.request_id,
    {
        Problem { instance: Some(String::from_str(i)), ..self }
    }

    /// Sets the request id.
    pub fn request_id(self, rid: &str) -> (p: Problem)
        ensures
            p.request_id matches Some(x) && x@ == rid@,
            p.kind == self.kind && p.title == self.title && p.status == self.status,
            p.detail == self.detail && p.instance == self.instance,
    {
        Problem { request_id: Some(String::from_str(rid)), ..self }
    }
}

} // verus!
