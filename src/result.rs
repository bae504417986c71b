use vstd::prelude::*;

verus! {

/// The status code of a successful response.
pub const STATUS_OK: u16 = 200;

/// The status code of a request that no route or stage handled.
pub const STATUS_NOT_FOUND: u16 = 404;

/// The status code of a stage that failed with an error.
pub const STATUS_INTERNAL_SERVER_ERROR: u16 = 500;

/// The text that opens the body of a response synthesized from an error.
pub open spec fn server_error_prefix() -> Seq<char> {
    seq![
        'I', 'n', 't', 'e', 'r', 'n', 'a', 'l', ' ', 'S', 'e', 'r', 'v', 'e', 'r', ' ', 'E', 'r',
        'r', 'o', 'r', ':', ' '
    ]
}

/// An HTTP response: status code, headers and body.
pub struct Response {
    pub status: u16,
    pub headers: Vec<(String, String)>,
    pub body: String,
}

impl Response {
    /// An empty response with status 200.
    pub fn new() -> (r: Response)
        ensures
            r.status == STATUS_OK,
            r.headers@.len() == 0,
            r.body@.len() == 0,
    {
        Response { status: STATUS_OK, headers: Vec::new(), body: String::new() }
    }

    /// The response with its status replaced.
    pub fn with_status(self, status: u16) -> (r: Response)
        ensures
            r.status == status,
            r.headers == self.headers,
            r.body == self.body,
    {
        Response { status, ..self }
    }

    /// The response with its body replaced.
    pub fn with_body(self, body: String) -> (r: Response)
        ensures
            r.status == self.status,
            r.headers == self.headers,
            r.body == body,
    {
        Response { body, ..self }
    }

    /// The response with one more header, after those it has.
    pub fn with_header(self, name: String, value: String) -> (r: Response)
        ensures
            r.status == self.status,
            r.headers@ == self.headers@.push((name, value)),
            r.body == self.body,
    {
        let mut headers = self.headers;
        headers.push((name, value));
        Response { status: self.status, headers, body: self.body }
    }
}

/// A stage's error, together with the response that the client gets for it.
pub struct Failure {
    pub err: String,
    pub response: Response,
}

impl Failure {
    /// A failure for the error described by `err`, with a synthesized 500
    /// response whose body names the error.
    pub fn new(err: String) -> (r: Failure)
        ensures
            r.err == err,
            r.response.status == STATUS_INTERNAL_SERVER_ERROR,
            r.response.headers@.len() == 0,
            r.response.body@ == server_error_prefix() + err@,
    {
        let mut body = String::from_str("Internal Server Error: ");
        body.append(err.as_str());
        proof {
            reveal_strlit("Internal Server Error: ");
            assert(body@ =~= server_error_prefix() + err@);
        }
        Failure { err, response: Response::new().with_status(STATUS_INTERNAL_SERVER_ERROR).with_body(body) }
    }

    /// The failure with its fallback response replaced.
    pub fn with_response(self, response: Response) -> (r: Failure)
        ensures
            r.err == self.err,
            r.response == response,
    {
        Failure { err: self.err, response }
    }
}

} // verus!
