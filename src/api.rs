use base64::Engine as _;
use vstd::prelude::*;

verus! {

/// An incoming HTTP request, in either of the two event shapes that the
/// function URL and the API gateway deliver.
#[derive(Debug)]
pub struct Request {
    pub http_method: Option<String>,
    pub path: Option<String>,
    pub raw_path: Option<String>,
    pub request_context: Option<RequestContext>,
    pub body: Option<String>,
}

/// The request context of the newer event shape.
#[derive(Debug)]
pub struct RequestContext {
    pub http: Option<HttpContext>,
}

/// The HTTP part of the request context.
#[derive(Debug)]
pub struct HttpContext {
    pub method: Option<String>,
    pub path: Option<String>,
}

/// The method named in the request context, if any.
pub open spec fn context_method(r: Request) -> Option<String> {
    match r.request_context {
        Some(ctx) => match ctx.http {
            Some(h) => h.method,
            None => None,
        },
        None => None,
    }
}

/// The path named in the request context, if any.
pub open spec fn context_path(r: Request) -> Option<String> {
    match r.request_context {
        Some(ctx) => match ctx.http {
            Some(h) => h.path,
            None => None,
        },
        None => None,
    }
}

/// The method of a request: the top-level one, else the one of the
/// context, else `UNKNOWN`.
pub open spec fn request_method(r: Request) -> Seq<char> {
    match r.http_method {
        Some(m) => m@,
        None => match context_method(r) {
            Some(m) => m@,
            None => "UNKNOWN"@,
        },
    }
}

/// The path of a request: the top-level path, else the raw path, else the
/// one of the context, else `/`.
pub open spec fn request_path(r: Request) -> Seq<char> {
    match r.path {
        Some(p) => p@,
        None => match r.raw_path {
            Some(p) => p@,
            None => match context_path(r) {
                Some(p) => p@,
                None => "/"@,
            },
        },
    }
}

fn clone_opt(o: &Option<String>) -> (r: Option<String>)
    ensures
        r == *o,
{
    match o {
        Some(s) => Some(s.clone()),
        None => None,
    }
}

/// The method and the path of `request`, with their fallbacks.
pub fn extract_method_and_path(request: &Request) -> (r: (String, String))
    ensures
        r.0@ == request_method(*request),
        r.1@ == request_path(*request),
{
    let (ctx_method, ctx_path) = match &request.request_context {
        Some(ctx) => match &ctx.http {
            Some(h) => (clone_opt(&h.method), clone_opt(&h.path)),
            None => (None, None),
        },
        None => (None, None),
    };
    let http_method = match &request.http_method {
        Some(m) => m.clone(),
        None => match ctx_method {
            Some(m) => m,
            None => "UNKNOWN".to_owned(),
        },
    };
    let path = match &request.path {
        Some(p) => p.clone(),
        None => match &request.raw_path {
            Some(p) => p.clone(),
            None => match ctx_path {
                Some(p) => p,
                None => "/".to_owned(),
            },
        },
    };
    (http_method, path)
}

/// The views of a list of headers.
pub open spec fn header_views(hs: Seq<(String, String)>) -> Seq<(Seq<char>, Seq<char>)> {
    hs.map_values(|h: (String, String)| (h.0@, h.1@))
}

/// The index of the first header of `hs` called `name`, or -1.
pub open spec fn first_header(hs: Seq<(Seq<char>, Seq<char>)>, name: Seq<char>) -> int
    decreases hs.len(),
{
    if hs.len() == 0 {
        -1
    } else {
        let i = first_header(hs.drop_last(), name);
        if i >= 0 {
            i
        } else if hs.last().0 == name {
            hs.len() - 1
        } else {
            -1
        }
    }
}

/// `hs` with header `name` set to `value`: replaced where present, else
/// appended.
pub open spec fn with_header(
    hs: Seq<(Seq<char>, Seq<char>)>,
    name: Seq<char>,
    value: Seq<char>,
) -> Seq<(Seq<char>, Seq<char>)> {
    let i = first_header(hs, name);
    if i < 0 {
        hs.push((name, value))
    } else {
        hs.update(i, (name, value))
    }
}

proof fn lemma_first_header(hs: Seq<(Seq<char>, Seq<char>)>, name: Seq<char>, k: int)
    requires
        0 <= k <= hs.len(),
        forall|j: int| 0 <= j < k ==> (#[trigger] hs[j]).0 != name,
        k < hs.len() ==> hs[k].0 == name,
    ensures
        first_header(hs, name) == if k < hs.len() { k } else { -1 },
    decreases hs.len(),
{
    if hs.len() > 0 {
        let p = hs.drop_last();
        if k < hs.len() - 1 {
            lemma_first_header(p, name, k);
        } else {
            lemma_first_header(p, name, p.len() as int);
        }
    }
}

/// The headers that every answer carries.
pub open spec fn cors_header_views() -> Seq<(Seq<char>, Seq<char>)> {
    seq![
        ("Content-Type"@, "application/json"@),
        ("Access-Control-Allow-Methods"@, "GET, POST, PUT, DELETE, OPTIONS"@),
        ("Access-Control-Allow-Headers"@, "Content-Type, Authorization, X-Requested-With"@),
    ]
}

/// The headers that every answer carries: JSON content and the allowed
/// cross-origin methods and headers.
pub fn create_cors_headers() -> (r: Vec<(String, String)>)
    ensures
        header_views(r@) == cors_header_views(),
{
    let r = vec![
        ("Content-Type".to_owned(), "application/json".to_owned()),
        ("Access-Control-Allow-Methods".to_owned(), "GET, POST, PUT, DELETE, OPTIONS".to_owned()),
        (
            "Access-Control-Allow-Headers".to_owned(),
            "Content-Type, Authorization, X-Requested-With".to_owned(),
        ),
    ];
    assert(header_views(r@) =~= cors_header_views());
    r
}

/// An HTTP answer.
#[derive(Debug)]
pub struct Response {
    pub status_code: u16,
    pub headers: Vec<(String, String)>,
    pub is_base64_encoded: bool,
    pub body: String,
}

/// The answer to a pre-flight `OPTIONS` request: status 200, the common
/// headers and an empty body.
pub fn options_response() -> (r: Response)
    ensures
        r.status_code == 200,
        header_views(r.headers@) == cors_header_views(),
        !r.is_base64_encoded,
        r.body@ == Seq::<char>::empty(),
{
    Response {
        status_code: 200,
        headers: create_cors_headers(),
        is_base64_encoded: false,
        body: String::new(),
    }
}

/// The lower-case hexadecimal digit for `n`, which must be below 16.
pub open spec fn hex_digit(n: nat) -> char {
    "0123456789abcdef"@[n as int]
}

/// How a JSON string writes the character `c`: quote, backslash and the
/// control characters escaped, the short escapes where JSON has one.
pub open spec fn json_escape(c: char) -> Seq<char> {
    if c == '"' {
        seq!['\\', '"']
    } else if c == '\\' {
        seq!['\\', '\\']
    } else if c == '\x08' {
        seq!['\\', 'b']
    } else if c == '\t' {
        seq!['\\', 't']
    } else if c == '\n' {
        seq!['\\', 'n']
    } else if c == '\x0c' {
        seq!['\\', 'f']
    } else if c == '\r' {
        seq!['\\', 'r']
    } else if (c as u32) < 0x20 {
        seq!['\\', 'u', '0', '0', hex_digit((c as u32 / 16) as nat), hex_digit((c as u32 % 16) as nat)]
    } else {
        seq![c]
    }
}

/// The characters of `s`, each written as in a JSON string.
pub open spec fn json_escaped(s: Seq<char>) -> Seq<char>
    decreases s.len(),
{
    if s.len() == 0 {
        Seq::empty()
    } else {
        json_escaped(s.drop_last()) + json_escape(s.last())
    }
}

/// The JSON string for `s`: its escaped characters between double quotes.
pub open spec fn json_string_of(s: Seq<char>) -> Seq<char> {
    seq!['"'] + json_escaped(s) + seq!['"']
}

/// The base64 character for the six-bit value `n`.
pub open spec fn base64_digit(n: int) -> char {
    "ABCDEFGHIJKLMNOPQRSTUVWXYZabcdefghijklmnopqrstuvwxyz0123456789+/"@[n]
}

/// The standard base64 text of `b`, padded with `=`: every three bytes
/// become four characters of six bits each, and a shorter tail is padded to
/// four characters.
pub open spec fn base64_of(b: Seq<u8>) -> Seq<char>
    decreases b.len(),
{
    let x = if b.len() > 0 { b[0] as int } else { 0 };
    let y = if b.len() > 1 { b[1] as int } else { 0 };
    let z = if b.len() > 2 { b[2] as int } else { 0 };
    if b.len() == 0 {
        Seq::empty()
    } else if b.len() == 1 {
        seq![base64_digit(x / 4), base64_digit((x % 4) * 16), '=', '=']
    } else if b.len() == 2 {
        seq![
            base64_digit(x / 4),
            base64_digit((x % 4) * 16 + y / 16),
            base64_digit((y % 16) * 4),
            '=',
        ]
    } else {
        seq![
            base64_digit(x / 4),
            base64_digit((x % 4) * 16 + y / 16),
            base64_digit((y % 16) * 4 + z / 64),
            base64_digit(z % 64),
        ] + base64_of(b.subrange(3, b.len() as int))
    }
}

#[verifier::external_type_specification]
#[verifier::external_body]
pub struct ExJsonError(serde_json::Error);

/// Relies on `serde_json::to_string`: the JSON text of a string, which it
/// writes into a `Vec` and so never fails to produce.
#[verifier::external_body]
fn json_string(s: &str) -> (r: Result<String, serde_json::Error>)
    ensures
        r is Ok,
        r matches Ok(j) ==> j@ == json_string_of(s@),
{
    serde_json::to_string(s)
}

/// Relies on `base64::engine::general_purpose::STANDARD.encode`: the padded
/// standard base64 text of the bytes. It panics only where the length of
/// the text would overflow `usize`.
#[verifier::external_body]
fn base64_encode(data: &[u8]) -> (r: String)
    requires
        data@.len() <= usize::MAX / 2,
    ensures
        r@ == base64_of(data@),
{
    base64::engine::general_purpose::STANDARD.encode(data)
}

/// Why an answer could not be built.
#[derive(Debug, Clone, Copy, PartialEq, Eq, Structural)]
pub enum ResponseError {
    /// The body could not be written as JSON.
    Serialization,
}

/// The JSON body of an error envelope with the JSON string
/// `quoted_message` and the code `code`.
pub open spec fn error_body(quoted_message: Seq<char>, code: Seq<char>) -> Seq<char> {
    "{\"success\":false,\"error\":"@ + quoted_message + ",\"error_code\":\""@ + code + "\"}"@
}

impl Response {
    /// An answer with `status_code`, the common headers and the JSON text
    /// `body`.
    pub fn new(status_code: u16, body: String) -> (r: Self)
        ensures
            r.status_code == status_code,
            header_views(r.headers@) == cors_header_views(),
            !r.is_base64_encoded,
            r.body == body,
    {
        Response { status_code, headers: create_cors_headers(), is_base64_encoded: false, body }
    }

    /// Sets header `name` to `value`, replacing the first header of that
    /// name or appending one.
    pub fn insert_header(&mut self, name: &str, value: &str)
        ensures
            final(self).status_code == old(self).status_code,
            final(self).is_base64_encoded == old(self).is_base64_encoded,
            final(self).body == old(self).body,
            header_views(final(self).headers@) == with_header(
                header_views(old(self).headers@),
                name@,
                value@,
            ),
    {
        let ghost hs = header_views(self.headers@);
        let key = name.to_owned();
        let mut k: usize = 0;
        while k < self.headers.len()
            invariant
                k <= self.headers@.len(),
                hs == header_views(self.headers@),
                key@ == name@,
                forall|j: int| 0 <= j < k ==> (#[trigger] hs[j]).0 != name@,
            ensures
                k <= self.headers@.len(),
                forall|j: int| 0 <= j < k ==> (#[trigger] hs[j]).0 != name@,
                k < self.headers@.len() ==> hs[k as int].0 == name@,
            decreases self.headers@.len() - k,
        {
            if self.headers[k].0 == key {
                break;
            }
            k = k + 1;
        }
        proof {
            lemma_first_header(hs, name@, k as int);
        }
        if k < self.headers.len() {
            self.headers.set(k, (key, value.to_owned()));
            assert(header_views(self.headers@) =~= hs.update(k as int, (name@, value@)));
        } else {
            self.headers.push((key, value.to_owned()));
            assert(header_views(self.headers@) =~= hs.push((name@, value@)));
        }
    }

    /// This answer with its `Content-Type` header set to `content_type`.
    pub fn with_content_type(self, content_type: &str) -> (r: Self)
        ensures
            r.status_code == self.status_code,
            r.is_base64_encoded == self.is_base64_encoded,
            r.body == self.body,
            header_views(r.headers@) == with_header(
                header_views(self.headers@),
                "Content-Type"@,
                content_type@,
            ),
    {
        let mut r = self;
        r.insert_header("Content-Type", content_type);
        r
    }

    /// This answer with `data`, base64-encoded, as its body.
    pub fn into_binary(self, data: Vec<u8>) -> (r: Self)
        requires
            data@.len() <= usize::MAX / 2,
        ensures
            r.status_code == self.status_code,
            r.headers == self.headers,
            r.is_base64_encoded,
            r.body@ == base64_of(data@),
    {
        let mut r = self;
        r.is_base64_encoded = true;
        r.body = base64_encode(data.as_slice());
        r
    }
}

/// The answer with `status_code`, the common headers and the JSON body of
/// an error envelope with message `quoted_message`, already a JSON
/// string, and code `code`.
pub fn error_response(status_code: u16, quoted_message: String, code: &str) -> (r: Response)
    ensures
        r.status_code == status_code,
        header_views(r.headers@) == cors_header_views(),
        !r.is_base64_encoded,
        r.body@ == error_body(quoted_message@, code@),
{
    let mut body = "{\"success\":false,\"error\":".to_owned();
    body.append(quoted_message.as_str());
    body.append(",\"error_code\":\"");
    body.append(code);
    body.append("\"}");
    Response::new(status_code, body)
}

/// Whether `r` is the error answer with `status_code`, message `message`
/// and code `code`.
pub open spec fn is_error_answer(
    r: Result<Response, ResponseError>,
    status_code: u16,
    message: Seq<char>,
    code: Seq<char>,
) -> bool {
    match r {
        Ok(resp) => {
            &&& resp.status_code == status_code
            &&& header_views(resp.headers@) == cors_header_views()
            &&& !resp.is_base64_encoded
            &&& resp.body@ == error_body(json_string_of(message), code)
        },
        Err(_) => false,
    }
}

fn error_answer(status_code: u16, message: &str, code: &str) -> (r: Result<Response, ResponseError>)
    ensures
        is_error_answer(r, status_code, message@, code@),
{
    match json_string(message) {
        Ok(quoted) => Ok(error_response(status_code, quoted, code)),
        Err(_) => Err(ResponseError::Serialization),
    }
}

/// The 404 answer with `message`.
pub fn not_found(message: &str) -> (r: Result<Response, ResponseError>)
    ensures
        is_error_answer(r, 404, message@, "NOT_FOUND"@),
{
    error_answer(404, message, "NOT_FOUND")
}

/// The 400 answer with `message`.
pub fn bad_request(message: &str) -> (r: Result<Response, ResponseError>)
    ensures
        is_error_answer(r, 400, message@, "BAD_REQUEST"@),
{
    error_answer(400, message, "BAD_REQUEST")
}

/// The 500 answer with `message`.
pub fn server_error(message: &str) -> (r: Result<Response, ResponseError>)
    ensures
        is_error_answer(r, 500, message@, "SERVER_ERROR"@),
{
    error_answer(500, message, "SERVER_ERROR")
}

} // verus!
