use vstd::prelude::*;
use vstd::utf8::encode_utf8;

use crate::headers::{names_unique, Headers};
use vstd::string::StringExecFns;

use crate::text::{chars_of, decimal, push_decimal, same_chars};

verus! {

/// What a response holds, as mathematical values.
pub struct ResponseModel {
    pub version: Seq<char>,
    pub status_code: Seq<char>,
    pub status_text: Seq<char>,
    pub headers: Seq<(Seq<char>, Seq<char>)>,
    pub body: Seq<char>,
}

/// The reason phrase of a status code; an unknown code reads as `Not Found`.
pub open spec fn status_text_of(code: Seq<char>) -> Seq<char> {
    if code == "200"@ {
        "OK"@
    } else if code == "400"@ {
        "Bad Request"@
    } else if code == "404"@ {
        "Not Found"@
    } else if code == "500"@ {
        "Internal Server Error"@
    } else {
        "Not Found"@
    }
}

/// The header fields that a response has when none are given.
pub open spec fn default_headers() -> Seq<(Seq<char>, Seq<char>)> {
    seq![("Content-Type"@, "text/html"@)]
}

/// The header lines, `name: value` each ended by CR LF, in order.
pub open spec fn headers_text(h: Seq<(Seq<char>, Seq<char>)>) -> Seq<char>
    decreases h.len(),
{
    if h.len() == 0 {
        Seq::empty()
    } else {
        headers_text(h.drop_last()) + h.last().0 + ": "@ + h.last().1 + "\r\n"@
    }
}

/// The number of bytes of `body` in UTF-8, as a `usize` (a string held in
/// memory always has a length that fits).
pub open spec fn body_len(body: Seq<char>) -> nat {
    (encode_utf8(body).len() as usize) as nat
}

/// The text of a response as it goes on the wire: the status line, the
/// header lines, an empty line, the `Content-Length` line, another empty
/// line, then the body.
pub open spec fn wire(m: ResponseModel) -> Seq<char> {
    m.version + " "@ + m.status_code + " "@ + m.status_text + "\r\n"@ + headers_text(m.headers)
        + "\r\n"@ + "Content-Length: "@ + decimal(body_len(m.body)) + "\r\n\r\n"@ + m.body
}

/// A response, ready to be written out. Its header names are unique, as
/// those of every `Headers` are.
pub struct HttpResponse {
    version: String,
    status_code: String,
    status_text: String,
    headers: Headers,
    body: String,
}

impl HttpResponse {
    /// The response as mathematical values.
    pub closed spec fn view(&self) -> ResponseModel {
        ResponseModel {
            version: self.version@,
            status_code: self.status_code@,
            status_text: self.status_text@,
            headers: self.headers.pairs(),
            body: self.body@,
        }
    }

    /// A response with the given status code, header fields and body. The
    /// version is `HTTP/1.1`, the reason phrase follows from the code, and
    /// without header fields there is one, `Content-Type: text/html`. A body
    /// must be given, if only an empty one.
    pub fn new(status_code: &str, headers: Option<Headers>, body: Option<String>) -> (r:
        HttpResponse)
        requires
            body is Some,
        ensures
            r@.version == "HTTP/1.1"@,
            r@.status_code == status_code@,
            r@.status_text == status_text_of(status_code@),
            r@.headers == match headers {
                Some(h) => h.pairs(),
                None => default_headers(),
            },
            r@.body == body->0@,
            names_unique(r@.headers),
    {
        let code = chars_of(status_code);
        let status_text = if same_chars(&code, &chars_of("200")) {
            "OK"
        } else if same_chars(&code, &chars_of("400")) {
            "Bad Request"
        } else if same_chars(&code, &chars_of("404")) {
            "Not Found"
        } else if same_chars(&code, &chars_of("500")) {
            "Internal Server Error"
        } else {
            "Not Found"
        };
        let headers = match headers {
            Some(h) => h,
            None => {
                let mut h = Headers::new();
                h.insert("Content-Type".to_owned(), "text/html".to_owned());
                proof {
                    assert(h.pairs() =~= default_headers());
                }
                h
            },
        };
        proof {
            use_type_invariant(&headers);
        }
        let body = match body {
            Some(b) => b,
            None => String::new(),
        };
        HttpResponse {
            version: "HTTP/1.1".to_owned(),
            status_code: status_code.to_owned(),
            status_text: status_text.to_owned(),
            headers,
            body,
        }
    }

    /// Writes the response, as its wire text, to the end of `sink`.
    pub fn send_response(&self, sink: &mut String)
        ensures
            final(sink)@ == old(sink)@ + wire(self@),
            names_unique(self@.headers),
    {
        let text = self.serialize();
        sink.append(text.as_str());
    }

    /// The wire text of the response.
    pub fn serialize(&self) -> (r: String)
        ensures
            r@ == wire(self@),
            names_unique(self@.headers),
    {
        let mut r = String::new();
        r.append(self.version());
        r.append(" ");
        r.append(self.status_code());
        r.append(" ");
        r.append(self.status_text());
        r.append("\r\n");
        let h = self.headers();
        r.append(h.as_str());
        r.append("\r\n");
        r.append("Content-Length: ");
        let n = self.body.as_str().len();
        push_decimal(&mut r, n);
        r.append("\r\n\r\n");
        r.append(self.body());
        assert(r@ =~= wire(self@));
        r
    }

    /// The protocol version.
    pub fn version(&self) -> (r: &str)
        ensures
            r@ == self@.version,
    {
        self.version.as_str()
    }

    /// The status code.
    pub fn status_code(&self) -> (r: &str)
        ensures
            r@ == self@.status_code,
    {
        self.status_code.as_str()
    }

    /// The reason phrase.
    pub fn status_text(&self) -> (r: &str)
        ensures
            r@ == self@.status_text,
    {
        self.status_text.as_str()
    }

    /// The header lines, in the order of the fields.
    pub fn headers(&self) -> (r: String)
        ensures
            r@ == headers_text(self@.headers),
            names_unique(self@.headers),
    {
        let mut r = String::new();
        let mut i: usize = 0;
        while i < self.headers.len()
            invariant
                i <= self@.headers.len(),
                r@ == headers_text(self@.headers.take(i as int)),
            decreases self@.headers.len() - i,
        {
            let (name, value) = self.headers.field(i);
            r.append(name.as_str());
            r.append(": ");
            r.append(value.as_str());
            r.append("\r\n");
            assert(self@.headers.take(i + 1).drop_last() =~= self@.headers.take(i as int));
            i = i + 1;
        }
        assert(self@.headers.take(i as int) =~= self@.headers);
        r
    }

    /// The body.
    pub fn body(&self) -> (r: &str)
        ensures
            r@ == self@.body,
    {
        self.body.as_str()
    }
}

} // verus!
