use vstd::prelude::*;

use crate::headers::Headers;
use crate::text::{chars_of, sub_chars, contains, contains_exec, find_char, same_chars, split_words, string_of, words};

verus! {

/// The method of a request.
#[derive(Debug, Clone, Copy, PartialEq, Eq, Structural)]
pub enum Method {
    Get,
    Post,
    Uninitialized,
}

/// The method that a token names: only `GET` and `POST` are known.
pub open spec fn method_of(s: Seq<char>) -> Method {
    if s == seq!['G', 'E', 'T'] {
        Method::Get
    } else if s == seq!['P', 'O', 'S', 'T'] {
        Method::Post
    } else {
        Method::Uninitialized
    }
}

impl<'a> From<&'a str> for Method {
    fn from(s: &'a str) -> (r: Method) {
        let v = chars_of(s);
        let get = chars_of("GET");
        let post = chars_of("POST");
        proof {
            reveal_strlit("GET");
            reveal_strlit("POST");
            assert(get@ =~= seq!['G', 'E', 'T']);
            assert(post@ =~= seq!['P', 'O', 'S', 'T']);
        }
        if same_chars(&v, &get) {
            Method::Get
        } else if same_chars(&v, &post) {
            Method::Post
        } else {
            Method::Uninitialized
        }
    }
}

impl<'a> vstd::std_specs::convert::FromSpecImpl<&'a str> for Method {
    open spec fn obeys_from_spec() -> bool {
        true
    }

    open spec fn from_spec(s: &'a str) -> Method {
        method_of(s@)
    }
}

/// `GET` and `POST` name their methods, and every other token names none:
/// reading a method never fails.
pub proof fn lemma_method_total(s: Seq<char>)
    ensures
        s == "GET"@ ==> method_of(s) == Method::Get,
        s == "POST"@ ==> method_of(s) == Method::Post,
        s != "GET"@ && s != "POST"@ ==> method_of(s) == Method::Uninitialized,
{
    reveal_strlit("GET");
    reveal_strlit("POST");
    assert("GET"@ =~= seq!['G', 'E', 'T']);
    assert("POST"@ =~= seq!['P', 'O', 'S', 'T']);
}

/// The protocol version of a request.
#[derive(Debug, Clone, Copy, PartialEq, Eq, Structural)]
pub enum Version {
    V1_1,
    V2_0,
    Uninitialized,
}

/// The version that a token names: only `HTTP/1.1` and `HTTP/2.0` are known.
pub open spec fn version_of(s: Seq<char>) -> Version {
    if s == seq!['H', 'T', 'T', 'P', '/', '1', '.', '1'] {
        Version::V1_1
    } else if s == seq!['H', 'T', 'T', 'P', '/', '2', '.', '0'] {
        Version::V2_0
    } else {
        Version::Uninitialized
    }
}

impl<'a> From<&'a str> for Version {
    fn from(s: &'a str) -> (r: Version) {
        let v = chars_of(s);
        let one = chars_of("HTTP/1.1");
        let two = chars_of("HTTP/2.0");
        proof {
            reveal_strlit("HTTP/1.1");
            reveal_strlit("HTTP/2.0");
            assert(one@ =~= seq!['H', 'T', 'T', 'P', '/', '1', '.', '1']);
            assert(two@ =~= seq!['H', 'T', 'T', 'P', '/', '2', '.', '0']);
        }
        if same_chars(&v, &one) {
            Version::V1_1
        } else if same_chars(&v, &two) {
            Version::V2_0
        } else {
            Version::Uninitialized
        }
    }
}

impl<'a> vstd::std_specs::convert::FromSpecImpl<&'a str> for Version {
    open spec fn obeys_from_spec() -> bool {
        true
    }

    open spec fn from_spec(s: &'a str) -> Version {
        version_of(s@)
    }
}

/// `HTTP/1.1` and `HTTP/2.0` name their versions, and every other token
/// names none: reading a version never fails.
pub proof fn lemma_version_total(s: Seq<char>)
    ensures
        s == "HTTP/1.1"@ ==> version_of(s) == Version::V1_1,
        s == "HTTP/2.0"@ ==> version_of(s) == Version::V2_0,
        s != "HTTP/1.1"@ && s != "HTTP/2.0"@ ==> version_of(s) == Version::Uninitialized,
{
    reveal_strlit("HTTP/1.1");
    reveal_strlit("HTTP/2.0");
    assert("HTTP/1.1"@ =~= seq!['H', 'T', 'T', 'P', '/', '1', '.', '1']);
    assert("HTTP/2.0"@ =~= seq!['H', 'T', 'T', 'P', '/', '2', '.', '0']);
}

/// The target of a request, kept as it came.
#[derive(Debug, PartialEq)]
pub enum Resource {
    Path(String),
}

/// What a request holds, as mathematical values.
pub struct RequestModel {
    pub method: Method,
    pub version: Version,
    pub resource: Seq<char>,
    pub headers: Map<Seq<char>, Seq<char>>,
    pub msg_body: Seq<char>,
}

/// A parsed request.
pub struct HttpRequest {
    pub method: Method,
    pub version: Version,
    pub resource: Resource,
    pub headers: Headers,
    pub msg_body: String,
}

/// Why a request could not be parsed.
#[derive(Debug, Clone, Copy, PartialEq, Eq, Structural)]
pub enum ParseError {
    /// A line that holds `HTTP` has fewer than three words.
    MalformedRequestLine,
}

impl HttpRequest {
    /// The request as mathematical values.
    pub open spec fn view(&self) -> RequestModel {
        RequestModel {
            method: self.method,
            version: self.version,
            resource: match self.resource {
                Resource::Path(p) => p@,
            },
            headers: self.headers@,
            msg_body: self.msg_body@,
        }
    }
}

/// The request that parsing starts from.
pub open spec fn initial_model() -> RequestModel {
    RequestModel {
        method: Method::Uninitialized,
        version: Version::V1_1,
        resource: Seq::empty(),
        headers: Map::empty(),
        msg_body: Seq::empty(),
    }
}

/// The text that marks the request line.
pub open spec fn http_mark() -> Seq<char> {
    seq!['H', 'T', 'T', 'P']
}

/// The effect of one line on the request read so far; `None` where the
/// line holds `HTTP` but has fewer than three words.
pub open spec fn apply_line(m: RequestModel, line: Seq<char>) -> Option<RequestModel> {
    if contains(line, http_mark()) {
        let w = words(line);
        if w.len() < 3 {
            None
        } else {
            Some(
                RequestModel {
                    method: method_of(w[0]),
                    resource: w[1],
                    version: version_of(w[2]),
                    ..m
                },
            )
        }
    } else if exists|i: int| 0 <= i < line.len() && line[i] == ':' {
        let i = choose|i: int|
            0 <= i < line.len() && line[i] == ':' && forall|k: int| 0 <= k < i ==> line[k] != ':';
        Some(
            RequestModel {
                headers: m.headers.insert(line.take(i), line.skip(i + 1)),
                ..m
            },
        )
    } else if line.len() == 0 {
        Some(m)
    } else {
        Some(RequestModel { msg_body: line, ..m })
    }
}

/// The effect of the lines `ls`, in order.
pub open spec fn apply_lines(m: Option<RequestModel>, ls: Seq<Seq<char>>) -> Option<RequestModel>
    decreases ls.len(),
{
    if ls.len() == 0 {
        m
    } else {
        match m {
            Some(r) => apply_lines(apply_line(r, ls[0]), ls.drop_first()),
            None => None,
        }
    }
}

/// A line without the `\r` that ends it, if any.
pub open spec fn strip_cr(l: Seq<char>) -> Seq<char> {
    if l.len() > 0 && l.last() == '\r' {
        l.drop_last()
    } else {
        l
    }
}

/// The lines of `s[start..]`, scanned up to `i`: a line ends at `\n`, and
/// then loses one `\r` at its end; a last line without `\n` is kept whole,
/// and nothing follows a final `\n`.
pub open spec fn lines_from(s: Seq<char>, i: int, start: int) -> Seq<Seq<char>>
    decreases s.len() - i,
{
    if i >= s.len() {
        if start < s.len() {
            seq![s.subrange(start, s.len() as int)]
        } else {
            seq![]
        }
    } else if s[i] == '\n' {
        seq![strip_cr(s.subrange(start, i))] + lines_from(s, i + 1, i + 1)
    } else {
        lines_from(s, i + 1, start)
    }
}

/// The lines of `s`, as `lines_from` reads them from the start.
pub open spec fn lines(s: Seq<char>) -> Seq<Seq<char>> {
    lines_from(s, 0, 0)
}

/// The request that the text `s` holds, or `None` where a line that holds
/// `HTTP` has fewer than three words.
pub open spec fn parse_spec(s: Seq<char>) -> Option<RequestModel> {
    apply_lines(Some(initial_model()), lines(s))
}

/// Once a line has failed, the lines after it change nothing.
pub proof fn lemma_apply_lines_none(ls: Seq<Seq<char>>)
    ensures
        apply_lines(None, ls) is None,
    decreases ls.len(),
{
}

/// The method, target and version that the first three words of a request
/// line give; `None` where it has fewer words.
fn process_request_line(line: &Vec<char>) -> (r: Option<(Method, Resource, Version)>)
    ensures
        words(line@).len() < 3 <==> r is None,
        r matches Some(t) ==> t.0 == method_of(words(line@)[0]) && (match t.1 {
            Resource::Path(p) => p@,
        }) == words(line@)[1] && t.2 == version_of(words(line@)[2]),
{
    let w = split_words(line);
    assert(crate::text::views(w@).len() == w@.len());
    if w.len() < 3 {
        return None;
    }
    assert(w@[0]@ == words(line@)[0]);
    assert(w@[1]@ == words(line@)[1]);
    assert(w@[2]@ == words(line@)[2]);
    let method = Method::from(w[0].as_str());
    let version = Version::from(w[2].as_str());
    Some((method, Resource::Path(w[1].clone()), version))
}

/// The name and value of a header line, split at the `:` at `colon`.
fn process_header_line(line: &Vec<char>, colon: usize) -> (r: (String, String))
    requires
        colon < line.len(),
    ensures
        r.0@ == line@.take(colon as int),
        r.1@ == line@.skip(colon + 1),
{
    let name = string_of(line, 0, colon);
    let value = string_of(line, colon + 1, line.len());
    assert(line@.take(colon as int) =~= line@.subrange(0, colon as int));
    assert(line@.skip(colon + 1) =~= line@.subrange(colon + 1, line.len() as int));
    (name, value)
}

impl HttpRequest {
    /// Applies one line to the request read so far; false where it is a
    /// request line with fewer than three words.
    fn apply(&mut self, line: &Vec<char>) -> (ok: bool)
        ensures
            ok == apply_line(old(self)@, line@) is Some,
            ok ==> Some(final(self)@) == apply_line(old(self)@, line@),
    {
        let mark = chars_of("HTTP");
        proof {
            reveal_strlit("HTTP");
            assert(mark@ =~= http_mark());
        }
        if contains_exec(line, &mark) {
            match process_request_line(line) {
                None => false,
                Some((method, resource, version)) => {
                    self.method = method;
                    self.resource = resource;
                    self.version = version;
                    true
                },
            }
        } else {
            let colon = find_char(line, ':', 0);
            if colon < line.len() {
                let ghost i = choose|i: int|
                    0 <= i < line@.len() && line@[i] == ':' && forall|k: int|
                        0 <= k < i ==> line@[k] != ':';
                assert(i == colon as int) by {
                    if i < colon as int {
                        assert(line@[i] != ':');
                    }
                    if (colon as int) < i {
                        assert(line@[colon as int] != ':');
                    }
                }
                let (name, value) = process_header_line(line, colon);
                self.headers.insert(name, value);
                true
            } else {
                if line.len() > 0 {
                    self.msg_body = string_of(line, 0, line.len());
                    assert(line@.subrange(0, line@.len() as int) =~= line@);
                }
                true
            }
        }
    }

    /// Reads a request from its text, line by line. A line that holds
    /// `HTTP` is the request line: its first three words give the method,
    /// the target and the version. Any other line with a `:` is a header,
    /// split at the first `:` with nothing trimmed. An empty line is
    /// skipped, and any other line becomes the body, the last such line
    /// winning.
    pub fn parse(raw: &str) -> (r: Result<HttpRequest, ParseError>)
        ensures
            parse_spec(raw@) is None <==> r is Err,
            r matches Ok(q) ==> parse_spec(raw@) == Some(q@),
            r matches Err(e) ==> e == ParseError::MalformedRequestLine,
    {
        let s = chars_of(raw);
        let mut req = HttpRequest {
            method: Method::Uninitialized,
            version: Version::V1_1,
            resource: Resource::Path(String::new()),
            headers: Headers::new(),
            msg_body: String::new(),
        };
        let mut start: usize = 0;
        let mut i: usize = 0;
        while i < s.len()
            invariant
                i <= s.len(),
                start <= i,
                parse_spec(raw@) == apply_lines(Some(req@), lines_from(s@, i as int, start as int)),
            decreases s.len() - i,
        {
            proof {
                if s@[i as int] != '\n' {
                    assert(lines_from(s@, i as int, start as int) == lines_from(s@, i + 1, start as int));
                }
            }
            if s[i] == '\n' {
                let end: usize = if i > start && s[i - 1] == '\r' {
                    i - 1
                } else {
                    i
                };
                let line = sub_chars(&s, start, end);
                let ghost rest = lines_from(s@, i + 1, i + 1);
                let ghost l = strip_cr(s@.subrange(start as int, i as int));
                proof {
                    assert(line@ =~= l);
                    let ls = seq![l] + rest;
                    assert(lines_from(s@, i as int, start as int) == ls);
                    assert(ls[0] == l);
                    assert(ls.drop_first() =~= rest);
                }
                let ghost before = req@;
                if !req.apply(&line) {
                    proof {
                        lemma_apply_lines_none(rest);
                    }
                    return Err(ParseError::MalformedRequestLine);
                }
                i = i + 1;
                start = i;
            } else {
                i = i + 1;
            }
        }
        if start < s.len() {
            let line = sub_chars(&s, start, s.len());
            let ghost l = s@.subrange(start as int, s@.len() as int);
            proof {
                assert(lines_from(s@, i as int, start as int) == seq![l]);
                assert(seq![l].drop_first() =~= Seq::<Seq<char>>::empty());
            }
            let ghost before = req@;
            let ok = req.apply(&line);
            proof {
                assert(line@ =~= l);
                let e = Seq::<Seq<char>>::empty();
                assert(apply_lines(Some(before), seq![l]) == apply_lines(apply_line(before, l), e));
                assert(apply_lines(apply_line(before, l), e) == apply_line(before, l));
            }
            if !ok {
                return Err(ParseError::MalformedRequestLine);
            }
        } else {
            assert(lines_from(s@, i as int, start as int) == Seq::<Seq<char>>::empty());
        }
        Ok(req)
    }
}

} // verus!
