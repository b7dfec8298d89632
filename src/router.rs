use vstd::prelude::*;

use crate::httpresponse::{wire, HttpResponse};
use crate::httprequest::{HttpRequest, Method, RequestModel, Resource};
use crate::text::{chars_of, find_char, first_index, lemma_first_index, same_chars, sub_chars};

verus! {

/// The kinds of handler that a request can be given to.
#[derive(Debug, Clone, Copy, PartialEq, Eq, Structural)]
pub enum Handler {
    /// Answers requests under `/api`.
    WebService,
    /// Serves pages.
    StaticPage,
    /// Answers everything else with a 404 page.
    PageNotFound,
}

/// The piece of `p` between its first `/` and the next `/` (or its end);
/// `None` where `p` has no `/`.
pub open spec fn second_segment(p: Seq<char>) -> Option<Seq<char>> {
    match first_index(p, '/') {
        None => None,
        Some(i) => {
            let rest = p.skip(i + 1);
            match first_index(rest, '/') {
                None => Some(rest),
                Some(j) => Some(rest.take(j)),
            }
        },
    }
}

/// The handler for a request: a `GET` whose path begins with the segment
/// `api` goes to the web service, any other `GET` to the pages, and every
/// other method to the 404 page.
pub open spec fn route_of(m: RequestModel) -> Handler {
    if m.method == Method::Get {
        if second_segment(m.resource) == Some("api"@) {
            Handler::WebService
        } else {
            Handler::StaticPage
        }
    } else {
        Handler::PageNotFound
    }
}

/// A request whose method is not `GET` goes to the 404 page, whatever its
/// path.
pub proof fn lemma_non_get_not_found(m: RequestModel)
    requires
        m.method != Method::Get,
    ensures
        route_of(m) == Handler::PageNotFound,
{
}

/// Routing the same request twice picks the same handler both times; and
/// where that handler keeps no state, so that its two responses hold the
/// same, the two wire texts are the same.
pub proof fn lemma_route_repeatable(a: HttpRequest, b: HttpRequest, ra: HttpResponse, rb: HttpResponse)
    requires
        a@ == b@,
        ra@ == rb@,
    ensures
        route_of(a@) == route_of(b@),
        wire(ra@) == wire(rb@),
{
}

/// Chooses the handler for requests.
pub struct Router;

impl Router {
    /// The handler that `req` goes to.
    pub fn route(req: &HttpRequest) -> (r: Handler)
        ensures
            r == route_of(req@),
    {
        match req.method {
            Method::Get => {
                let Resource::Path(path) = &req.resource;
                let p = chars_of(path.as_str());
                match segment_after_slash(&p) {
                    None => Handler::StaticPage,
                    Some(seg) => {
                        if same_chars(&seg, &chars_of("api")) {
                            Handler::WebService
                        } else {
                            Handler::StaticPage
                        }
                    },
                }
            },
            _ => Handler::PageNotFound,
        }
    }
}

/// The second piece of `p` split at `/`, if it has one.
fn segment_after_slash(p: &Vec<char>) -> (r: Option<Vec<char>>)
    ensures
        r is None <==> second_segment(p@) is None,
        r matches Some(v) ==> second_segment(p@) == Some(v@),
{
    let i = find_char(p, '/', 0);
    proof {
        lemma_first_index(p@, '/', i as int);
    }
    if i == p.len() {
        return None;
    }
    let j = find_char(p, '/', i + 1);
    let seg = sub_chars(p, i + 1, j);
    proof {
        let rest = p@.skip(i + 1);
        let k = j - (i + 1);
        assert forall|m: int| 0 <= m < k implies rest[m] != '/' by {
            assert(rest[m] == p@[i + 1 + m]);
        }
        if j < p.len() {
            assert(rest[k] == p@[j as int]);
        }
        lemma_first_index(rest, '/', k);
        if j < p.len() {
            assert(seg@ =~= rest.take(k));
        } else {
            assert(seg@ =~= rest);
        }
    }
    Some(seg)
}

} // verus!
