//! The lookup service: from a request to its response.
//!
//! A request is a method and a target. The target is resolved against the
//! address of the service, which gives a path and the pairs of the query.
//! `GET /` answers with the name of the service, `GET /lookup?q=<term>` with
//! the strokes that produce the term. Nothing is kept between requests.

use vstd::prelude::*;
use crate::dictionary::{Reverse, Stroke};
use crate::index_set::{borrowed_texts, lookup_texts, IndexSet};
use crate::text::{relate, Relation};

verus! {

/// How a request fared.
#[derive(Clone, Copy, Debug, PartialEq, Eq, Structural)]
pub enum Status {
    /// The request was answered. An answer without strokes is one too.
    Success,
    /// The request cannot be understood: the client is at fault.
    BadRequest,
    /// The request is for something that the service does not have.
    NotFound,
}

/// The number that stands for a status in an HTTP response.
pub open spec fn code_of(status: Status) -> u16 {
    match status {
        Status::Success => 200,
        Status::BadRequest => 400,
        Status::NotFound => 404,
    }
}

impl Status {
    /// The number that stands for the status in an HTTP response.
    pub fn code(self) -> (code: u16)
        ensures
            code == code_of(self),
    {
        match self {
            Status::Success => 200,
            Status::BadRequest => 400,
            Status::NotFound => 404,
        }
    }
}

/// The target of a request, resolved: its path and the pairs of its query,
/// each a name and a value, in the order of the query.
#[derive(Debug)]
pub struct Target {
    pub path: String,
    pub query: Vec<(String, String)>,
}

/// The texts of the pairs of a query, in their order.
pub open spec fn query_texts(query: Seq<(String, String)>) -> Seq<(Seq<char>, Seq<char>)> {
    Seq::new(query.len(), |i: int| (query[i].0@, query[i].1@))
}

impl View for Target {
    type V = (Seq<char>, Seq<(Seq<char>, Seq<char>)>);

    open spec fn view(&self) -> (Seq<char>, Seq<(Seq<char>, Seq<char>)>) {
        (self.path@, query_texts(self.query@))
    }
}

/// The answer to a request: a status and a body.
#[derive(Debug)]
pub struct Response {
    pub status: Status,
    pub body: String,
}

impl View for Response {
    type V = (Status, Seq<char>);

    open spec fn view(&self) -> (Status, Seq<char>) {
        (self.status, self.body@)
    }
}

/// What `Url::join` makes of `target` on the URL that `Url::parse` makes of
/// `base`: the path of the joined URL and the pairs that `Url::query_pairs`
/// finds in it, or nothing where either call fails.
pub uninterp spec fn resolved_target(base: Seq<char>, target: Seq<char>) -> Option<(Seq<char>, Seq<(Seq<char>, Seq<char>)>)>;

/// Calls `Url::join` with `target`. The URL that receives the call is made
/// of `base` by `Url::parse`, and the joined URL is handed out as a target:
/// its path (`Url::path`) and the pairs of its query (`Url::query_pairs`),
/// decoded. The contract claims no more than that the outcome depends on
/// the two texts alone: it is `resolved_target` of them.
#[verifier::external_body]
fn resolve(base: &str, target: &str) -> (resolved: Option<Target>)
    ensures
        match resolved {
            Some(found) => resolved_target(base@, target@) == Some(found@),
            None => resolved_target(base@, target@) is None,
        },
{
    let url = url::Url::parse(base).ok()?.join(target).ok()?;
    Some(Target { path: url.path().to_owned(), query: url.query_pairs().into_owned().collect() })
}

/// What `{:?}` prints for a list of strokes with these texts.
pub uninterp spec fn debug_text(strokes: Seq<Seq<char>>) -> Seq<char>;

/// Formats a list of strokes with `{:?}`, the form in which the service
/// sends it. The contract claims no more than that the text depends on the
/// texts of the strokes alone: it is `debug_text` of them.
#[verifier::external_body]
fn print_strokes(strokes: &Vec<&Stroke>) -> (text: String)
    ensures
        text@ == debug_text(borrowed_texts(strokes@)),
{
    format!("{:?}", strokes)
}

/// The term that a query asks for: the value of its first pair named `q`.
pub open spec fn query_term(query: Seq<(Seq<char>, Seq<char>)>) -> Option<Seq<char>>
    decreases query.len(),
{
    if query.len() == 0 {
        None
    } else if query[0].0 == "q"@ {
        Some(query[0].1)
    } else {
        query_term(query.drop_first())
    }
}

/// The answer to a lookup with this query: the strokes of the term, or a
/// refusal where the query names no term.
pub open spec fn lookup_reply(
    dictionaries: Seq<Reverse>,
    query: Seq<(Seq<char>, Seq<char>)>,
) -> (Status, Seq<char>) {
    match query_term(query) {
        Some(term) => (Status::Success, debug_text(lookup_texts(dictionaries, term))),
        None => (Status::BadRequest, "Bad Request"@),
    }
}

/// The answer to a request, given what its target resolved to.
pub open spec fn reply(
    dictionaries: Seq<Reverse>,
    is_get: bool,
    target: Option<(Seq<char>, Seq<(Seq<char>, Seq<char>)>)>,
) -> (Status, Seq<char>) {
    match target {
        None => (Status::BadRequest, "Bad Request"@),
        Some((path, query)) => {
            if is_get && path == "/"@ {
                (Status::Success, "steno-lookup"@)
            } else if is_get && path == "/lookup"@ {
                lookup_reply(dictionaries, query)
            } else {
                (Status::NotFound, "Not Found"@)
            }
        },
    }
}

/// The URL of the service that listens at `address`.
pub fn base_url(address: &str) -> (url: String)
    ensures
        url@ == "https://"@ + address@,
{
    let mut url = "https://".to_owned();
    url.append(address);
    url
}

/// The value of the first pair of the query that is named `q`.
fn find_term(query: &Vec<(String, String)>) -> (term: Option<&String>)
    ensures
        match term {
            Some(value) => query_term(query_texts(query@)) == Some(value@),
            None => query_term(query_texts(query@)) is None,
        },
{
    let ghost pairs = query_texts(query@);
    let mut i: usize = 0;
    assert(pairs.skip(0) =~= pairs);
    while i < query.len()
        invariant
            i <= query.len(),
            pairs == query_texts(query@),
            query_term(pairs) == query_term(pairs.skip(i as int)),
        decreases query.len() - i,
    {
        assert(pairs.skip(i as int).drop_first() =~= pairs.skip(i + 1));
        match relate(query[i].0.as_str(), "q") {
            Relation::Same => {
                return Some(&query[i].1);
            },
            _ => {},
        }
        i = i + 1;
    }
    None
}

/// Answers a request that no route matches.
pub fn handle_not_found() -> (response: Response)
    ensures
        response@ == (Status::NotFound, "Not Found"@),
{
    Response { status: Status::NotFound, body: "Not Found".to_owned() }
}

/// Answers a lookup: with the strokes that produce the term of the query,
/// which may be none, or with a refusal where the query names no term. The
/// dictionaries are consulted only where there is a term.
pub fn handle_lookup(dictionaries: &IndexSet, query: &Vec<(String, String)>) -> (response: Response)
    ensures
        response@ == lookup_reply(dictionaries@, query_texts(query@)),
{
    match find_term(query) {
        Some(term) => {
            let strokes = dictionaries.lookup(term.as_str());
            Response { status: Status::Success, body: print_strokes(&strokes) }
        },
        None => Response { status: Status::BadRequest, body: "Bad Request".to_owned() },
    }
}

/// Answers a request whose target has been resolved, or could not be.
pub fn route(dictionaries: &IndexSet, is_get: bool, target: Option<Target>) -> (response: Response)
    ensures
        response@ == reply(
            dictionaries@,
            is_get,
            match target {
                Some(found) => Some(found@),
                None => None,
            },
        ),
{
    match target {
        None => Response { status: Status::BadRequest, body: "Bad Request".to_owned() },
        Some(found) => {
            if is_get && relate(found.path.as_str(), "/") == Relation::Same {
                Response { status: Status::Success, body: "steno-lookup".to_owned() }
            } else if is_get && relate(found.path.as_str(), "/lookup") == Relation::Same {
                handle_lookup(dictionaries, &found.query)
            } else {
                handle_not_found()
            }
        },
    }
}

/// Answers a request to the service at `base`: resolves its target and
/// routes it.
pub fn handle_request(
    dictionaries: &IndexSet,
    base: &str,
    is_get: bool,
    target: &str,
) -> (response: Response)
    ensures
        response@ == reply(dictionaries@, is_get, resolved_target(base@, target@)),
{
    route(dictionaries, is_get, resolve(base, target))
}

} // verus!
