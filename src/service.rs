//! The dispatcher: a method and a path become one arena operation and a
//! status with a body.
use vstd::prelude::*;
use vstd::string::{StrSliceExecFns, StringSliceAdditionalSpecFns};
use crate::arena::{lowest_free, ordered_ids, Arena};
use crate::router::{route, route_of, Method, Route};
use crate::store::{record_text, UserRecord};
use crate::text::{decimal, decimal_bytes, join_ids, joined};

verus! {

/// The page served at the index path.
pub const INDEX: &'static str = "
<!doctype html>
<html>
    <head>
        <title>hyper microservice</title>
    </head>
    <body>
        <h1>Microservices with Hyper</h1>
    </body>
</html>
";

/// How a request ended.
#[derive(Clone, Copy, Debug, PartialEq, Eq, Structural)]
pub enum Status {
    Success,
    BadRequest,
    NotFound,
    MethodNotAllowed,
}

impl Status {
    pub open spec fn spec_code(self) -> u16 {
        match self {
            Status::Success => 200,
            Status::BadRequest => 400,
            Status::NotFound => 404,
            Status::MethodNotAllowed => 405,
        }
    }

    /// The HTTP status code.
    pub fn code(&self) -> (r: u16)
        ensures
            r == self.spec_code(),
    {
        match self {
            Status::Success => 200,
            Status::BadRequest => 400,
            Status::NotFound => 404,
            Status::MethodNotAllowed => 405,
        }
    }
}

/// A status and a body.
pub struct Response {
    pub status: Status,
    pub body: Vec<u8>,
}

/// The status, the body and the occupied identifiers afterwards, for a
/// request with method `m` and path `path` to an arena holding `ids`.
pub open spec fn outcome(m: Method, path: Seq<u8>, ids: Set<usize>) -> (Status, Seq<u8>, Set<usize>) {
    let empty = Seq::<u8>::empty();
    match route_of(path) {
        Route::Index => if m == Method::Get {
            (Status::Success, INDEX.spec_bytes(), ids)
        } else {
            (Status::MethodNotAllowed, empty, ids)
        },
        Route::Users => if m == Method::Get {
            (Status::Success, joined(ordered_ids(ids)), ids)
        } else {
            (Status::MethodNotAllowed, empty, ids)
        },
        Route::User(None) => if m == Method::Post {
            (Status::Success, decimal(lowest_free(ids) as nat), ids.insert(lowest_free(ids)))
        } else {
            (Status::MethodNotAllowed, empty, ids)
        },
        Route::User(Some(id)) => match m {
            Method::Post => (Status::BadRequest, empty, ids),
            Method::Get => if ids.contains(id) {
                (Status::Success, record_text(), ids)
            } else {
                (Status::NotFound, empty, ids)
            },
            Method::Put => if ids.contains(id) {
                (Status::Success, empty, ids)
            } else {
                (Status::NotFound, empty, ids)
            },
            Method::Delete => if ids.contains(id) {
                (Status::Success, empty, ids.remove(id))
            } else {
                (Status::NotFound, empty, ids)
            },
            Method::Other => (Status::MethodNotAllowed, empty, ids),
        },
        Route::Unmatched => (Status::NotFound, empty, ids),
    }
}

fn reply(status: Status, body: Vec<u8>) -> (r: Response)
    ensures
        r.status == status,
        r.body@ == body@,
{
    Response { status, body }
}

fn empty_reply(status: Status) -> (r: Response)
    ensures
        r.status == status,
        r.body@ == Seq::<u8>::empty(),
{
    Response { status, body: Vec::new() }
}

/// Serves one request against `arena`.
pub fn handle(arena: &mut Arena, method: Method, path: &[u8]) -> (r: Response)
    requires
        old(arena).wf(),
        old(arena)@.len() < usize::MAX,
    ensures
        final(arena).wf(),
        (r.status, r.body@, final(arena)@) == outcome(method, path@, old(arena)@),
{
    match route(path) {
        Route::Index => {
            if method == Method::Get {
                reply(Status::Success, INDEX.as_bytes_vec())
            } else {
                empty_reply(Status::MethodNotAllowed)
            }
        },
        Route::Users => {
            if method == Method::Get {
                let ids = arena.enumerate();
                reply(Status::Success, join_ids(&ids))
            } else {
                empty_reply(Status::MethodNotAllowed)
            }
        },
        Route::User(None) => {
            if method == Method::Post {
                let id = arena.insert(UserRecord);
                reply(Status::Success, decimal_bytes(id))
            } else {
                empty_reply(Status::MethodNotAllowed)
            }
        },
        Route::User(Some(id)) => match method {
            Method::Post => empty_reply(Status::BadRequest),
            Method::Get => match arena.get(id) {
                Some(record) => reply(Status::Success, record.to_text()),
                None => empty_reply(Status::NotFound),
            },
            Method::Put => {
                if arena.update(id, UserRecord) {
                    empty_reply(Status::Success)
                } else {
                    empty_reply(Status::NotFound)
                }
            },
            Method::Delete => match arena.remove(id) {
                Some(_) => empty_reply(Status::Success),
                None => empty_reply(Status::NotFound),
            },
            Method::Other => empty_reply(Status::MethodNotAllowed),
        },
        Route::Unmatched => empty_reply(Status::NotFound),
    }
}

} // verus!
