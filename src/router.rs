//! Which resource a request path names, and the method of a request.
use vstd::prelude::*;

verus! {

/// The request methods that the service tells apart.
#[derive(Clone, Copy, Debug, PartialEq, Eq, Structural)]
pub enum Method {
    Get,
    Post,
    Put,
    Delete,
    Other,
}

/// The resource that a path names.
#[derive(Clone, Copy, Debug, PartialEq, Eq, Structural)]
pub enum Route {
    /// The index page.
    Index,
    /// The collection of users.
    Users,
    /// One user, by identifier, or the collection itself when none is given.
    User(Option<usize>),
    /// No resource.
    Unmatched,
}

/// `GET`
pub open spec fn get_token() -> Seq<u8> {
    seq![71u8, 69u8, 84u8]
}

/// `POST`
pub open spec fn post_token() -> Seq<u8> {
    seq![80u8, 79u8, 83u8, 84u8]
}

/// `PUT`
pub open spec fn put_token() -> Seq<u8> {
    seq![80u8, 85u8, 84u8]
}

/// `DELETE`
pub open spec fn delete_token() -> Seq<u8> {
    seq![68u8, 69u8, 76u8, 69u8, 84u8, 69u8]
}

/// The method that a request line's method token names; tokens are
/// case-sensitive.
pub open spec fn method_of(token: Seq<u8>) -> Method {
    if token == get_token() {
        Method::Get
    } else if token == post_token() {
        Method::Post
    } else if token == put_token() {
        Method::Put
    } else if token == delete_token() {
        Method::Delete
    } else {
        Method::Other
    }
}

/// `/`
pub open spec fn root_path() -> Seq<u8> {
    seq![47u8]
}

/// `/index.htm`
pub open spec fn index_htm_path() -> Seq<u8> {
    seq![47u8, 105u8, 110u8, 100u8, 101u8, 120u8, 46u8, 104u8, 116u8, 109u8]
}

/// `/index.html`
pub open spec fn index_html_path() -> Seq<u8> {
    index_htm_path().push(108u8)
}

/// `/users`
pub open spec fn users_path() -> Seq<u8> {
    seq![47u8, 117u8, 115u8, 101u8, 114u8, 115u8]
}

/// `/user/`
pub open spec fn user_prefix() -> Seq<u8> {
    seq![47u8, 117u8, 115u8, 101u8, 114u8, 47u8]
}

pub open spec fn is_digit(b: u8) -> bool {
    48 <= b <= 57
}

pub open spec fn all_digits(s: Seq<u8>) -> bool {
    forall|i: int| 0 <= i < s.len() ==> is_digit(#[trigger] s[i])
}

/// The number that the decimal digits `s` write.
pub open spec fn digits_value(s: Seq<u8>) -> nat
    decreases s.len(),
{
    if s.len() == 0 {
        0
    } else {
        digits_value(s.drop_last()) * 10 + (s.last() - 48) as nat
    }
}

/// What follows `/user/`, without one trailing slash.
pub open spec fn id_segment(rest: Seq<u8>) -> Seq<u8> {
    if rest.len() > 0 && rest.last() == 47u8 {
        rest.drop_last()
    } else {
        rest
    }
}

/// The route of what follows `/user/`: nothing, or an identifier that fits a
/// `usize`, with an optional trailing slash. Anything else matches no route.
pub open spec fn user_route(rest: Seq<u8>) -> Route {
    let d = id_segment(rest);
    if rest.len() == 0 {
        Route::User(None)
    } else if d.len() > 0 && all_digits(d) && digits_value(d) <= usize::MAX {
        Route::User(Some(digits_value(d) as usize))
    } else {
        Route::Unmatched
    }
}

/// The route of path `p`; the first pattern that matches wins.
pub open spec fn route_of(p: Seq<u8>) -> Route {
    if p == root_path() || p == index_htm_path() || p == index_html_path() {
        Route::Index
    } else if p == users_path() || p == users_path().push(47u8) {
        Route::Users
    } else if p.len() >= 6 && p.subrange(0, 6) == user_prefix() {
        user_route(p.subrange(6, p.len() as int))
    } else {
        Route::Unmatched
    }
}

/// Whether `p` starts with `lit`.
fn has_prefix(p: &[u8], lit: &[u8]) -> (r: bool)
    ensures
        r == (lit@.len() <= p@.len() && p@.subrange(0, lit@.len() as int) == lit@),
{
    if lit.len() > p.len() {
        return false;
    }
    let mut i: usize = 0;
    while i < lit.len()
        invariant
            lit@.len() <= p@.len(),
            i <= lit@.len(),
            forall|j: int| 0 <= j < i ==> p@[j] == lit@[j],
        decreases lit.len() - i,
    {
        if p[i] != lit[i] {
            assert(p@.subrange(0, lit@.len() as int)[i as int] != lit@[i as int]);
            return false;
        }
        i = i + 1;
    }
    assert(p@.subrange(0, lit@.len() as int) =~= lit@);
    true
}

/// Whether `p` is `lit`.
fn same(p: &[u8], lit: &[u8]) -> (r: bool)
    ensures
        r == (p@ == lit@),
{
    let r = p.len() == lit.len() && has_prefix(p, lit);
    proof {
        if p@.len() == lit@.len() {
            assert(p@.subrange(0, lit@.len() as int) =~= p@);
        }
    }
    r
}

/// The method that `token` names.
pub fn parse_method(token: &[u8]) -> (r: Method)
    ensures
        r == method_of(token@),
{
    let get = vec![71u8, 69u8, 84u8];
    let post = vec![80u8, 79u8, 83u8, 84u8];
    let put = vec![80u8, 85u8, 84u8];
    let delete = vec![68u8, 69u8, 76u8, 69u8, 84u8, 69u8];
    assert(get@ =~= get_token());
    assert(post@ =~= post_token());
    assert(put@ =~= put_token());
    assert(delete@ =~= delete_token());
    if same(token, get.as_slice()) {
        Method::Get
    } else if same(token, post.as_slice()) {
        Method::Post
    } else if same(token, put.as_slice()) {
        Method::Put
    } else if same(token, delete.as_slice()) {
        Method::Delete
    } else {
        Method::Other
    }
}

/// Digits never write a smaller number when more of them follow.
proof fn lemma_digits_value_grows(s: Seq<u8>, i: int)
    requires
        0 <= i <= s.len(),
    ensures
        digits_value(s.subrange(0, i)) <= digits_value(s),
    decreases s.len() - i,
{
    if i < s.len() {
        lemma_digits_value_grows(s, i + 1);
        assert(s.subrange(0, i + 1).drop_last() =~= s.subrange(0, i));
    } else {
        assert(s.subrange(0, i) =~= s);
    }
}

/// The identifier written by the digits of `p` from `start` to `end`, where it
/// is one digit or more and fits a `usize`.
fn parse_id(p: &[u8], start: usize, end: usize) -> (r: Option<usize>)
    requires
        start <= end <= p@.len(),
    ensures
        ({
            let d = p@.subrange(start as int, end as int);
            r == if d.len() > 0 && all_digits(d) && digits_value(d) <= usize::MAX {
                Some(digits_value(d) as usize)
            } else {
                None::<usize>
            }
        }),
{
    let ghost d = p@.subrange(start as int, end as int);
    if start == end {
        return None;
    }
    let mut value: usize = 0;
    let mut i: usize = start;
    while i < end
        invariant
            start <= i <= end <= p@.len(),
            d == p@.subrange(start as int, end as int),
            all_digits(p@.subrange(start as int, i as int)),
            value as nat == digits_value(p@.subrange(start as int, i as int)),
        decreases end - i,
    {
        let b = p[i];
        let ghost cur = p@.subrange(start as int, i + 1);
        assert(cur.drop_last() =~= p@.subrange(start as int, i as int));
        if b < 48u8 || b > 57u8 {
            assert(d[i - start] == b);
            return None;
        }
        let digit = (b - 48u8) as usize;
        let next = match value.checked_mul(10) {
            Some(v) => v.checked_add(digit),
            None => None,
        };
        match next {
            Some(v) => {
                value = v;
            },
            None => {
                proof {
                    assert(d.subrange(0, i + 1 - start) =~= cur);
                    lemma_digits_value_grows(d, i + 1 - start);
                }
                return None;
            },
        }
        i = i + 1;
    }
    Some(value)
}

/// The route of `path`.
pub fn route(path: &[u8]) -> (r: Route)
    ensures
        r == route_of(path@),
{
    let root = vec![47u8];
    let index_htm = vec![47u8, 105u8, 110u8, 100u8, 101u8, 120u8, 46u8, 104u8, 116u8, 109u8];
    let index_html = vec![47u8, 105u8, 110u8, 100u8, 101u8, 120u8, 46u8, 104u8, 116u8, 109u8, 108u8];
    let users = vec![47u8, 117u8, 115u8, 101u8, 114u8, 115u8];
    let users_slash = vec![47u8, 117u8, 115u8, 101u8, 114u8, 115u8, 47u8];
    let user = vec![47u8, 117u8, 115u8, 101u8, 114u8, 47u8];
    assert(root@ =~= root_path());
    assert(index_htm@ =~= index_htm_path());
    assert(index_html@ =~= index_html_path());
    assert(users@ =~= users_path());
    assert(users_slash@ =~= users_path().push(47u8));
    assert(user@ =~= user_prefix());
    if same(path, root.as_slice()) || same(path, index_htm.as_slice()) || same(path, index_html.as_slice()) {
        Route::Index
    } else if same(path, users.as_slice()) || same(path, users_slash.as_slice()) {
        Route::Users
    } else if has_prefix(path, user.as_slice()) {
        let n = path.len();
        let ghost rest = path@.subrange(6, n as int);
        if n == 6 {
            return Route::User(None);
        }
        let end = if path[n - 1] == 47u8 { n - 1 } else { n };
        proof {
            assert(id_segment(rest) =~= path@.subrange(6, end as int));
        }
        match parse_id(path, 6, end) {
            Some(id) => Route::User(Some(id)),
            None => Route::Unmatched,
        }
    } else {
        Route::Unmatched
    }
}

} // verus!
