use crate::parser::{ascii, matches_at, occurs_at, RawIter};
use crate::request::Error;
use vstd::prelude::*;
use crate::text::ascii_text;

verus! {

/// The request methods of HTTP/1.1.
#[derive(PartialEq, Eq, Copy, Clone, Debug)]
pub enum Method {
    Get,
    Head,
    Post,
    Put,
    Delete,
    Connect,
    Options,
    Trace,
    Patch,
}

/// The methods in the order in which the parser tries them.
pub open spec fn method_order() -> Seq<Method> {
    seq![
        Method::Get,
        Method::Head,
        Method::Post,
        Method::Put,
        Method::Delete,
        Method::Connect,
        Method::Options,
        Method::Trace,
        Method::Patch,
    ]
}

/// The characters of a method's wire token.
pub open spec fn token_chars(m: Method) -> Seq<char> {
    match m {
        Method::Get => seq!['G', 'E', 'T'],
        Method::Head => seq!['H', 'E', 'A', 'D'],
        Method::Post => seq!['P', 'O', 'S', 'T'],
        Method::Put => seq!['P', 'U', 'T'],
        Method::Delete => seq!['D', 'E', 'L', 'E', 'T', 'E'],
        Method::Connect => seq!['C', 'O', 'N', 'N', 'E', 'C', 'T'],
        Method::Options => seq!['O', 'P', 'T', 'I', 'O', 'N', 'S'],
        Method::Trace => seq!['T', 'R', 'A', 'C', 'E'],
        Method::Patch => seq!['P', 'A', 'T', 'C', 'H'],
    }
}

/// The wire token of a method.
pub open spec fn token(m: Method) -> Seq<u8> {
    ascii(token_chars(m))
}

/// Whether `d` begins with the token of `m`.
pub open spec fn starts_with_token(d: Seq<u8>, m: Method) -> bool {
    occurs_at(d, 0, token(m))
}

/// The first method, in parsing order, whose token begins `d`.
pub open spec fn method_of(d: Seq<u8>) -> Option<Method> {
    first_match(d, 0)
}

/// The first method from position `i` of the parsing order whose token begins `d`.
pub open spec fn first_match(d: Seq<u8>, i: int) -> Option<Method>
    decreases 9 - i,
{
    if i < 0 || i >= 9 {
        None
    } else if starts_with_token(d, method_order()[i]) {
        Some(method_order()[i])
    } else {
        first_match(d, i + 1)
    }
}

impl Method {
    /// The wire token of the method.
    fn token_text(&self) -> (r: &'static [u8])
        ensures
            r@ == token(*self),
    {
        let s: &'static str = match self {
            Method::Get => "GET",
            Method::Head => "HEAD",
            Method::Post => "POST",
            Method::Put => "PUT",
            Method::Delete => "DELETE",
            Method::Connect => "CONNECT",
            Method::Options => "OPTIONS",
            Method::Trace => "TRACE",
            Method::Patch => "PATCH",
        };
        proof {
            reveal_strlit("GET");
            reveal_strlit("HEAD");
            reveal_strlit("POST");
            reveal_strlit("PUT");
            reveal_strlit("DELETE");
            reveal_strlit("CONNECT");
            reveal_strlit("OPTIONS");
            reveal_strlit("TRACE");
            reveal_strlit("PATCH");
            assert(s@ =~= token_chars(*self));
        }
        ascii_text(s)
    }
}

/// The method at position `i` of the parsing order.
fn method_at(i: usize) -> (m: Method)
    requires
        i < 9,
    ensures
        m == method_order()[i as int],
{
    match i {
        0 => Method::Get,
        1 => Method::Head,
        2 => Method::Post,
        3 => Method::Put,
        4 => Method::Delete,
        5 => Method::Connect,
        6 => Method::Options,
        7 => Method::Trace,
        _ => Method::Patch,
    }
}

/// Consumes a method token at the cursor's position.
///
/// The tokens are tried in the declared order and the first that begins the
/// remainder wins: the cursor moves past it. When none matches, the cursor
/// stays where it was.
pub fn parse_method(request: &mut RawIter) -> (r: Result<Method, Error>)
    requires
        old(request).wf(),
    ensures
        final(request).input() == old(request).input(),
        final(request).wf(),
        match method_of(old(request).rest()) {
            Some(m) => r == Ok::<Method, Error>(m) && final(request).pos() == old(request).pos()
                + token(m).len(),
            None => r == Err::<Method, Error>(Error::HttpMethodParseFailed) && final(request).pos()
                == old(request).pos(),
        },
{
    let data = request.data();
    let ghost d = data@;
    let mut i: usize = 0;
    while i < 9
        invariant
            i <= 9,
            d == data@,
            d == request.rest(),
            request.wf(),
            request.input() == old(request).input(),
            request.pos() == old(request).pos(),
            method_of(d) == first_match(d, i as int),
        decreases 9 - i,
    {
        let m = method_at(i);
        let t = m.token_text();
        if matches_at(data, 0, t) {
            request.advance(t.len());
            return Ok(m);
        }
        i = i + 1;
    }
    Err(Error::HttpMethodParseFailed)
}

/// A remainder that begins with a method's token is parsed as that method:
/// no token is a prefix of another, so the parsing order never decides.
pub proof fn lemma_token_selects_method(d: Seq<u8>, m: Method)
    requires
        starts_with_token(d, m),
    ensures
        method_of(d) == Some(m),
{
    assert forall|a: Method, b: Method| a != b && #[trigger] starts_with_token(d, a)
        implies !#[trigger] starts_with_token(d, b) by {
        if starts_with_token(d, b) {
            let n = if token(a).len() <= token(b).len() { token(a).len() } else { token(b).len() };
            assert(token(a).subrange(0, n as int) == d.subrange(0, n as int));
            assert(token(b).subrange(0, n as int) == d.subrange(0, n as int));
            assert(token(a)[0] == d[0]);
            assert(token(b)[0] == d[0]);
            assert(token(a)[1] == token(b)[1]);
            assert(token(a)[2] == token(b)[2]);
        }
    }
    reveal_with_fuel(first_match, 10);
}

/// A remainder that begins with no method's token fails to parse.
pub proof fn lemma_no_token_no_method(d: Seq<u8>)
    requires
        forall|m: Method| !starts_with_token(d, m),
    ensures
        method_of(d) == None::<Method>,
{
    reveal_with_fuel(first_match, 10);
}

} // verus!
