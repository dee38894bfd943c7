pub use crate::method::{parse_method, Method};
use crate::method::{method_of, token};
use crate::parser::{ascii, matches_at, occurs_at, RawIter};
use crate::text::{lemma_trim_shorter, trim_chars, trim_text, utf8_text};
use vstd::prelude::*;
use vstd::slice::slice_subrange;
use vstd::string::StringSliceAdditionalSpecFns;
use vstd::utf8::{decode_utf8, encode_utf8, encode_utf8_decode_utf8, encode_utf8_valid_utf8, valid_utf8};

verus! {

/// The largest request, in bytes, that is parsed at all.
pub const MAX_REQUEST_BYTES: usize = 8192;

/// The capacity of a path, in bytes.
pub const MAX_PATH_BYTES: usize = 256;

/// Why a request could not be parsed.
#[derive(PartialEq, Eq, Copy, Clone, Debug)]
pub enum Error {
    HttpMethodParseFailed,
    PathParseError,
    RequestSizeExceeded { max_bytes: usize, bytes: usize },
    PathSizeExceeded { max_bytes: usize, bytes: usize },
}

/// The protocol marker that ends the path.
pub open spec fn version_marker() -> Seq<u8> {
    ascii(seq!['H', 'T', 'T', 'P', '/', '1', '.', '1'])
}

/// The first offset from `k` on at which the marker stands in `d`, or the
/// length of `d` when it stands nowhere there.
pub open spec fn find_marker(d: Seq<u8>, k: int) -> int
    decreases d.len() - k,
{
    if k < 0 || k >= d.len() {
        d.len() as int
    } else if occurs_at(d, k, version_marker()) {
        k
    } else {
        find_marker(d, k + 1)
    }
}

/// The length of the raw path: the bytes before the first marker, or none
/// when the marker is missing.
pub open spec fn path_span(d: Seq<u8>) -> int {
    let k = find_marker(d, 0);
    if k < d.len() {
        k
    } else {
        0
    }
}

/// The path that the raw bytes `raw` stand for: their text, trimmed.
pub open spec fn path_of(raw: Seq<u8>) -> Seq<u8> {
    encode_utf8(trim_chars(decode_utf8(raw)))
}

/// What parsing the path from the remainder `d` gives.
pub open spec fn path_result(d: Seq<u8>) -> Result<Seq<u8>, Error> {
    let k = path_span(d);
    if k >= MAX_PATH_BYTES {
        Err(Error::PathSizeExceeded { max_bytes: MAX_PATH_BYTES, bytes: (k + 1) as usize })
    } else if !valid_utf8(d.subrange(0, k)) {
        Err(Error::PathParseError)
    } else {
        Ok(path_of(d.subrange(0, k)))
    }
}

/// What parsing a whole raw request gives: its method and path.
pub open spec fn request_result(d: Seq<u8>) -> Result<(Method, Seq<u8>), Error> {
    if d.len() > MAX_REQUEST_BYTES {
        Err(Error::RequestSizeExceeded { max_bytes: MAX_REQUEST_BYTES, bytes: d.len() as usize })
    } else {
        match method_of(d) {
            None => Err(Error::HttpMethodParseFailed),
            Some(m) => {
                let rest = d.subrange(token(m).len() as int, d.len() as int);
                match path_result(rest) {
                    Err(e) => Err(e),
                    Ok(p) => Ok((m, p)),
                }
            },
        }
    }
}

/// A request path: at most `MAX_PATH_BYTES` bytes of UTF-8 text.
#[derive(PartialEq, Eq, Copy, Clone, Debug)]
pub struct Path {
    path: [u8; 256],
    len: usize,
}

impl View for Path {
    type V = Seq<u8>;

    closed spec fn view(&self) -> Seq<u8> {
        self.path@.subrange(0, self.len as int)
    }
}

impl Path {
    #[verifier::type_invariant]
    spec fn inv(&self) -> bool {
        self.len <= MAX_PATH_BYTES && valid_utf8(self.path@.subrange(0, self.len as int))
    }

    /// The path's bytes.
    pub fn bytes(&self) -> (r: &[u8])
        ensures
            r@ == self@,
            r@.len() <= MAX_PATH_BYTES,
            valid_utf8(r@),
    {
        proof {
            use_type_invariant(self);
        }
        slice_subrange(self.path.as_slice(), 0, self.len)
    }

    /// The path as text.
    pub fn to_str(&self) -> (r: &str)
        ensures
            r.spec_bytes() == self@,
    {
        match utf8_text(self.bytes()) {
            Some(s) => s,
            None => {
                proof {
                    use_type_invariant(self);
                }
                ""
            },
        }
    }
}

/// A parsed request line: its method and path.
#[derive(PartialEq, Eq, Copy, Clone, Debug)]
pub struct Request {
    method: Method,
    path: Path,
}

impl Request {
    /// The method of the request.
    pub closed spec fn spec_method(&self) -> Method {
        self.method
    }

    /// The path of the request.
    pub closed spec fn spec_path(&self) -> Path {
        self.path
    }

    pub fn method(&self) -> (r: Method)
        ensures
            r == self.spec_method(),
    {
        self.method
    }

    pub fn path(&self) -> (r: Path)
        ensures
            r == self.spec_path(),
    {
        self.path
    }
}

/// Returns the version marker's bytes.
pub(crate) fn marker_text() -> (r: &'static [u8])
    ensures
        r@ == version_marker(),
{
    proof {
        reveal_strlit("HTTP/1.1");
    }
    crate::text::ascii_text("HTTP/1.1")
}

/// Extracts the path that runs from the cursor to the version marker.
///
/// On success the cursor moves past the raw, untrimmed span and leaves the
/// marker itself in place; on failure it does not move.
pub fn parse_path(request: &mut RawIter) -> (r: Result<Path, Error>)
    requires
        old(request).wf(),
    ensures
        final(request).input() == old(request).input(),
        final(request).wf(),
        match r {
            Ok(p) => path_result(old(request).rest()) == Ok::<Seq<u8>, Error>(p@)
                && final(request).pos() == old(request).pos() + path_span(old(request).rest()),
            Err(e) => path_result(old(request).rest()) == Err::<Seq<u8>, Error>(e)
                && final(request).pos() == old(request).pos(),
        },
{
    let data = request.data();
    let ghost d = data@;
    let marker = marker_text();
    let mut end_index: usize = 0;
    let mut found_route = false;
    while end_index < data.len()
        invariant_except_break
            !found_route,
        invariant
            d == data@,
            marker@ == version_marker(),
            end_index <= d.len(),
            find_marker(d, 0) == find_marker(d, end_index as int),
        ensures
            end_index <= d.len(),
            find_marker(d, 0) == find_marker(d, end_index as int),
            found_route ==> end_index < d.len() && occurs_at(d, end_index as int, version_marker()),
            !found_route ==> end_index == d.len(),
        decreases d.len() - end_index,
    {
        if matches_at(data, end_index, marker) {
            found_route = true;
            break;
        }
        end_index = end_index + 1;
    }
    if !found_route {
        end_index = 0;
    }
    assert(end_index == path_span(d));
    assert(d.len() == data.len());
    if end_index >= MAX_PATH_BYTES {
        return Err(Error::PathSizeExceeded { max_bytes: MAX_PATH_BYTES, bytes: end_index + 1 });
    }
    let raw = slice_subrange(data, 0, end_index);
    let text = match utf8_text(raw) {
        Some(s) => s,
        None => {
            return Err(Error::PathParseError);
        },
    };
    let trimmed = trim_text(text);
    let bytes = trimmed.as_bytes();
    proof {
        encode_utf8_decode_utf8(text@);
        lemma_trim_shorter(text@);
        encode_utf8_valid_utf8(trim_chars(text@));
    }
    let mut path: [u8; 256] = [0; 256];
    let mut len: usize = 0;
    while len < bytes.len()
        invariant
            bytes@ == path_of(raw@),
            bytes@.len() <= end_index < MAX_PATH_BYTES,
            len <= bytes@.len(),
            path@.len() == MAX_PATH_BYTES,
            path@.subrange(0, len as int) == bytes@.subrange(0, len as int),
        decreases bytes@.len() - len,
    {
        path[len] = bytes[len];
        len = len + 1;
        assert(path@.subrange(0, len as int) =~= bytes@.subrange(0, len as int));
    }
    assert(bytes@.subrange(0, len as int) =~= bytes@);
    request.advance(end_index);
    Ok(Path { path, len })
}

proof fn lemma_find_first(d: Seq<u8>, j: int, k: int)
    requires
        0 <= j <= k,
        occurs_at(d, k, version_marker()),
        forall|i: int| j <= i < k ==> !occurs_at(d, i, version_marker()),
    ensures
        find_marker(d, j) == k,
    decreases k - j,
{
    if j < k {
        lemma_find_first(d, j + 1, k);
    }
}

proof fn lemma_find_none(d: Seq<u8>, j: int)
    requires
        0 <= j,
        forall|i: int| !occurs_at(d, i, version_marker()),
    ensures
        find_marker(d, j) == d.len(),
    decreases d.len() - j,
{
    if j < d.len() {
        lemma_find_none(d, j + 1);
    }
}

/// Where the version marker stands in the remainder, the path is the trimmed
/// text before its first occurrence (when that text is UTF-8 and fits).
pub proof fn lemma_path_before_marker(d: Seq<u8>, k: int)
    requires
        occurs_at(d, k, version_marker()),
        forall|i: int| 0 <= i < k ==> !occurs_at(d, i, version_marker()),
        k < MAX_PATH_BYTES,
        valid_utf8(d.subrange(0, k)),
    ensures
        path_span(d) == k,
        path_result(d) == Ok::<Seq<u8>, Error>(path_of(d.subrange(0, k))),
{
    lemma_find_first(d, 0, k);
}

/// Where the version marker stands nowhere in the remainder, the path is
/// empty and the cursor does not move.
pub proof fn lemma_no_marker_empty_path(d: Seq<u8>)
    requires
        forall|i: int| !occurs_at(d, i, version_marker()),
    ensures
        path_span(d) == 0,
        path_result(d) == Ok::<Seq<u8>, Error>(Seq::empty()),
{
    lemma_find_none(d, 0);
    let e = d.subrange(0, 0);
    assert(e =~= Seq::<u8>::empty());
    assert(decode_utf8(e) =~= Seq::<char>::empty());
    assert(trim_chars(Seq::<char>::empty()) =~= Seq::<char>::empty());
    assert(encode_utf8(Seq::<char>::empty()) =~= Seq::<u8>::empty());
}

/// An input longer than `MAX_REQUEST_BYTES` is refused with its length,
/// whatever it holds.
pub proof fn lemma_oversize_refused(d: Seq<u8>)
    requires
        d.len() > MAX_REQUEST_BYTES,
    ensures
        request_result(d) == Err::<(Method, Seq<u8>), Error>(
            Error::RequestSizeExceeded { max_bytes: MAX_REQUEST_BYTES, bytes: d.len() as usize },
        ),
{
}

/// Parses a raw request into its method and path.
///
/// An input longer than `MAX_REQUEST_BYTES` is refused before any token is
/// read.
pub fn parse(raw_request: &[u8]) -> (r: Result<Request, Error>)
    ensures
        match r {
            Ok(q) => request_result(raw_request@) == Ok::<(Method, Seq<u8>), Error>(
                (q.spec_method(), q.spec_path()@),
            ),
            Err(e) => request_result(raw_request@) == Err::<(Method, Seq<u8>), Error>(e),
        },
{
    if raw_request.len() > MAX_REQUEST_BYTES {
        return Err(Error::RequestSizeExceeded { max_bytes: MAX_REQUEST_BYTES, bytes: raw_request.len() });
    }
    let mut raw_iter = RawIter::new(raw_request);
    assert(raw_iter.rest() =~= raw_request@);
    let method = match parse_method(&mut raw_iter) {
        Ok(m) => m,
        Err(e) => {
            return Err(e);
        },
    };
    let path = match parse_path(&mut raw_iter) {
        Ok(p) => p,
        Err(e) => {
            return Err(e);
        },
    };
    Ok(Request { method, path })
}

} // verus!
