pub use crate::content_type::ContentType;
use crate::parser::{ascii, StreamError};
use crate::request::version_marker;
pub use crate::status::Status;
use crate::status::status_text;
use crate::text::ascii_text;
use numtoa::NumToA;
use vstd::prelude::*;
use vstd::string::StringSliceAdditionalSpecFns;

verus! {

/// The capacity of a response's header table.
pub const HEADER_COUNT: usize = 100;

/// A header line's name and value.
#[derive(Copy, Clone, Debug)]
pub struct Header {
    pub key: &'static str,
    pub value: &'static str,
}

/// Why a response could not be built.
#[derive(PartialEq, Eq, Copy, Clone, Debug)]
pub enum ResponseError {
    HeaderLengthExceeded { max_headers: usize },
}

/// The decimal digits of `n`, most significant first.
pub open spec fn decimal(n: nat) -> Seq<u8>
    decreases n,
{
    if n < 10 {
        seq![(48 + n) as u8]
    } else {
        decimal(n / 10).push((48 + n % 10) as u8)
    }
}

pub open spec fn space_text() -> Seq<char> {
    seq![' ']
}

pub open spec fn newline_text() -> Seq<char> {
    seq!['\r', '\n']
}

pub open spec fn separator_text() -> Seq<char> {
    seq![':', ' ']
}

pub open spec fn content_length_text() -> Seq<char> {
    seq!['C', 'o', 'n', 't', 'e', 'n', 't', '-', 'L', 'e', 'n', 'g', 't', 'h']
}

/// One header line: `key: value` and a line break.
pub open spec fn header_line(key: Seq<u8>, value: Seq<u8>) -> Seq<u8> {
    key + ascii(separator_text()) + value + ascii(newline_text())
}

/// The lines of the given headers, in order.
pub open spec fn header_lines(hs: Seq<Header>) -> Seq<u8>
    decreases hs.len(),
{
    if hs.len() == 0 {
        Seq::empty()
    } else {
        header_lines(hs.drop_last()) + header_line(
            hs.last().key.spec_bytes(),
            hs.last().value.spec_bytes(),
        )
    }
}

/// The status line, up to and including its line break.
pub open spec fn status_line(status: Status) -> Seq<u8> {
    version_marker() + ascii(space_text()) + ascii(status_text(status)) + ascii(newline_text())
}

/// The whole wire form of a response: the status line, the Content-Length
/// header, the other headers in order, an empty line and the body.
pub open spec fn response_bytes(status: Status, body: Seq<u8>, hs: Seq<Header>) -> Seq<u8> {
    status_line(status) + header_line(ascii(content_length_text()), decimal(body.len()))
        + header_lines(hs) + ascii(newline_text()) + body
}

/// What writing the wire form `wire` into a buffer holding `buf` gives: the
/// count and the new contents, or an overflow and the buffer untouched.
pub open spec fn write_outcome(wire: Seq<u8>, buf: Seq<u8>) -> (Result<usize, StreamError>, Seq<u8>) {
    if buf.len() >= wire.len() {
        (Ok(wire.len() as usize), wire + buf.subrange(wire.len() as int, buf.len() as int))
    } else {
        (
            Err(
                StreamError::BufferOverflow {
                    max_bytes: buf.len() as usize,
                    actual_size: wire.len() as usize,
                },
            ),
            buf,
        )
    }
}

/// What adding header `h` to a table holding `hs` gives.
pub open spec fn add_header(hs: Seq<Header>, h: Header) -> (Result<(), ResponseError>, Seq<Header>) {
    if hs.len() < HEADER_COUNT {
        (Ok(()), hs.push(h))
    } else {
        (Err(ResponseError::HeaderLengthExceeded { max_headers: HEADER_COUNT }), hs)
    }
}

/// What adding the headers `new` one after another to a table holding `hs`
/// gives: it stops at the first failure.
pub open spec fn add_headers(hs: Seq<Header>, new: Seq<Header>) -> (Result<(), ResponseError>, Seq<Header>)
    decreases new.len(),
{
    if new.len() == 0 {
        (Ok(()), hs)
    } else {
        let (r, next) = add_header(hs, new[0]);
        if r is Err {
            (r, next)
        } else {
            add_headers(next, new.drop_first())
        }
    }
}

proof fn lemma_add_headers_fit(hs: Seq<Header>, new: Seq<Header>)
    requires
        hs.len() + new.len() <= HEADER_COUNT,
    ensures
        add_headers(hs, new) == (Ok::<(), ResponseError>(()), hs + new),
    decreases new.len(),
{
    if new.len() > 0 {
        lemma_add_headers_fit(hs.push(new[0]), new.drop_first());
        assert(hs.push(new[0]) + new.drop_first() =~= hs + new);
    } else {
        assert(hs + new =~= hs);
    }
}

/// A table takes `HEADER_COUNT` headers one after another; the next one fails
/// and leaves the table as it was.
pub proof fn lemma_header_capacity(new: Seq<Header>, extra: Header)
    requires
        new.len() == HEADER_COUNT,
    ensures
        add_headers(Seq::empty(), new) == (Ok::<(), ResponseError>(()), new),
        add_header(new, extra) == (
            Err::<(), ResponseError>(ResponseError::HeaderLengthExceeded { max_headers: HEADER_COUNT }),
            new,
        ),
{
    lemma_add_headers_fit(Seq::empty(), new);
    assert(Seq::<Header>::empty() + new =~= new);
}

/// Relies on numtoa's `NumToA::numtoa` in base ten: it writes the decimal
/// digits of `n` at the end of the buffer and returns them; twenty bytes hold
/// the digits of any 64-bit value.
#[verifier::external_body]
fn decimal_digits(n: usize, buf: &mut [u8; 20]) -> (r: &[u8])
    ensures
        r@ == decimal(n as nat),
{
    n.numtoa(10, buf)
}

/// `out` holds `acc` followed by what was there before, when copying, and is
/// untouched when only counting.
pub open spec fn sink_holds(out: Seq<u8>, orig: Seq<u8>, acc: Seq<u8>, copy: bool) -> bool {
    if copy {
        acc.len() <= orig.len() && out == acc + orig.subrange(acc.len() as int, orig.len() as int)
    } else {
        out == orig
    }
}

/// Appends `bytes` at `pos`: copies them into `out` when `copy` holds, and
/// only counts them otherwise. Returns the position after them.
fn put(
    out: &mut [u8],
    pos: usize,
    bytes: &[u8],
    copy: bool,
    Ghost(orig): Ghost<Seq<u8>>,
    Ghost(acc): Ghost<Seq<u8>>,
) -> (end: usize)
    requires
        sink_holds(old(out)@, orig, acc, copy),
        pos == acc.len(),
        pos + bytes@.len() <= usize::MAX,
        copy ==> pos + bytes@.len() <= orig.len(),
    ensures
        end == pos + bytes@.len(),
        sink_holds(final(out)@, orig, acc + bytes@, copy),
{
    let mut i: usize = 0;
    while i < bytes.len()
        invariant
            i <= bytes@.len(),
            pos == acc.len(),
            pos + bytes@.len() <= usize::MAX,
            copy ==> pos + bytes@.len() <= orig.len(),
            sink_holds(out@, orig, acc + bytes@.subrange(0, i as int), copy),
        decreases bytes@.len() - i,
    {
        if copy {
            out[pos + i] = bytes[i];
            assert(out@ =~= (acc + bytes@.subrange(0, i + 1)) + orig.subrange(
                pos + i + 1,
                orig.len() as int,
            ));
        }
        i = i + 1;
    }
    assert(bytes@.subrange(0, i as int) =~= bytes@);
    pos + i
}

proof fn lemma_header_lines_prefix(hs: Seq<Header>, i: int)
    requires
        0 <= i < hs.len(),
    ensures
        header_lines(hs.take(i + 1)) == header_lines(hs.take(i)) + header_line(
            hs[i].key.spec_bytes(),
            hs[i].value.spec_bytes(),
        ),
        header_lines(hs.take(i + 1)).len() <= header_lines(hs).len(),
    decreases hs.len(),
{
    assert(hs.take(i + 1).drop_last() =~= hs.take(i));
    if i + 1 < hs.len() {
        lemma_header_lines_prefix(hs.drop_last(), i);
        assert(hs.drop_last().take(i + 1) =~= hs.take(i + 1));
        assert(hs.drop_last().take(i) =~= hs.take(i));
    } else {
        assert(hs.take(i + 1) =~= hs);
    }
}

/// A response: a status, a borrowed body and a bounded table of headers.
pub struct Response<'a> {
    status: Status,
    body: &'a [u8],
    headers: [Option<Header>; 100],
    count: usize,
}

impl<'a> Response<'a> {
    pub closed spec fn spec_status(&self) -> Status {
        self.status
    }

    pub closed spec fn spec_body(&self) -> Seq<u8> {
        self.body@
    }

    /// The headers added so far, in table order.
    pub closed spec fn spec_headers(&self) -> Seq<Header> {
        Seq::new(self.count as nat, |i: int| self.headers@[i].unwrap())
    }

    /// The occupied slots form a prefix of the table, as long as the count.
    pub closed spec fn wf(&self) -> bool {
        &&& self.count <= HEADER_COUNT
        &&& forall|i: int| 0 <= i < self.count ==> (#[trigger] self.headers@[i]).is_some()
        &&& forall|i: int| self.count <= i < HEADER_COUNT ==> (#[trigger] self.headers@[i]).is_none()
    }

    /// The bytes that this response is written as.
    pub open spec fn wire(&self) -> Seq<u8> {
        response_bytes(self.spec_status(), self.spec_body(), self.spec_headers())
    }

    pub fn new(status: Status) -> (r: Self)
        ensures
            r.wf(),
            r.spec_status() == status,
            r.spec_body() == Seq::<u8>::empty(),
            r.spec_headers() == Seq::<Header>::empty(),
    {
        let r = Self { status, body: &[], headers: [None; 100], count: 0 };
        assert(r.spec_headers() =~= Seq::<Header>::empty());
        r
    }

    /// Replaces the body.
    pub fn with_body(&mut self, body: &'a [u8]) -> (r: Result<(), ResponseError>)
        requires
            old(self).wf(),
        ensures
            r == Ok::<(), ResponseError>(()),
            final(self).wf(),
            final(self).spec_status() == old(self).spec_status(),
            final(self).spec_body() == body@,
            final(self).spec_headers() == old(self).spec_headers(),
    {
        self.body = body;
        Ok(())
    }

    /// Places a header in the first free slot of the table, or fails when the
    /// table is full and leaves it as it was.
    pub fn with_header(&mut self, header: Header) -> (r: Result<(), ResponseError>)
        requires
            old(self).wf(),
        ensures
            final(self).wf(),
            final(self).spec_status() == old(self).spec_status(),
            final(self).spec_body() == old(self).spec_body(),
            (r, final(self).spec_headers()) == add_header(old(self).spec_headers(), header),
    {
        if self.count >= HEADER_COUNT {
            return Err(ResponseError::HeaderLengthExceeded { max_headers: HEADER_COUNT });
        }
        let ghost before = self.spec_headers();
        self.headers[self.count] = Some(header);
        self.count = self.count + 1;
        assert(self.spec_headers() =~= before.push(header));
        Ok(())
    }

    /// Runs the pieces of the wire form through the sink, in order.
    fn emit(&self, out: &mut [u8], copy: bool) -> (n: usize)
        requires
            self.wf(),
            self.wire().len() <= usize::MAX,
            copy ==> self.wire().len() <= old(out)@.len(),
        ensures
            n == self.wire().len(),
            sink_holds(final(out)@, old(out)@, self.wire(), copy),
    {
        let ghost orig = out@;
        let ghost wire = self.wire();
        let ghost hs = self.spec_headers();
        let ghost mut acc = Seq::<u8>::empty();
        proof {
            reveal_strlit(" ");
            reveal_strlit("\r\n");
            reveal_strlit(": ");
            reveal_strlit("Content-Length");
            assert(orig.subrange(0, orig.len() as int) =~= orig);
            assert(acc + orig.subrange(0, orig.len() as int) =~= orig);
        }
        let version = crate::request::marker_text();
        let space = ascii_text(" ");
        let newline = ascii_text("\r\n");
        let separator = ascii_text(": ");
        let status = self.status.to_status();
        proof {
            reveal_strlit("200 OK");
            reveal_strlit("404 NOT FOUND");
        }
        let status = ascii_text(status);
        let mut pos: usize = 0;
        pos = put(out, pos, version, copy, Ghost(orig), Ghost(acc));
        proof { acc = acc + version@; }
        pos = put(out, pos, space, copy, Ghost(orig), Ghost(acc));
        proof { acc = acc + space@; }
        pos = put(out, pos, status, copy, Ghost(orig), Ghost(acc));
        proof { acc = acc + status@; }
        pos = put(out, pos, newline, copy, Ghost(orig), Ghost(acc));
        proof { acc = acc + newline@; }
        assert(acc == status_line(self.status));
        let mut digits: [u8; 20] = [0; 20];
        let length = decimal_digits(self.body.len(), &mut digits);
        let content_length = ascii_text("Content-Length");
        assert(content_length@ =~= ascii(content_length_text()));
        pos = put(out, pos, content_length, copy, Ghost(orig), Ghost(acc));
        proof { acc = acc + content_length@; }
        pos = put(out, pos, separator, copy, Ghost(orig), Ghost(acc));
        proof { acc = acc + separator@; }
        pos = put(out, pos, length, copy, Ghost(orig), Ghost(acc));
        proof { acc = acc + length@; }
        pos = put(out, pos, newline, copy, Ghost(orig), Ghost(acc));
        proof { acc = acc + newline@; }
        let ghost head = acc;
        assert(head == status_line(self.status) + header_line(
            ascii(content_length_text()),
            decimal(self.body@.len()),
        ));
        let mut i: usize = 0;
        proof {
            assert(hs.take(0) =~= Seq::<Header>::empty());
            assert(acc =~= head + header_lines(hs.take(0)));
        }
        while i < self.count
            invariant
                self.wf(),
                hs == self.spec_headers(),
                wire == self.wire(),
                wire.len() <= usize::MAX,
                copy ==> wire.len() <= orig.len(),
                newline@ == ascii(newline_text()),
                separator@ == ascii(separator_text()),
                i <= self.count,
                pos == acc.len(),
                acc == head + header_lines(hs.take(i as int)),
                wire == head + header_lines(hs) + ascii(newline_text()) + self.body@,
                sink_holds(out@, orig, acc, copy),
            decreases self.count - i,
        {
            proof {
                lemma_header_lines_prefix(hs, i as int);
            }
            let header = match self.headers[i] {
                Some(h) => h,
                None => {
                    proof {
                        assert(false);
                    }
                    Header { key: "", value: "" }
                },
            };
            let key = header.key.as_bytes();
            let value = header.value.as_bytes();
            pos = put(out, pos, key, copy, Ghost(orig), Ghost(acc));
            proof { acc = acc + key@; }
            pos = put(out, pos, separator, copy, Ghost(orig), Ghost(acc));
            proof { acc = acc + separator@; }
            pos = put(out, pos, value, copy, Ghost(orig), Ghost(acc));
            proof { acc = acc + value@; }
            pos = put(out, pos, newline, copy, Ghost(orig), Ghost(acc));
            proof { acc = acc + newline@; }
            i = i + 1;
            assert(acc =~= head + header_lines(hs.take(i as int)));
        }
        assert(hs.take(i as int) =~= hs);
        pos = put(out, pos, newline, copy, Ghost(orig), Ghost(acc));
        proof { acc = acc + newline@; }
        pos = put(out, pos, self.body, copy, Ghost(orig), Ghost(acc));
        proof { acc = acc + self.body@; }
        assert(acc =~= wire);
        pos
    }

    /// The number of bytes that `write_to_buffer` writes.
    pub fn request_size(&self) -> (r: usize)
        requires
            self.wf(),
            self.wire().len() <= usize::MAX,
        ensures
            r == self.wire().len(),
    {
        let mut none: [u8; 0] = [];
        self.emit(&mut none, false)
    }

    /// Writes the response at the start of `buffer` and returns how many bytes
    /// it took; a buffer too short for it is left as it was.
    pub fn write_to_buffer(&self, buffer: &mut [u8]) -> (r: Result<usize, StreamError>)
        requires
            self.wf(),
            self.wire().len() <= usize::MAX,
        ensures
            (r, final(buffer)@) == write_outcome(self.wire(), old(buffer)@),
    {
        let size = self.request_size();
        if buffer.len() < size {
            return Err(StreamError::BufferOverflow { max_bytes: buffer.len(), actual_size: size });
        }
        let n = self.emit(buffer, true);
        Ok(n)
    }
}

/// Writing into a buffer exactly as long as the size gives that size; one
/// byte shorter overflows and reports both lengths.
pub proof fn lemma_size_write_agreement(r: Response, buf: Seq<u8>)
    requires
        r.wire().len() <= usize::MAX,
    ensures
        r.wire().len() > 0,
        buf.len() == r.wire().len() ==> write_outcome(r.wire(), buf) == (
            Ok::<usize, StreamError>(r.wire().len() as usize),
            r.wire(),
        ),
        buf.len() + 1 == r.wire().len() ==> write_outcome(r.wire(), buf).0 == Err::<
            usize,
            StreamError,
        >(
            StreamError::BufferOverflow {
                max_bytes: (r.wire().len() - 1) as usize,
                actual_size: r.wire().len() as usize,
            },
        ),
{
    if buf.len() == r.wire().len() {
        assert(r.wire() + buf.subrange(buf.len() as int, buf.len() as int) =~= r.wire());
    }
}

} // verus!
