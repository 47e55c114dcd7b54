//! A fluent builder for HTTP responses and the finalized message it produces.

use vstd::prelude::*;

verus! {

/// The characters `0` to `9`, in order.
pub open spec fn digit_chars() -> Seq<char> {
    "0123456789"@
}

/// The one-character string of the digit `d`.
pub open spec fn digit(d: int) -> Seq<char> {
    digit_chars().subrange(d, d + 1)
}

/// The decimal form of `n`: no sign, no leading zeros, `0` for zero.
pub open spec fn decimal(n: nat) -> Seq<char>
    decreases n,
{
    if n < 10 {
        digit(n as int)
    } else {
        decimal(n / 10) + digit((n % 10) as int)
    }
}

/// Appends the decimal form of `n` to `out`.
fn push_decimal(out: &mut String, n: u16)
    ensures
        final(out)@ == old(out)@ + decimal(n as nat),
    decreases n,
{
    let ghost before = out@;
    let digits = "0123456789";
    proof {
        reveal_strlit("0123456789");
    }
    if n >= 10 {
        push_decimal(out, n / 10);
    }
    let d: usize = (n % 10) as usize;
    out.append(digits.substring_ascii(d, d + 1));
    assert(out@ =~= before + decimal(n as nat));
}

/// The line terminator of HTTP/1.1.
pub open spec fn crlf() -> Seq<char> {
    "\r\n"@
}

/// The status line for `status`, terminator included. The reason phrase is
/// always `OK`, whatever the code.
pub open spec fn status_line(status: u16) -> Seq<char> {
    "HTTP/1.1 "@ + decimal(status as nat) + " OK"@ + crlf()
}

/// One header rendered as `name: value`, without a terminator.
pub open spec fn header_line(h: (Seq<char>, Seq<char>)) -> Seq<char> {
    h.0 + ": "@ + h.1
}

/// The header lines in order, with a line terminator between consecutive
/// ones and none before the first or after the last.
pub open spec fn joined_headers(hs: Seq<(Seq<char>, Seq<char>)>) -> Seq<char>
    decreases hs.len(),
{
    if hs.len() == 0 {
        Seq::empty()
    } else if hs.len() == 1 {
        header_line(hs[0])
    } else {
        joined_headers(hs.drop_last()) + crlf() + header_line(hs.last())
    }
}

/// The abstract content of a response: status code, headers in insertion
/// order (duplicates kept), and body.
pub struct ResponseModel {
    pub status: u16,
    pub headers: Seq<(Seq<char>, Seq<char>)>,
    pub body: Seq<char>,
}

impl ResponseModel {
    /// Status 200, no headers, empty body.
    pub open spec fn initial() -> ResponseModel {
        ResponseModel { status: 200, headers: Seq::empty(), body: Seq::empty() }
    }

    pub open spec fn with_status(self, status: u16) -> ResponseModel {
        ResponseModel { status, ..self }
    }

    pub open spec fn with_header(self, key: Seq<char>, value: Seq<char>) -> ResponseModel {
        ResponseModel { headers: self.headers.push((key, value)), ..self }
    }

    pub open spec fn with_body(self, body: Seq<char>) -> ResponseModel {
        ResponseModel { body, ..self }
    }

    /// The HTTP/1.1 text of the response: the status line, the joined
    /// header lines, two line terminators, then the body verbatim.
    pub open spec fn wire(self) -> Seq<char> {
        status_line(self.status) + joined_headers(self.headers) + crlf() + crlf() + self.body
    }
}

/// The headers as stored, seen as pairs of character sequences.
pub open spec fn headers_view(hs: Seq<(String, String)>) -> Seq<(Seq<char>, Seq<char>)> {
    hs.map_values(|h: (String, String)| (h.0@, h.1@))
}

/// Collects the status, headers and body of a response through chained
/// calls, each of which consumes the builder and hands it back changed.
#[derive(Debug)]
pub struct ResponseBuilder {
    status: u16,
    headers: Vec<(String, String)>,
    body: String,
}

impl View for ResponseBuilder {
    type V = ResponseModel;

    closed spec fn view(&self) -> ResponseModel {
        ResponseModel {
            status: self.status,
            headers: headers_view(self.headers@),
            body: self.body@,
        }
    }
}

impl ResponseBuilder {
    /// A builder with status 200, no headers and an empty body.
    pub fn new() -> (r: Self)
        ensures
            r@ == ResponseModel::initial(),
    {
        let r = ResponseBuilder { status: 200, headers: Vec::new(), body: String::new() };
        assert(r@.headers =~= Seq::empty());
        r
    }

    /// Sets the status code. Any value is taken as it is.
    pub fn status(self, status: u16) -> (r: Self)
        ensures
            r@ == self@.with_status(status),
    {
        let mut b = self;
        b.status = status;
        b
    }

    /// Appends a header after those already set; earlier ones with the same
    /// name are kept.
    pub fn header(self, key: &str, value: &str) -> (r: Self)
        ensures
            r@ == self@.with_header(key@, value@),
    {
        let mut b = self;
        b.headers.push((key.to_string(), value.to_string()));
        assert(headers_view(b.headers@) =~= headers_view(self.headers@).push((key@, value@)));
        b
    }

    /// Replaces the body with `body`.
    pub fn body(self, body: &str) -> (r: Self)
        ensures
            r@ == self@.with_body(body@),
    {
        let mut b = self;
        b.body = body.to_string();
        b
    }

    /// Consumes the builder into the finalized response.
    pub fn build(self) -> (r: Response)
        ensures
            r@ == self@,
    {
        Response { status: self.status, headers: self.headers, body: self.body }
    }
}

/// A finalized response; it can only be serialized.
pub struct Response {
    status: u16,
    headers: Vec<(String, String)>,
    body: String,
}

impl View for Response {
    type V = ResponseModel;

    closed spec fn view(&self) -> ResponseModel {
        ResponseModel {
            status: self.status,
            headers: headers_view(self.headers@),
            body: self.body@,
        }
    }
}

impl Response {
    /// The HTTP/1.1 text of the response. It depends on the response's
    /// content alone, so every call gives the same text.
    pub fn to_string(&self) -> (r: String)
        ensures
            r@ == self@.wire(),
    {
        let ghost hs = self@.headers;
        let mut out = String::new();
        out.append("HTTP/1.1 ");
        push_decimal(&mut out, self.status);
        out.append(" OK");
        out.append("\r\n");
        assert(out@ =~= status_line(self.status));
        let mut i: usize = 0;
        while i < self.headers.len()
            invariant
                hs == headers_view(self.headers@),
                i <= self.headers.len(),
                out@ == status_line(self.status) + joined_headers(hs.take(i as int)),
            decreases self.headers.len() - i,
        {
            let ghost prev = out@;
            if i > 0 {
                out.append("\r\n");
            }
            out.append(self.headers[i].0.as_str());
            out.append(": ");
            out.append(self.headers[i].1.as_str());
            assert(hs.take(i + 1).drop_last() =~= hs.take(i as int));
            assert(hs.take(i as int).len() == 0 ==> hs.take(i as int) =~= Seq::empty());
            i += 1;
            assert(out@ =~= status_line(self.status) + joined_headers(hs.take(i as int)));
        }
        assert(hs.take(i as int) =~= hs);
        out.append("\r\n");
        out.append("\r\n");
        out.append(self.body.as_str());
        assert(out@ =~= self@.wire());
        out
    }
}

/// The header lines in order, each followed by a line terminator.
pub open spec fn terminated_headers(hs: Seq<(Seq<char>, Seq<char>)>) -> Seq<char>
    decreases hs.len(),
{
    if hs.len() == 0 {
        Seq::empty()
    } else {
        terminated_headers(hs.drop_last()) + header_line(hs.last()) + crlf()
    }
}

/// Where the line of the header at index `i` of `m` starts in `m.wire()`.
pub open spec fn header_start(m: ResponseModel, i: int) -> int {
    (status_line(m.status).len() + terminated_headers(m.headers.take(i)).len()) as int
}

proof fn lemma_joined_then_crlf(hs: Seq<(Seq<char>, Seq<char>)>)
    requires
        hs.len() >= 1,
    ensures
        joined_headers(hs) + crlf() == terminated_headers(hs),
    decreases hs.len(),
{
    if hs.len() == 1 {
        assert(terminated_headers(hs.drop_last()) =~= Seq::empty());
        assert(joined_headers(hs) + crlf() =~= terminated_headers(hs));
    } else {
        lemma_joined_then_crlf(hs.drop_last());
        assert(joined_headers(hs) + crlf() =~= terminated_headers(hs));
    }
}

proof fn lemma_terminated_prefix(hs: Seq<(Seq<char>, Seq<char>)>, k: int)
    requires
        0 <= k <= hs.len(),
    ensures
        terminated_headers(hs.take(k)).len() <= terminated_headers(hs).len(),
        terminated_headers(hs).subrange(0, terminated_headers(hs.take(k)).len() as int)
            == terminated_headers(hs.take(k)),
    decreases hs.len(),
{
    if k == hs.len() {
        assert(hs.take(k) =~= hs);
        assert(terminated_headers(hs).subrange(0, terminated_headers(hs).len() as int)
            =~= terminated_headers(hs));
    } else {
        assert(hs.take(k) =~= hs.drop_last().take(k));
        lemma_terminated_prefix(hs.drop_last(), k);
        let p = terminated_headers(hs.take(k));
        let t = terminated_headers(hs.drop_last());
        assert(terminated_headers(hs).subrange(0, p.len() as int) =~= t.subrange(0, p.len() as int));
    }
}

/// Setting status `c` and body `b` on a fresh builder yields text that begins
/// with the status line `HTTP/1.1 {c} OK` and ends with exactly `b`; with no
/// headers, three line terminators stand between the two.
pub proof fn lemma_status_line_and_body(c: u16, b: Seq<char>)
    ensures
        ResponseModel::initial().with_status(c).with_body(b).wire()
            == "HTTP/1.1 "@ + decimal(c as nat) + " OK"@ + crlf() + crlf() + crlf() + b,
        ResponseModel::initial().with_status(c).with_body(b).wire().take(
            ("HTTP/1.1 "@ + decimal(c as nat) + " OK"@).len() as int,
        ) == "HTTP/1.1 "@ + decimal(c as nat) + " OK"@,
        ResponseModel::initial().with_status(c).with_body(b).wire().skip(
            ResponseModel::initial().with_status(c).with_body(b).wire().len() - b.len(),
        ) == b,
{
    let w = ResponseModel::initial().with_status(c).with_body(b).wire();
    let prefix = "HTTP/1.1 "@ + decimal(c as nat) + " OK"@;
    assert(joined_headers(Seq::<(Seq<char>, Seq<char>)>::empty()) =~= Seq::empty());
    assert(w =~= prefix + crlf() + crlf() + crlf() + b);
    assert(w.take(prefix.len() as int) =~= prefix);
    assert(w.skip(w.len() - b.len()) =~= b);
}

proof fn lemma_crlf_len()
    ensures
        crlf().len() == 2,
{
    reveal_strlit("\r\n");
}

proof fn lemma_terminated_step(hs: Seq<(Seq<char>, Seq<char>)>, i: int)
    requires
        0 <= i < hs.len(),
    ensures
        terminated_headers(hs.take(i + 1)) == terminated_headers(hs.take(i)) + header_line(hs[i])
            + crlf(),
{
    assert(hs.take(i + 1).drop_last() =~= hs.take(i));
}

proof fn lemma_header_at(m: ResponseModel, i: int)
    requires
        0 <= i < m.headers.len(),
    ensures
        0 <= header_start(m, i),
        header_start(m, i) + header_line(m.headers[i]).len() + 2 <= m.wire().len(),
        m.wire().subrange(header_start(m, i), header_start(m, i) + header_line(m.headers[i]).len() + 2)
            == header_line(m.headers[i]) + crlf(),
{
    let hs = m.headers;
    let sl = status_line(m.status);
    let line = header_line(hs[i]);
    lemma_crlf_len();
    lemma_joined_then_crlf(hs);
    lemma_terminated_step(hs, i);
    lemma_terminated_prefix(hs, i + 1);
    let t = terminated_headers(hs);
    let p = terminated_headers(hs.take(i));
    let q = terminated_headers(hs.take(i + 1));
    let w = m.wire();
    assert(w =~= sl + t + crlf() + m.body);
    assert(t.subrange(0, q.len() as int) == q);
    let s0 = header_start(m, i);
    assert(w.subrange(s0, s0 + line.len() as int + 2) =~= q.subrange(p.len() as int, q.len() as int));
    assert(q.subrange(p.len() as int, q.len() as int) =~= line + crlf());
}

/// Every header of `m`, in insertion order and duplicates included, appears
/// in `m.wire()` as `name: value` immediately followed by a line terminator,
/// and the line of each header starts right after that of the one before.
pub proof fn lemma_headers_in_order(m: ResponseModel)
    ensures
        forall|i: int|
            0 <= i < m.headers.len() ==> 0 <= #[trigger] header_start(m, i) && header_start(m, i)
                + header_line(m.headers[i]).len() + 2 <= m.wire().len() && m.wire().subrange(
                header_start(m, i),
                header_start(m, i) + header_line(m.headers[i]).len() + 2,
            ) == header_line(m.headers[i]) + crlf(),
        forall|i: int|
            0 <= i < m.headers.len() - 1 ==> #[trigger] header_start(m, i + 1) == header_start(m, i)
                + header_line(m.headers[i]).len() + 2,
{
    assert forall|i: int| 0 <= i < m.headers.len() implies 0 <= #[trigger] header_start(m, i)
        && header_start(m, i) + header_line(m.headers[i]).len() + 2 <= m.wire().len()
        && m.wire().subrange(
        header_start(m, i),
        header_start(m, i) + header_line(m.headers[i]).len() + 2,
    ) == header_line(m.headers[i]) + crlf() by {
        lemma_header_at(m, i);
    }
    assert forall|i: int| 0 <= i < m.headers.len() - 1 implies #[trigger] header_start(m, i + 1)
        == header_start(m, i) + header_line(m.headers[i]).len() + 2 by {
        lemma_crlf_len();
        lemma_terminated_step(m.headers, i);
    }
}

/// Setting the body twice keeps only the second value.
pub proof fn lemma_body_last_wins(m: ResponseModel, first: Seq<char>, second: Seq<char>)
    ensures
        m.with_body(first).with_body(second) == m.with_body(second),
{
}

} // verus!
