//! The small part of HTTP/1.1 this stack speaks: the request line of a request, a response
//! with a body, and when a message has arrived whole.
use vstd::prelude::*;
use vstd::string::StringSliceAdditionalSpecFns;

use crate::bytes::{append_bytes, copy_range};
use crate::text::{
    all_digits, append_lit, decimal_text, find_bytes, find_from, is_digit, lemma_decimal_text, lemma_find_at, lemma_find_from, lemma_parse_decimal_text, trim_start, ws_len, ws_len_back, lemma_tokens_utf8, lemma_utf8_split, lines_of,
    parse_uint, parse_uint_text, push_decimal, range_is, slice_range, starts_with, strip_cr, token_ranges, tokens, trim,
    trim_range, utf8_is_valid, utf8_to_string,
};

verus! {

/// The method and path of a request.
#[derive(Clone, Debug, PartialEq, Eq)]
pub struct HttpRequest {
    pub method: String,
    pub path: String,
}

/// A response: status, reason phrase and body.
#[derive(Clone, Debug, PartialEq, Eq)]
pub struct HttpResponse {
    pub status_code: u16,
    pub reason: &'static str,
    pub body: Vec<u8>,
}

/// `\r\n`
pub open spec fn crlf() -> Seq<u8> {
    seq![13u8, 10]
}

/// `\r\n\r\n`, the end of a header.
pub open spec fn header_end_mark() -> Seq<u8> {
    seq![13u8, 10, 13, 10]
}

/// `HTTP/1.1 `
pub open spec fn status_line_start() -> Seq<u8> {
    seq![72u8, 84, 84, 80, 47, 49, 46, 49, 32]
}

/// `\r\nContent-Length: `
pub open spec fn length_header_start() -> Seq<u8> {
    seq![13u8, 10, 67, 111, 110, 116, 101, 110, 116, 45, 76, 101, 110, 103, 116, 104, 58, 32]
}

/// `\r\nConnection: close\r\n\r\n`
pub open spec fn header_close() -> Seq<u8> {
    seq![13u8, 10, 67, 111, 110, 110, 101, 99, 116, 105, 111, 110, 58, 32, 99, 108, 111, 115, 101, 13, 10, 13, 10]
}

/// `GET `
pub open spec fn get_start() -> Seq<u8> {
    seq![71u8, 69, 84, 32]
}

/// ` HTTP/1.1\r\nHost: `
pub open spec fn get_host_start() -> Seq<u8> {
    seq![32u8, 72, 84, 84, 80, 47, 49, 46, 49, 13, 10, 72, 111, 115, 116, 58, 32]
}

/// `Content-Length: `
pub open spec fn content_length_name() -> Seq<u8> {
    seq![67u8, 111, 110, 116, 101, 110, 116, 45, 76, 101, 110, 103, 116, 104, 58, 32]
}

/// The first line of a message: the text before the first `\r\n`, or all of it.
pub open spec fn request_line(b: Seq<u8>) -> Seq<u8> {
    match find_from(b, crlf(), 0) {
        Some(i) => b.take(i as int),
        None => b,
    }
}

/// The method and path of a request: the first two whitespace-separated words of its
/// first line. `None` when the bytes are not UTF-8 or the line has fewer than two words.
pub open spec fn request_words(b: Seq<u8>) -> Option<(Seq<u8>, Seq<u8>)> {
    let t = tokens(request_line(b));
    if vstd::utf8::valid_utf8(b) && t.len() >= 2 {
        Some((t[0], t[1]))
    } else {
        None
    }
}

/// The bytes of a response: the status line `HTTP/1.1 <code> <reason>`, the headers
/// `Content-Length: <body length>` and `Connection: close`, a blank line, then the body.
pub open spec fn response_bytes(code: u16, reason: Seq<u8>, body: Seq<u8>) -> Seq<u8> {
    status_line_start() + decimal_text(code as nat) + seq![32u8] + reason + length_header_start()
        + decimal_text(body.len()) + header_close() + body
}

/// The bytes of a GET request for `path` with `Host: <host>` and `Connection: close`.
pub open spec fn get_request_bytes(path: Seq<u8>, host: Seq<u8>) -> Seq<u8> {
    get_start() + path + get_host_start() + host + header_close()
}

/// The body length a header announces: the value of the first line that starts with
/// `Content-Length: `, read as an unsigned number after trimming whitespace; 0 when no
/// line starts so or the value is not such a number.
pub open spec fn announced_length(lines: Seq<Seq<u8>>) -> nat
    decreases lines.len(),
{
    if lines.len() == 0 {
        0
    } else if starts_with(lines[0], content_length_name()) {
        match parse_uint_text(trim(lines[0].skip(content_length_name().len() as int)), usize::MAX as nat) {
            Some(v) => v,
            None => 0,
        }
    } else {
        announced_length(lines.drop_first())
    }
}

/// A message is complete when its header has ended (`\r\n\r\n`), the header up to that
/// mark is UTF-8, and at least the announced body length follows the mark.
pub open spec fn message_complete(b: Seq<u8>) -> bool {
    match find_from(b, header_end_mark(), 0) {
        None => false,
        Some(h) => {
            let head = b.take((h + 4) as int);
            vstd::utf8::valid_utf8(head) && b.len() >= h + 4 + announced_length(lines_of(head))
        },
    }
}

/// The method and path of a request are UTF-8.
pub proof fn lemma_request_words_utf8(b: Seq<u8>)
    ensures
        request_words(b) matches Some((m, p)) ==> vstd::utf8::valid_utf8(m) && vstd::utf8::valid_utf8(p),
{
    if vstd::utf8::valid_utf8(b) {
        lemma_find_from(b, crlf(), 0);
        let end: int = match find_from(b, crlf(), 0) {
            Some(i) => {
                assert(b.subrange(i as int, (i + 2) as int)[0] == b[i as int]);
                i as int
            },
            None => b.len() as int,
        };
        lemma_utf8_split(b, end);
        assert(b.take(end) == request_line(b));
        lemma_tokens_utf8(request_line(b));
    }
}

impl HttpRequest {
    /// Reads the method and path from the first line of `bytes`.
    pub fn parse(bytes: &[u8]) -> (r: Option<HttpRequest>)
        ensures
            match request_words(bytes@) {
                Some((m, p)) => r matches Some(req) && req.method@ == vstd::utf8::decode_utf8(m)
                    && req.path@ == vstd::utf8::decode_utf8(p),
                None => r is None,
            },
    {
        if !utf8_is_valid(bytes) {
            return None;
        }
        proof {
            lemma_find_from(bytes@, crlf(), 0);
        }
        let mark = [13u8, 10];
        assert(mark@ =~= crlf());
        let end = match find_bytes(bytes, &mark) {
            Some(i) => {
                assert(bytes@.subrange(i as int, i + 2)[0] == bytes@[i as int]);
                i
            },
            None => bytes.len(),
        };
        let line = slice_range(bytes, 0, end);
        assert(line@ =~= request_line(bytes@));
        proof {
            lemma_utf8_split(bytes@, end as int);
            assert(bytes@.take(end as int) =~= line@);
            lemma_tokens_utf8(line@);
        }
        let toks = token_ranges(line);
        if toks.len() < 2 {
            return None;
        }
        let (a0, b0) = toks[0];
        let (a1, b1) = toks[1];
        let m = copy_range(line, a0, b0);
        let p = copy_range(line, a1, b1);
        proof {
            assert(vstd::utf8::valid_utf8(tokens(line@)[0]));
            assert(vstd::utf8::valid_utf8(tokens(line@)[1]));
        }
        let method = utf8_to_string(m);
        let path = utf8_to_string(p);
        Some(HttpRequest { method, path })
    }
}

impl HttpResponse {
    /// `200 OK` with `body`.
    pub fn ok(body: Vec<u8>) -> (r: HttpResponse)
        ensures
            r.status_code == 200,
            r.reason@ == "OK"@,
            r.body@ == body@,
    {
        HttpResponse { status_code: 200, reason: "OK", body }
    }

    /// `404 Not Found` with `body`.
    pub fn not_found(body: Vec<u8>) -> (r: HttpResponse)
        ensures
            r.status_code == 404,
            r.reason@ == "Not Found"@,
            r.body@ == body@,
    {
        HttpResponse { status_code: 404, reason: "Not Found", body }
    }

    /// The bytes of this response.
    pub fn encode(&self) -> (r: Vec<u8>)
        ensures
            r@ == response_bytes(self.status_code, self.reason.spec_bytes(), self.body@),
    {
        let mut out: Vec<u8> = Vec::new();
        append_lit(&mut out, &[72, 84, 84, 80, 47, 49, 46, 49, 32]);
        push_decimal(&mut out, self.status_code as u64);
        out.push(32);
        append_lit(&mut out, self.reason.as_bytes());
        append_lit(&mut out, &[13, 10, 67, 111, 110, 116, 101, 110, 116, 45, 76, 101, 110, 103, 116, 104, 58, 32]);
        push_decimal(&mut out, self.body.len() as u64);
        append_lit(
            &mut out,
            &[13, 10, 67, 111, 110, 110, 101, 99, 116, 105, 111, 110, 58, 32, 99, 108, 111, 115, 101, 13, 10, 13, 10],
        );
        append_bytes(&mut out, self.body.as_slice());
        assert(out@ =~= response_bytes(self.status_code, self.reason.spec_bytes(), self.body@));
        out
    }
}

/// The bytes of a GET request for `path` on `host`.
pub fn build_get_request(path: &str, host: &str) -> (r: Vec<u8>)
    ensures
        r@ == get_request_bytes(path.spec_bytes(), host.spec_bytes()),
{
    let mut out: Vec<u8> = Vec::new();
    append_lit(&mut out, &[71, 69, 84, 32]);
    append_lit(&mut out, path.as_bytes());
    append_lit(&mut out, &[32, 72, 84, 84, 80, 47, 49, 46, 49, 13, 10, 72, 111, 115, 116, 58, 32]);
    append_lit(&mut out, host.as_bytes());
    append_lit(
        &mut out,
        &[13, 10, 67, 111, 110, 110, 101, 99, 116, 105, 111, 110, 58, 32, 99, 108, 111, 115, 101, 13, 10, 13, 10],
    );
    assert(out@ =~= get_request_bytes(path.spec_bytes(), host.spec_bytes()));
    out
}

/// The body length announced by the header `bytes[..end]`.
fn announced_length_of(bytes: &[u8], end: usize) -> (r: usize)
    requires
        end <= bytes@.len(),
    ensures
        r == announced_length(lines_of(bytes@.take(end as int))),
{
    let ghost head = bytes@.take(end as int);
    let mut pos: usize = 0;
    assert(head.skip(0) =~= head);
    while pos < end
        invariant
            pos <= end <= bytes@.len(),
            head == bytes@.take(end as int),
            announced_length(lines_of(head)) == announced_length(lines_of(head.skip(pos as int))),
        decreases end - pos,
    {
        let ghost rest = head.skip(pos as int);
        let rest_bytes = slice_range(bytes, pos, end);
        assert(rest_bytes@ =~= rest);
        proof {
            lemma_find_from(rest, seq![10u8], 0);
        }
        let newline = [10u8];
        assert(newline@ =~= seq![10u8]);
        let found = find_bytes(rest_bytes, &newline);
        let (line_end, next) = match found {
            Some(i) => {
                let le = if i > 0 && bytes[pos + i - 1] == 13 { pos + i - 1 } else { pos + i };
                assert(bytes@.subrange(pos as int, le as int) =~= strip_cr(rest.take(i as int)));
                assert(rest.skip(i + 1) =~= head.skip(pos + i + 1));
                assert(lines_of(rest) == seq![strip_cr(rest.take(i as int))] + lines_of(rest.skip(i + 1)));
                (le, pos + i + 1)
            },
            None => {
                assert(bytes@.subrange(pos as int, end as int) =~= rest);
                assert(head.skip(end as int) =~= Seq::<u8>::empty());
                assert(lines_of(head.skip(end as int)) =~= Seq::<Seq<u8>>::empty());
                assert(lines_of(rest) == seq![rest]);
                (end, end)
            },
        };
        let ghost line = bytes@.subrange(pos as int, line_end as int);
        assert(lines_of(rest)[0] == line);
        assert(lines_of(rest).drop_first() =~= lines_of(head.skip(next as int)));
        if line_end - pos >= 16 && range_is(bytes, (pos, pos + 16), &[67, 111, 110, 116, 101, 110, 116, 45, 76, 101, 110, 103, 116, 104, 58, 32]) {
            assert(line.take(16) =~= bytes@.subrange(pos as int, pos + 16));
            let (a, z) = trim_range(bytes, pos + 16, line_end);
            assert(line.skip(16) =~= bytes@.subrange(pos + 16, line_end as int));
            let v = parse_uint(bytes, a, z, usize::MAX as u64);
            return match v {
                Some(n) => n as usize,
                None => 0,
            };
        }
        proof {
            if line.len() >= 16 {
                assert(line.take(16) =~= bytes@.subrange(pos as int, pos + 16));
            }
        }
        pos = next;
    }
    assert(head.skip(pos as int) =~= Seq::<u8>::empty());
    0
}

/// Whether `bytes` hold a whole message: a complete header and the body it announces.
pub fn http_message_complete(bytes: &[u8]) -> (r: bool)
    ensures
        r == message_complete(bytes@),
{
    let total = bytes.len();
    let mark = [13u8, 10, 13, 10];
    assert(mark@ =~= header_end_mark());
    let header_end = match find_bytes(bytes, &mark) {
        Some(h) => h,
        None => return false,
    };
    assert(find_from(bytes@, header_end_mark(), 0) == Some(header_end as nat));
    proof {
        lemma_find_from(bytes@, header_end_mark(), 0);
    }
    let head_len = header_end + 4;
    let head = slice_range(bytes, 0, head_len);
    assert(head@ =~= bytes@.take(head_len as int));
    if !utf8_is_valid(head) {
        return false;
    }
    let length = announced_length_of(bytes, head_len);
    total - head_len >= length
}


/// Text on one line: no `\r` and no `\n` in it.
pub open spec fn single_line(s: Seq<u8>) -> bool {
    forall|i: int| 0 <= i < s.len() ==> #[trigger] s[i] != 13 && s[i] != 10
}

/// `Connection: close`
pub open spec fn connection_close() -> Seq<u8> {
    seq![67u8, 111, 110, 110, 101, 99, 116, 105, 111, 110, 58, 32, 99, 108, 111, 115, 101]
}

/// The lines of a header `a \r\n b \r\n rest` start with `a` and `b`.
proof fn lemma_first_two_lines(a: Seq<u8>, b: Seq<u8>, rest: Seq<u8>)
    requires
        single_line(a),
        single_line(b),
    ensures
        lines_of(a + crlf() + b + crlf() + rest).len() >= 2,
        lines_of(a + crlf() + b + crlf() + rest)[0] == a,
        lines_of(a + crlf() + b + crlf() + rest).drop_first()[0] == b,
{
    let head = a + crlf() + b + crlf() + rest;
    let nl = seq![10u8];
    assert forall|j: int| 0 <= j < a.len() + 1 implies #[trigger] head.subrange(j, j + nl.len()) != nl by {
        assert(head.subrange(j, j + 1)[0] == head[j]);
    }
    assert(head.subrange(a.len() + 1 as int, a.len() + 2 as int) =~= nl);
    lemma_find_at(head, nl, (a.len() + 1) as nat);
    assert(strip_cr(head.take(a.len() + 1 as int)) =~= a);
    let tail = head.skip(a.len() + 2 as int);
    assert(tail =~= b + crlf() + rest);
    assert forall|j: int| 0 <= j < b.len() + 1 implies #[trigger] tail.subrange(j, j + nl.len()) != nl by {
        assert(tail.subrange(j, j + 1)[0] == tail[j]);
    }
    assert(tail.subrange(b.len() + 1 as int, b.len() + 2 as int) =~= nl);
    lemma_find_at(tail, nl, (b.len() + 1) as nat);
    assert(strip_cr(tail.take(b.len() + 1 as int)) =~= b);
    assert(lines_of(head) == seq![a] + lines_of(tail));
    assert(lines_of(tail) == seq![b] + lines_of(tail.skip(b.len() + 2 as int)));
    assert((seq![a] + lines_of(tail)).drop_first() =~= lines_of(tail));
}

/// The body length announced by the header of a response is the length of its body.
proof fn lemma_announced_body_length(a: Seq<u8>, len: nat, rest: Seq<u8>)
    requires
        single_line(a),
        a.len() > 0,
        a[0] == 72,
        len <= usize::MAX,
    ensures
        announced_length(lines_of(a + crlf() + (content_length_name() + decimal_text(len)) + crlf() + rest)) == len,
{
    let b = content_length_name() + decimal_text(len);
    lemma_decimal_text(len);
    let d = decimal_text(len);
    assert(single_line(b)) by {
        assert forall|i: int| 0 <= i < b.len() implies #[trigger] b[i] != 13 && b[i] != 10 by {
            if i >= 16 {
                assert(is_digit(d[i - 16]));
            }
        }
    }
    lemma_first_two_lines(a, b, rest);
    let lines = lines_of(a + crlf() + b + crlf() + rest);
    assert(!starts_with(a, content_length_name())) by {
        if starts_with(a, content_length_name()) {
            assert(a.take(16)[0] == a[0]);
        }
    }
    assert(announced_length(lines) == announced_length(lines.drop_first()));
    assert(b.take(16) =~= content_length_name());
    assert(b.skip(16) =~= d);
    assert(is_digit(d[0]));
    assert(is_digit(d[d.len() - 1]));
    assert(ws_len(d) == 0);
    assert(trim_start(d) == d);
    assert(ws_len_back(d) == 0);
    assert(trim(d) == d);
    lemma_parse_decimal_text(len, usize::MAX as nat);
}

/// In `a \r\n b \r\n c tail`, with `a`, `b`, `c` on one line and `b`, `c` starting with
/// `C`, no `\r\n\r\n` starts before the end of `c`: each `\r` there is followed, two
/// bytes on, by a `C`.
proof fn lemma_no_early_mark(a: Seq<u8>, b: Seq<u8>, c: Seq<u8>, tail: Seq<u8>, k: int)
    requires
        single_line(a),
        single_line(b),
        single_line(c),
        b.len() > 0,
        b[0] == 67,
        c.len() > 0,
        c[0] == 67,
        0 <= k <= (a + crlf() + b + crlf() + c + tail).len(),
    ensures
        forall|j: int| 0 <= j < a.len() + b.len() + c.len() + 4 && j + 4 <= k
            ==> #[trigger] (a + crlf() + b + crlf() + c + tail).take(k).subrange(j, j + header_end_mark().len()) != header_end_mark(),
{
    let r = a + crlf() + b + crlf() + c + tail;
    let t = r.take(k);
    let mark = header_end_mark();
    assert forall|j: int| 0 <= j < a.len() + b.len() + c.len() + 4 && j + 4 <= k
        implies #[trigger] t.subrange(j, j + mark.len()) != mark by {
        if t.subrange(j, j + 4) == mark {
            assert(t.subrange(j, j + 4)[0] == r[j]);
            assert(t.subrange(j, j + 4)[2] == r[j + 2]);
            assert(r[j] == 13 && r[j + 2] == 13);
            if j < a.len() {
                assert(r[j] == a[j]);
            } else if j == a.len() {
                assert(r[j + 2] == b[0]);
            } else if j == a.len() + 1 {
            } else if j < a.len() + 2 + b.len() {
                assert(r[j] == b[j - a.len() - 2]);
            } else if j == a.len() + 2 + b.len() {
                assert(r[j + 2] == c[0]);
            } else if j == a.len() + 3 + b.len() {
            } else {
                assert(r[j] == c[j - a.len() - 4 - b.len()]);
            }
        }
    }
}

/// The header of a response, `p reason q`, is UTF-8 when its reason is: the rest is ASCII.
proof fn lemma_header_utf8(dc: Seq<u8>, reason: Seq<u8>, d: Seq<u8>)
    requires
        all_digits(dc),
        all_digits(d),
        vstd::utf8::valid_utf8(reason),
    ensures
        vstd::utf8::valid_utf8(
            status_line_start() + dc + seq![32u8] + reason
                + (crlf() + (content_length_name() + d) + crlf() + (connection_close() + crlf() + crlf())),
        ),
{
    let p = status_line_start() + dc + seq![32u8];
    let q = crlf() + (content_length_name() + d) + crlf() + (connection_close() + crlf() + crlf());
    assert forall|i: int| 0 <= i < p.len() implies #[trigger] p[i] < 0x80 by {
        if 9 <= i < 9 + dc.len() {
            assert(is_digit(dc[i - 9]));
        }
    }
    assert forall|i: int| 0 <= i < q.len() implies #[trigger] q[i] < 0x80 by {
        if 18 <= i < 18 + d.len() {
            assert(is_digit(d[i - 18]));
        }
    }
    crate::text::lemma_ascii_valid_utf8(p);
    crate::text::lemma_ascii_valid_utf8(q);
    vstd::utf8::valid_utf8_concat(p, reason);
    vstd::utf8::valid_utf8_concat(p + reason, q);
}

/// A response is complete exactly when all of it has arrived: of the bytes `encode` gives
/// for any status, UTF-8 reason on one line and body, no shorter prefix is a complete
/// message and the whole is one.
pub proof fn lemma_response_complete_exactly_when_whole(code: u16, reason: Seq<u8>, body: Seq<u8>, k: nat)
    requires
        single_line(reason),
        vstd::utf8::valid_utf8(reason),
        body.len() <= usize::MAX,
        k <= response_bytes(code, reason, body).len(),
    ensures
        message_complete(response_bytes(code, reason, body).take(k as int)) <==> k == response_bytes(code, reason, body).len(),
{
    lemma_decimal_text(code as nat);
    lemma_decimal_text(body.len());
    let dc = decimal_text(code as nat);
    let d = decimal_text(body.len());
    let p = status_line_start() + dc + seq![32u8];
    let a = p + reason;
    let b = content_length_name() + d;
    let c = connection_close();
    let tail = crlf() + crlf() + body;
    let r = response_bytes(code, reason, body);
    assert(r =~= a + crlf() + b + crlf() + c + tail);
    assert(single_line(a)) by {
        assert forall|i: int| 0 <= i < a.len() implies #[trigger] a[i] != 13 && a[i] != 10 by {
            if i < p.len() {
                assert(a[i] == p[i]);
                if 9 <= i < 9 + dc.len() {
                    assert(is_digit(dc[i - 9]));
                }
            } else {
                assert(a[i] == reason[i - p.len()]);
            }
        }
    }
    assert(single_line(b)) by {
        assert forall|i: int| 0 <= i < b.len() implies #[trigger] b[i] != 13 && b[i] != 10 by {
            if i >= 16 {
                assert(is_digit(d[i - 16]));
            }
        }
    }
    let h: nat = a.len() + b.len() + c.len() + 4;
    let mark = header_end_mark();
    let t = r.take(k as int);
    lemma_no_early_mark(a, b, c, tail, k as int);
    if k < h + 4 {
        lemma_find_from(t, mark, 0);
        match find_from(t, mark, 0) {
            Some(m) => {
                assert(t.subrange(m as int, (m + mark.len()) as int) != mark);
            },
            None => {},
        }
    } else {
        assert(t.subrange(h as int, h + 4 as int) =~= mark);
        lemma_find_at(t, mark, h);
        let head = t.take(h + 4 as int);
        assert(head =~= a + crlf() + b + crlf() + (c + crlf() + crlf()));
        lemma_header_utf8(dc, reason, d);
        assert(head =~= p + reason + (crlf() + b + crlf() + (c + crlf() + crlf())));
        assert(a[0] == 72);
        lemma_announced_body_length(a, body.len(), c + crlf() + crlf());
    }
}

/// The bytes `encode` gives for a status, a UTF-8 reason on one line and a body form a
/// complete message.
pub proof fn lemma_response_complete(code: u16, reason: Seq<u8>, body: Seq<u8>)
    requires
        single_line(reason),
        vstd::utf8::valid_utf8(reason),
        body.len() <= usize::MAX,
    ensures
        message_complete(response_bytes(code, reason, body)),
{
    let r = response_bytes(code, reason, body);
    lemma_response_complete_exactly_when_whole(code, reason, body, r.len());
    assert(r.take(r.len() as int) =~= r);
}

/// Bytes arriving after a complete message leave it complete.
pub proof fn lemma_complete_stays_complete(b: Seq<u8>, c: Seq<u8>)
    requires
        message_complete(b),
    ensures
        message_complete(b + c),
{
    let mark = header_end_mark();
    lemma_find_from(b, mark, 0);
    let h = find_from(b, mark, 0)->0;
    let s = b + c;
    assert forall|j: int| 0 <= j < h implies #[trigger] s.subrange(j, j + mark.len()) != mark by {
        assert(s.subrange(j, j + mark.len()) =~= b.subrange(j, j + mark.len()));
    }
    assert(s.subrange(h as int, (h + mark.len()) as int) =~= b.subrange(h as int, (h + mark.len()) as int));
    lemma_find_at(s, mark, h);
    assert(s.take(h + 4 as int) =~= b.take(h + 4 as int));
}

/// `HTTP/1.1`
pub open spec fn http_version() -> Seq<u8> {
    seq![72u8, 84, 84, 80, 47, 49, 46, 49]
}

/// A GET request built for a non-empty UTF-8 path with no whitespace in it reads back as
/// that method and path, whatever UTF-8 host it names.
pub proof fn lemma_get_request_words(path: Seq<u8>, host: Seq<u8>)
    requires
        path.len() > 0,
        vstd::utf8::valid_utf8(path),
        crate::text::no_whitespace(path),
        vstd::utf8::valid_utf8(host),
    ensures
        request_words(get_request_bytes(path, host)) == Some((seq![71u8, 69, 84], path)),
{
    let g = get_request_bytes(path, host);
    let get = seq![71u8, 69, 84];
    let line = get + seq![32u8] + path + seq![32u8] + http_version();
    let rest = seq![10u8, 72, 111, 115, 116, 58, 32] + host + header_close();
    assert(g =~= line + seq![13u8] + rest);
    let e = line.len();
    // No byte of the path is `\r`: that would be whitespace.
    assert forall|i: int| 0 <= i < path.len() implies #[trigger] path[i] != 13 by {
        assert(crate::text::ws_len(path.skip(i)) == 0);
        assert(path.skip(i)[0] == path[i]);
    }
    // The first `\r\n` ends the request line.
    assert forall|j: int| 0 <= j < e implies #[trigger] g.subrange(j, j + crlf().len()) != crlf() by {
        assert(g.subrange(j, j + 2)[0] == g[j]);
        if 4 <= j < 4 + path.len() {
            assert(g[j] == path[j - 4]);
        }
    }
    assert(g.subrange(e as int, e + 2 as int) =~= crlf());
    lemma_find_at(g, crlf(), e);
    assert(request_line(g) =~= line);
    // Its words.
    assert(crate::text::all_graphic(get));
    crate::text::lemma_tokens_word(get, 32u8, path + seq![32u8] + http_version());
    assert(line =~= get + seq![32u8] + (path + seq![32u8] + http_version()));
    crate::text::lemma_tokens_word_no_whitespace(path, http_version());
    let t = tokens(line);
    assert(t == seq![get] + (seq![path] + tokens(http_version())));
    // The whole request is UTF-8.
    let p0 = get + seq![32u8];
    let p1 = seq![32u8] + http_version() + seq![13u8, 10, 72, 111, 115, 116, 58, 32];
    let q = header_close();
    assert forall|i: int| 0 <= i < p0.len() implies #[trigger] p0[i] < 0x80 by {}
    assert forall|i: int| 0 <= i < p1.len() implies #[trigger] p1[i] < 0x80 by {}
    assert forall|i: int| 0 <= i < q.len() implies #[trigger] q[i] < 0x80 by {}
    crate::text::lemma_ascii_valid_utf8(p0);
    crate::text::lemma_ascii_valid_utf8(p1);
    crate::text::lemma_ascii_valid_utf8(q);
    vstd::utf8::valid_utf8_concat(p0, path);
    vstd::utf8::valid_utf8_concat(p0 + path, p1);
    vstd::utf8::valid_utf8_concat(p0 + path + p1, host);
    vstd::utf8::valid_utf8_concat(p0 + path + p1 + host, q);
    assert(g =~= p0 + path + p1 + host + q);
}

/// The round trip in text: a GET request built for a non-empty path with no whitespace
/// parses (by `HttpRequest::parse`) to the method `GET` and that very path.
pub proof fn lemma_get_request_round_trip(path: &str, host: &str)
    requires
        path.spec_bytes().len() > 0,
        crate::text::no_whitespace(path.spec_bytes()),
    ensures
        request_words(get_request_bytes(path.spec_bytes(), host.spec_bytes())) == Some((seq![71u8, 69, 84], path.spec_bytes())),
        vstd::utf8::decode_utf8(path.spec_bytes()) == path@,
        vstd::utf8::decode_utf8(seq![71u8, 69, 84]) == "GET"@,
{
    vstd::utf8::encode_utf8_valid_utf8(path@);
    vstd::utf8::encode_utf8_valid_utf8(host@);
    vstd::utf8::encode_utf8_decode_utf8(path@);
    lemma_get_request_words(path.spec_bytes(), host.spec_bytes());
    let get = seq![71u8, 69, 84];
    crate::text::lemma_ascii_decode(get);
    reveal_strlit("GET");
    assert(vstd::utf8::decode_utf8(get) =~= "GET"@);
}

} // verus!
