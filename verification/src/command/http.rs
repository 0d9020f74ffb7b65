//! The HTTP server and client commands' work on a host: serving a connection once its
//! request has arrived whole, and a GET that sends its request once connected and gathers
//! the response.
use vstd::prelude::*;

use crate::application::http::{lemma_request_words_utf8, message_complete, request_words, response_bytes, HttpRequest};
use crate::application::stack::{established, send_tcp_spec, Host, HostView, TcpConnectionKey, TcpConnectionView};
use crate::command::common::{route_request, route_spec};
use crate::text::append_lit;

verus! {

/// The chunks of `q`, one after the other.
pub open spec fn concat_chunks(q: Seq<Seq<u8>>) -> Seq<u8>
    decreases q.len(),
{
    if q.len() == 0 {
        Seq::empty()
    } else {
        q[0] + concat_chunks(q.drop_first())
    }
}

/// Host `h` with the receive queue of connection `key` set to `q`.
pub open spec fn with_queue(h: HostView, key: TcpConnectionKey, q: Seq<Seq<u8>>) -> HostView {
    HostView { tcp_connections: h.tcp_connections.insert(key, TcpConnectionView { receive_queue: q, ..h.tcp_connections[key] }), ..h }
}

/// The data waiting on connection `key` of `h`.
pub open spec fn waiting(h: HostView, key: TcpConnectionKey) -> nat {
    if h.tcp_connections.dom().contains(key) {
        h.tcp_connections[key].receive_queue.len()
    } else {
        0
    }
}

/// The reason phrase the server gives with `code`.
pub open spec fn reason_bytes(code: u16) -> Seq<u8> {
    if code == 200 {
        vstd::utf8::encode_utf8("OK"@)
    } else {
        vstd::utf8::encode_utf8("Not Found"@)
    }
}

/// How serving a connection ended.
pub enum ServeView {
    /// The request has not arrived whole yet.
    Waiting,
    /// The request arrived and could not be read.
    Invalid,
    /// The request (method, path) was answered with this status, and the connection
    /// dropped.
    Served(Seq<u8>, Seq<u8>, u16),
}

/// Serving connection `key`: its data is taken chunk by chunk into `buf` until the buffer
/// holds a whole message; that request is answered as `route_spec` says, and the connection
/// dropped.
pub open spec fn serve_spec(h: HostView, key: TcpConnectionKey, buf: Seq<u8>) -> (HostView, Seq<u8>, ServeView)
    decreases waiting(h, key),
{
    if waiting(h, key) == 0 {
        (h, buf, ServeView::Waiting)
    } else {
        let q = h.tcp_connections[key].receive_queue;
        let h1 = with_queue(h, key, q.drop_first());
        let b1 = buf + q[0];
        if !message_complete(b1) {
            serve_spec(h1, key, b1)
        } else {
            match request_words(b1) {
                None => (h1, b1, ServeView::Invalid),
                Some((m, p)) => {
                    let (code, body) = route_spec(m, p);
                    let resp = response_bytes(code, reason_bytes(code), body);
                    let h2 = if established(h1, key) {
                        send_tcp_spec(h1, key, resp)
                    } else {
                        h1
                    };
                    (HostView { tcp_connections: h2.tcp_connections.remove(key), ..h2 }, b1, ServeView::Served(m, p, code))
                },
            }
        }
    }
}

/// A request answered: its method and path, and the status given.
pub struct HttpServed {
    pub method: String,
    pub path: String,
    pub status_code: u16,
}

/// A request that arrived whole and could not be read.
#[derive(Clone, Copy, Debug, PartialEq, Eq, Structural)]
pub enum InvalidRequest {
    NotHttp,
}

/// Serves connection `key`, gathering its data in `buffer`.
pub fn serve_connection(host: &mut Host, key: TcpConnectionKey, buffer: &mut Vec<u8>) -> (r: Result<Option<HttpServed>, InvalidRequest>)
    requires
        old(host).wf(),
    ensures
        final(host).wf(),
        final(host).name_view() == old(host).name_view(),
        ({
            let (h, b, out) = serve_spec(old(host).view(), key, old(buffer)@);
            &&& final(host).view() == h
            &&& final(buffer)@ == b
            &&& match out {
                ServeView::Waiting => r matches Ok(None),
                ServeView::Invalid => r is Err,
                ServeView::Served(m, p, code) => r matches Ok(Some(s)) && s.method@ == vstd::utf8::decode_utf8(m)
                    && s.path@ == vstd::utf8::decode_utf8(p) && s.status_code == code,
            }
        }),
{
    let ghost goal = serve_spec(host.view(), key, buffer@);
    loop
        invariant
            host.wf(),
            host.name_view() == old(host).name_view(),
            goal == serve_spec(old(host).view(), key, old(buffer)@),
            goal == serve_spec(host.view(), key, buffer@),
        decreases waiting(host.view(), key),
    {
        let ghost h0 = host.view();
        let ghost b0 = buffer@;
        let chunk = match host.recv_tcp(key) {
            Some(c) => c,
            None => return Ok(None),
        };
        assert(host.view() == with_queue(h0, key, h0.tcp_connections[key].receive_queue.drop_first()));
        append_lit(buffer, chunk.as_slice());
        if !crate::application::http::http_message_complete(buffer.as_slice()) {
            continue;
        }
        let request = match HttpRequest::parse(buffer.as_slice()) {
            Some(request) => request,
            None => return Err(InvalidRequest::NotHttp),
        };
        proof {
            lemma_request_words_utf8(buffer@);
            let (m, p) = request_words(buffer@)->0;
            vstd::utf8::decode_utf8_encode_utf8(m);
            vstd::utf8::decode_utf8_encode_utf8(p);
        }
        let response = route_request(&request);
        let bytes = response.encode();
        host.send_tcp(key, bytes);
        host.drop_tcp(key);
        return Ok(Some(HttpServed { method: request.method, path: request.path, status_code: response.status_code }));
    }
}

/// A GET on a connection: the request to send, whether it was sent, and the response so far.
pub struct HttpGet {
    pub request: Vec<u8>,
    pub sent: bool,
    pub response: Vec<u8>,
}

/// What one round of a GET did: whether it sent the request now, and whether the
/// response is complete.
#[derive(Clone, Copy, Debug, PartialEq, Eq, Structural)]
pub struct GetProgress {
    pub just_sent: bool,
    pub complete: bool,
}

/// Host `h` with every chunk waiting on `key` taken, and those chunks.
pub open spec fn drain_spec(h: HostView, key: TcpConnectionKey) -> (HostView, Seq<u8>) {
    if h.tcp_connections.dom().contains(key) {
        (with_queue(h, key, Seq::empty()), concat_chunks(h.tcp_connections[key].receive_queue))
    } else {
        (h, Seq::empty())
    }
}

/// One round of a GET: the request goes out once the connection is established, then the
/// data waiting is added to the response, which is checked for completeness.
pub open spec fn poll_spec(request: Seq<u8>, sent: bool, response: Seq<u8>, h: HostView, key: TcpConnectionKey) -> (bool, Seq<u8>, HostView, GetProgress) {
    let send_now = !sent && established(h, key);
    let h1 = if send_now {
        send_tcp_spec(h, key, request)
    } else {
        h
    };
    let (h2, data) = drain_spec(h1, key);
    let resp = response + data;
    (sent || send_now, resp, h2, GetProgress { just_sent: send_now, complete: message_complete(resp) })
}

impl HttpGet {
    /// A GET that will send `request`.
    pub fn new(request: Vec<u8>) -> (r: HttpGet)
        ensures
            r.request@ == request@,
            !r.sent,
            r.response@ == Seq::<u8>::empty(),
    {
        HttpGet { request, sent: false, response: Vec::new() }
    }

    /// One round of the GET on connection `key` of `host`.
    pub fn poll(&mut self, host: &mut Host, key: TcpConnectionKey) -> (r: GetProgress)
        requires
            old(host).wf(),
        ensures
            final(host).wf(),
            final(host).name_view() == old(host).name_view(),
            final(self).request@ == old(self).request@,
            (final(self).sent, final(self).response@, final(host).view(), r) == poll_spec(
                old(self).request@,
                old(self).sent,
                old(self).response@,
                old(host).view(),
                key,
            ),
    {
        let send_now = !self.sent && host.is_tcp_established(key);
        if send_now {
            let request = crate::bytes::copy_range(self.request.as_slice(), 0, self.request.len());
            assert(self.request@.subrange(0, self.request@.len() as int) =~= self.request@);
            host.send_tcp(key, request);
            self.sent = true;
        }
        let ghost h1 = host.view();
        let ghost r0 = self.response@;
        let ghost present = h1.tcp_connections.dom().contains(key);
        let ghost q = if present { h1.tcp_connections[key].receive_queue } else { Seq::empty() };
        let ghost mut taken: int = 0;
        assert(q.skip(0) =~= q);
        proof {
            if present {
                assert(h1.tcp_connections.insert(key, TcpConnectionView { receive_queue: q, ..h1.tcp_connections[key] }) =~= h1.tcp_connections);
                assert(with_queue(h1, key, q) == h1);
            }
        }
        loop
            invariant
                host.wf(),
                host.name_view() == old(host).name_view(),
                self.request@ == old(self).request@,
                self.sent == (old(self).sent || send_now),
                0 <= taken <= q.len(),
                present == h1.tcp_connections.dom().contains(key),
                !present ==> q == Seq::<Seq<u8>>::empty(),
                present ==> host.view() == with_queue(h1, key, q.skip(taken)),
                !present ==> host.view() == h1,
                r0 + concat_chunks(q) == self.response@ + concat_chunks(q.skip(taken)),
            ensures
                host.wf(),
                host.name_view() == old(host).name_view(),
                self.request@ == old(self).request@,
                self.sent == (old(self).sent || send_now),
                present ==> host.view() == with_queue(h1, key, Seq::empty()),
                !present ==> host.view() == h1,
                r0 + concat_chunks(q) == self.response@,
            decreases q.len() - taken,
        {
            let ghost before = self.response@;
            let ghost hv = host.view();
            match host.recv_tcp(key) {
                Some(chunk) => {
                    assert(present);
                    assert(hv.tcp_connections[key].receive_queue == q.skip(taken));
                    assert(q.skip(taken)[0] == chunk@);
                    append_lit(&mut self.response, chunk.as_slice());
                    assert(q.skip(taken).drop_first() =~= q.skip(taken + 1));
                    assert(host.view().tcp_connections =~= with_queue(h1, key, q.skip(taken + 1)).tcp_connections);
                    assert(host.view() == with_queue(h1, key, q.skip(taken + 1)));
                    assert(concat_chunks(q.skip(taken)) == chunk@ + concat_chunks(q.skip(taken + 1)));
                    assert(before + concat_chunks(q.skip(taken)) =~= self.response@ + concat_chunks(q.skip(taken + 1)));
                    proof {
                        taken = taken + 1;
                    }
                },
                None => {
                    proof {
                        if present {
                            assert(hv.tcp_connections[key].receive_queue == q.skip(taken));
                            assert(q.skip(taken) =~= Seq::<Seq<u8>>::empty());
                        } else {
                            assert(q =~= Seq::<Seq<u8>>::empty());
                            assert(q.skip(taken) =~= Seq::<Seq<u8>>::empty());
                        }
                        assert(concat_chunks(q.skip(taken)) == Seq::<u8>::empty());
                        assert(self.response@ + Seq::<u8>::empty() =~= self.response@);
                    }
                    break;
                },
            }
        }
        let complete = crate::application::http::http_message_complete(self.response.as_slice());
        GetProgress { just_sent: send_now, complete }
    }
}

} // verus!
