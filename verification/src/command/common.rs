//! What the commands share: the lines typed at a chat prompt, the routes of the HTTP
//! server, and the names of the state files.
use vstd::prelude::*;
use vstd::string::StringSliceAdditionalSpecFns;

use crate::application::http::{HttpRequest, HttpResponse};
use crate::application::router::InterfaceLinkMode;
use crate::internet::addr::{ipv4_of, socket_of, socket_text, u16_of, Ipv4Addr, SocketAddrV4};
use crate::text::{
    append_lit, ascii_to_string, bytes_of, decimal_text, lemma_graphic_ascii, lemma_graphic_concat, lemma_graphic_decimal,
    parse_ipv4, parse_uint, push_decimal, range_is, skip_ws, slice_range, starts_with, token_ranges, tokens, trim,
    trim_range, trim_start, all_graphic,
};

verus! {

/// `GET`
pub open spec fn kw_get() -> Seq<u8> {
    seq![71u8, 69, 84]
}

/// `/`
pub open spec fn root_path() -> Seq<u8> {
    seq![47u8]
}

/// `/hello`
pub open spec fn hello_path() -> Seq<u8> {
    seq![47u8, 104, 101, 108, 108, 111]
}

/// `hello from tcpip_userland http server\n`
pub open spec fn root_body() -> Seq<u8> {
    seq![
        104u8, 101, 108, 108, 111, 32, 102, 114, 111, 109, 32, 116, 99, 112, 105, 112, 95, 117, 115, 101, 114, 108, 97,
        110, 100, 32, 104, 116, 116, 112, 32, 115, 101, 114, 118, 101, 114, 10,
    ]
}

/// `hello\n`
pub open spec fn hello_body() -> Seq<u8> {
    seq![104u8, 101, 108, 108, 111, 10]
}

/// `not found\n`
pub open spec fn not_found_body() -> Seq<u8> {
    seq![110u8, 111, 116, 32, 102, 111, 117, 110, 100, 10]
}

/// The status and body the HTTP server answers a request with: `GET /` and `GET /hello`
/// are found; anything else is not.
pub open spec fn route_spec(method: Seq<u8>, path: Seq<u8>) -> (u16, Seq<u8>) {
    if method == kw_get() && path == root_path() {
        (200, root_body())
    } else if method == kw_get() && path == hello_path() {
        (200, hello_body())
    } else {
        (404, not_found_body())
    }
}

/// The HTTP server's answer to `request`.
pub fn route_request(request: &HttpRequest) -> (r: HttpResponse)
    ensures
        ({
            let (code, body) = route_spec(vstd::utf8::encode_utf8(request.method@), vstd::utf8::encode_utf8(request.path@));
            &&& r.status_code == code
            &&& r.body@ == body
            &&& r.reason@ == if code == 200 { "OK"@ } else { "Not Found"@ }
        }),
{
    let m = request.method.as_str().as_bytes();
    let p = request.path.as_str().as_bytes();
    assert(m@.subrange(0, m@.len() as int) =~= m@);
    assert(p@.subrange(0, p@.len() as int) =~= p@);
    let get = [71u8, 69, 84];
    let root = [47u8];
    let hello = [47u8, 104, 101, 108, 108, 111];
    assert(get@ =~= kw_get());
    assert(root@ =~= root_path());
    assert(hello@ =~= hello_path());
    if range_is(m, (0, m.len()), &get) {
        if range_is(p, (0, p.len()), &root) {
            return HttpResponse::ok(
                bytes_of(
                    &[
                        104, 101, 108, 108, 111, 32, 102, 114, 111, 109, 32, 116, 99, 112, 105, 112, 95, 117, 115, 101, 114,
                        108, 97, 110, 100, 32, 104, 116, 116, 112, 32, 115, 101, 114, 118, 101, 114, 10,
                    ],
                ),
            );
        }
        if range_is(p, (0, p.len()), &hello) {
            return HttpResponse::ok(bytes_of(&[104, 101, 108, 108, 111, 10]));
        }
    }
    let r = HttpResponse::not_found(bytes_of(&[110, 111, 116, 32, 102, 111, 117, 110, 100, 10]));
    assert(r.body@ == not_found_body());
    r
}

/// Why a command line was refused.
#[derive(Clone, Copy, Debug, PartialEq, Eq, Structural)]
pub enum CommandError {
    SendUsage,
    PingUsage,
    InvalidDestinationIp,
    InvalidDestinationPort,
}

impl CommandError {
    /// The message shown for the error.
    pub fn message(&self) -> (r: &'static str)
        ensures
            r@ == match *self {
                CommandError::SendUsage => "use: send <dst-ip> <dst-port> <message>"@,
                CommandError::PingUsage => "use: /ping <dst-ip>"@,
                CommandError::InvalidDestinationIp => "invalid destination ip"@,
                CommandError::InvalidDestinationPort => "invalid destination port"@,
            },
    {
        match *self {
            CommandError::SendUsage => "use: send <dst-ip> <dst-port> <message>",
            CommandError::PingUsage => "use: /ping <dst-ip>",
            CommandError::InvalidDestinationIp => "invalid destination ip",
            CommandError::InvalidDestinationPort => "invalid destination port",
        }
    }
}

/// `send`
pub open spec fn kw_send() -> Seq<u8> {
    seq![115u8, 101, 110, 100]
}

/// `/ping`
pub open spec fn kw_ping() -> Seq<u8> {
    seq![47u8, 112, 105, 110, 103]
}

/// `/quit`
pub open spec fn kw_quit() -> Seq<u8> {
    seq![47u8, 113, 117, 105, 116]
}

/// What follows the words `w0`, `w1`, `w2` of `t`: each is stripped as a prefix after the
/// whitespace before it, and the whitespace after the last is trimmed; `None` when a word
/// is not where it should be.
pub open spec fn after_three_words(t: Seq<u8>, w0: Seq<u8>, w1: Seq<u8>, w2: Seq<u8>) -> Option<Seq<u8>> {
    if !starts_with(t, w0) {
        None
    } else {
        let r1 = trim_start(t.skip(w0.len() as int));
        if !starts_with(r1, w1) {
            None
        } else {
            let r2 = trim_start(r1.skip(w1.len() as int));
            if !starts_with(r2, w2) {
                None
            } else {
                Some(trim_start(r2.skip(w2.len() as int)))
            }
        }
    }
}

/// How a line `send <dst-ip> <dst-port> <message>` reads: the trimmed line's first word
/// must be `send` and two more must follow; the address and the port must parse; the
/// message is the rest of the line after the port, and must not be empty.
pub open spec fn send_command_of(line: Seq<u8>) -> Result<(Ipv4Addr, u16, Seq<u8>), CommandError> {
    let t = trim(line);
    let w = tokens(t);
    if w.len() == 0 || w[0] != kw_send() || w.len() < 3 {
        Err(CommandError::SendUsage)
    } else {
        match ipv4_of(w[1]) {
            None => Err(CommandError::InvalidDestinationIp),
            Some(ip) => match u16_of(w[2]) {
                None => Err(CommandError::InvalidDestinationPort),
                Some(port) => match after_three_words(t, w[0], w[1], w[2]) {
                    Some(rest) => if rest.len() > 0 {
                        Ok((ip, port, rest))
                    } else {
                        Err(CommandError::SendUsage)
                    },
                    None => Err(CommandError::SendUsage),
                },
            },
        }
    }
}

/// How a line `/ping <dst-ip>` reads.
pub open spec fn ping_command_of(line: Seq<u8>) -> Result<Ipv4Addr, CommandError> {
    let w = tokens(line);
    if w.len() == 0 || w[0] != kw_ping() || w.len() < 2 {
        Err(CommandError::PingUsage)
    } else {
        match ipv4_of(w[1]) {
            None => Err(CommandError::InvalidDestinationIp),
            Some(ip) => Ok(ip),
        }
    }
}

/// Whether `t[start..]` begins with `t[w.0..w.1]`; the end of that prefix.
fn strip_word(t: &[u8], start: usize, w: (usize, usize)) -> (r: Option<usize>)
    requires
        start <= t@.len(),
        w.0 <= w.1 <= t@.len(),
    ensures
        match r {
            Some(e) => starts_with(t@.skip(start as int), t@.subrange(w.0 as int, w.1 as int)) && e == start + (w.1 - w.0)
                && e <= t@.len(),
            None => !starts_with(t@.skip(start as int), t@.subrange(w.0 as int, w.1 as int)),
        },
{
    let len = w.1 - w.0;
    if len > t.len() - start {
        return None;
    }
    let word = slice_range(t, w.0, w.1);
    let same = range_is(t, (start, start + len), word);
    assert(t@.skip(start as int).take(len as int) =~= t@.subrange(start as int, start + len));
    if same {
        Some(start + len)
    } else {
        None
    }
}

/// Reads a line `send <dst-ip> <dst-port> <message>`.
pub fn parse_send_command(line: &str) -> (r: Result<(Ipv4Addr, u16, Vec<u8>), CommandError>)
    ensures
        match send_command_of(line.spec_bytes()) {
            Ok((ip, port, payload)) => r matches Ok((i, p, v)) && i == ip && p == port && v@ == payload,
            Err(e) => r == Err::<(Ipv4Addr, u16, Vec<u8>), CommandError>(e),
        },
{
    let b = line.as_bytes();
    let (a, z) = trim_range(b, 0, b.len());
    assert(b@.subrange(0, b@.len() as int) =~= b@);
    let t = slice_range(b, a, z);
    let w = token_ranges(t);
    let send = [115u8, 101, 110, 100];
    assert(send@ =~= kw_send());
    if w.len() == 0 || !range_is(t, w[0], &send) || w.len() < 3 {
        return Err(CommandError::SendUsage);
    }
    let ip = match parse_ipv4(t, w[1].0, w[1].1) {
        Some((p, q, u, v)) => Ipv4Addr(p, q, u, v),
        None => return Err(CommandError::InvalidDestinationIp),
    };
    let port = match parse_uint(t, w[2].0, w[2].1, 65535) {
        Some(p) => p as u16,
        None => return Err(CommandError::InvalidDestinationPort),
    };
    match rest_after_words(t, w[0], w[1], w[2]) {
        Some(p3) => {
            if p3 == t.len() {
                return Err(CommandError::SendUsage);
            }
            let payload = crate::bytes::copy_range(t, p3, t.len());
            Ok((ip, port, payload))
        },
        None => Err(CommandError::SendUsage),
    }
}

/// Where the rest of `t` after the words at `w0`, `w1`, `w2` begins, as
/// `after_three_words` gives it.
fn rest_after_words(t: &[u8], w0: (usize, usize), w1: (usize, usize), w2: (usize, usize)) -> (r: Option<usize>)
    requires
        w0.0 <= w0.1 <= t@.len(),
        w1.0 <= w1.1 <= t@.len(),
        w2.0 <= w2.1 <= t@.len(),
    ensures
        match after_three_words(
            t@,
            t@.subrange(w0.0 as int, w0.1 as int),
            t@.subrange(w1.0 as int, w1.1 as int),
            t@.subrange(w2.0 as int, w2.1 as int),
        ) {
            Some(rest) => r matches Some(p) && p <= t@.len() && t@.skip(p as int) == rest,
            None => r is None,
        },
{
    let n = t.len();
    assert(t@.skip(0) =~= t@);
    let e0 = match strip_word(t, 0, w0) {
        Some(e) => e,
        None => return None,
    };
    let p1 = skip_ws(t, e0, n);
    assert(t@.subrange(e0 as int, n as int) =~= t@.skip(e0 as int));
    assert(t@.subrange(p1 as int, n as int) =~= t@.skip(p1 as int));
    let e1 = match strip_word(t, p1, w1) {
        Some(e) => e,
        None => return None,
    };
    assert(t@.skip(p1 as int).skip(e1 - p1) =~= t@.subrange(e1 as int, n as int));
    let p2 = skip_ws(t, e1, n);
    assert(t@.subrange(p2 as int, n as int) =~= t@.skip(p2 as int));
    let e2 = match strip_word(t, p2, w2) {
        Some(e) => e,
        None => return None,
    };
    assert(t@.skip(p2 as int).skip(e2 - p2) =~= t@.subrange(e2 as int, n as int));
    let p3 = skip_ws(t, e2, n);
    assert(t@.subrange(p3 as int, n as int) =~= t@.skip(p3 as int));
    Some(p3)
}

/// Reads a line `/ping <dst-ip>`.
pub fn parse_ping_command(line: &str) -> (r: Result<Ipv4Addr, CommandError>)
    ensures
        r == ping_command_of(line.spec_bytes()),
{
    let b = line.as_bytes();
    let w = token_ranges(b);
    let ping = [47u8, 112, 105, 110, 103];
    assert(ping@ =~= kw_ping());
    if w.len() == 0 || !range_is(b, w[0], &ping) || w.len() < 2 {
        return Err(CommandError::PingUsage);
    }
    match parse_ipv4(b, w[1].0, w[1].1) {
        Some((p, q, u, v)) => Ok(Ipv4Addr(p, q, u, v)),
        None => Err(CommandError::InvalidDestinationIp),
    }
}

/// A line typed at the chat prompt.
#[derive(Clone, Debug, PartialEq, Eq)]
pub enum ChatCommand {
    Quit,
    Ping(Ipv4Addr),
    Send { dst_ip: Ipv4Addr, dst_port: u16, payload: Vec<u8> },
    Invalid(CommandError),
    Empty,
}

/// How the chat reads a line: `/quit` ends it; a line that starts with `/ping` is a ping;
/// any other line that is not empty is a send.
pub fn chat_command(line: &str) -> (r: ChatCommand)
    ensures
        ({
            let b = line.spec_bytes();
            if b == kw_quit() {
                r == ChatCommand::Quit
            } else if starts_with(b, kw_ping()) {
                match ping_command_of(b) {
                    Ok(ip) => r == ChatCommand::Ping(ip),
                    Err(e) => r == ChatCommand::Invalid(e),
                }
            } else if b.len() > 0 {
                match send_command_of(b) {
                    Ok((ip, port, payload)) => r matches ChatCommand::Send { dst_ip, dst_port, payload: v } && dst_ip == ip
                        && dst_port == port && v@ == payload,
                    Err(e) => r == ChatCommand::Invalid(e),
                }
            } else {
                r == ChatCommand::Empty
            }
        }),
{
    let b = line.as_bytes();
    let n = b.len();
    assert(b@.subrange(0, n as int) =~= b@);
    let quit = [47u8, 113, 117, 105, 116];
    let ping = [47u8, 112, 105, 110, 103];
    assert(quit@ =~= kw_quit());
    assert(ping@ =~= kw_ping());
    if range_is(b, (0, n), &quit) {
        return ChatCommand::Quit;
    }
    if n >= 5 && range_is(b, (0, 5), &ping) {
        assert(b@.take(5) =~= b@.subrange(0, 5));
        return match parse_ping_command(line) {
            Ok(ip) => ChatCommand::Ping(ip),
            Err(e) => ChatCommand::Invalid(e),
        };
    }
    assert(n >= 5 ==> b@.take(5) =~= b@.subrange(0, 5));
    if n > 0 {
        return match parse_send_command(line) {
            Ok((dst_ip, dst_port, payload)) => ChatCommand::Send { dst_ip, dst_port, payload },
            Err(e) => ChatCommand::Invalid(e),
        };
    }
    ChatCommand::Empty
}

/// The file where a switch leaves its address for the hosts that join it.
pub fn switch_state_path() -> (r: &'static str)
    ensures
        r@ == ".tcpip_switch_addr"@,
{
    ".tcpip_switch_addr"
}

/// `.tcpip_router_uplink_`
pub open spec fn uplink_file_prefix() -> Seq<u8> {
    seq![46u8, 116, 99, 112, 105, 112, 95, 114, 111, 117, 116, 101, 114, 95, 117, 112, 108, 105, 110, 107, 95]
}

/// The name of the file where a router leaves the address of its interface that serves
/// `gateway_ip`: the prefix, then the address with `_` for each `.`.
pub open spec fn uplink_file_name(gateway_ip: Ipv4Addr) -> Seq<u8> {
    uplink_file_prefix() + decimal_text(gateway_ip.0 as nat) + seq![95u8] + decimal_text(gateway_ip.1 as nat) + seq![95u8]
        + decimal_text(gateway_ip.2 as nat) + seq![95u8] + decimal_text(gateway_ip.3 as nat)
}

/// The file where a router leaves the address of its interface that serves `gateway_ip`.
pub fn router_uplink_state_path(gateway_ip: Ipv4Addr) -> (r: String)
    ensures
        r@ == vstd::utf8::decode_utf8(uplink_file_name(gateway_ip)),
{
    let mut out: Vec<u8> = Vec::new();
    append_lit(&mut out, &[46, 116, 99, 112, 105, 112, 95, 114, 111, 117, 116, 101, 114, 95, 117, 112, 108, 105, 110, 107, 95]);
    push_decimal(&mut out, gateway_ip.0 as u64);
    out.push(95);
    push_decimal(&mut out, gateway_ip.1 as u64);
    out.push(95);
    push_decimal(&mut out, gateway_ip.2 as u64);
    out.push(95);
    push_decimal(&mut out, gateway_ip.3 as u64);
    assert(out@ =~= uplink_file_name(gateway_ip));
    proof {
        let (a, b, c, d) = (decimal_text(gateway_ip.0 as nat), decimal_text(gateway_ip.1 as nat), decimal_text(gateway_ip.2 as nat), decimal_text(gateway_ip.3 as nat));
        lemma_graphic_decimal(gateway_ip.0 as nat);
        lemma_graphic_decimal(gateway_ip.1 as nat);
        lemma_graphic_decimal(gateway_ip.2 as nat);
        lemma_graphic_decimal(gateway_ip.3 as nat);
        let u = seq![95u8];
        let pre = uplink_file_prefix();
        assert(all_graphic(pre));
        assert(all_graphic(u));
        lemma_graphic_concat(pre, a);
        lemma_graphic_concat(pre + a, u);
        lemma_graphic_concat(pre + a + u, b);
        lemma_graphic_concat(pre + a + u + b, u);
        lemma_graphic_concat(pre + a + u + b + u, c);
        lemma_graphic_concat(pre + a + u + b + u + c, u);
        lemma_graphic_concat(pre + a + u + b + u + c + u, d);
        lemma_graphic_ascii(out@);
    }
    ascii_to_string(out)
}

/// `listen`
pub open spec fn kw_listen() -> Seq<u8> {
    seq![108u8, 105, 115, 116, 101, 110]
}

/// How an interface reaches its link: `listen`, or the socket address of its uplink.
pub open spec fn link_mode_of(t: Seq<u8>) -> Option<InterfaceLinkMode> {
    if t == kw_listen() {
        Some(InterfaceLinkMode::Listen)
    } else {
        match socket_of(t) {
            Some(a) => Some(InterfaceLinkMode::Uplink(a)),
            None => None,
        }
    }
}

/// Reads how an interface reaches its link: `listen`, or the socket address of its uplink;
/// `None` when it is neither.
pub fn parse_link_mode(value: &str) -> (r: Option<InterfaceLinkMode>)
    ensures
        r == link_mode_of(value.spec_bytes()),
{
    let b = value.as_bytes();
    assert(b@.subrange(0, b@.len() as int) =~= b@);
    let listen = [108u8, 105, 115, 116, 101, 110];
    assert(listen@ =~= kw_listen());
    if range_is(b, (0, b.len()), &listen) {
        return Some(InterfaceLinkMode::Listen);
    }
    match SocketAddrV4::parse(value) {
        Some(a) => Some(InterfaceLinkMode::Uplink(a)),
        None => None,
    }
}

/// `uplink=`
pub open spec fn uplink_label() -> Seq<u8> {
    seq![117u8, 112, 108, 105, 110, 107, 61]
}

/// The text of a link mode: `listen`, or `uplink=` and the uplink's address.
pub open spec fn link_mode_text(mode: InterfaceLinkMode) -> Seq<u8> {
    match mode {
        InterfaceLinkMode::Listen => kw_listen(),
        InterfaceLinkMode::Uplink(a) => uplink_label() + socket_text(a),
    }
}

impl InterfaceLinkMode {
    /// The text of the mode.
    pub fn describe(self) -> (r: String)
        ensures
            r@ == vstd::utf8::decode_utf8(link_mode_text(self)),
    {
        let mut out: Vec<u8> = Vec::new();
        match self {
            InterfaceLinkMode::Listen => {
                append_lit(&mut out, &[108, 105, 115, 116, 101, 110]);
                assert(all_graphic(out@));
            },
            InterfaceLinkMode::Uplink(a) => {
                append_lit(&mut out, &[117, 112, 108, 105, 110, 107, 61]);
                let t = a.text_bytes();
                crate::bytes::append_bytes(&mut out, t.as_slice());
                proof {
                    crate::internet::addr::lemma_graphic_socket(a);
                    assert(all_graphic(uplink_label()));
                    lemma_graphic_concat(uplink_label(), socket_text(a));
                }
            },
        }
        assert(out@ =~= link_mode_text(self));
        proof {
            lemma_graphic_ascii(out@);
        }
        ascii_to_string(out)
    }
}

/// The address a state file holds: its text with surrounding whitespace trimmed.
pub fn state_file_addr(content: &str) -> (r: Option<SocketAddrV4>)
    ensures
        r == socket_of(trim(content.spec_bytes())),
{
    let b = content.as_bytes();
    let (start, end) = trim_range(b, 0, b.len());
    assert(b@.subrange(0, b@.len() as int) =~= b@);
    SocketAddrV4::parse_bytes(slice_range(b, start, end))
}

/// Whether a state file still holds `addr`: its trimmed text is the text of `addr`. Only
/// then does the program that wrote it remove it.
pub fn state_file_holds(content: &str, addr: SocketAddrV4) -> (r: bool)
    ensures
        r == (trim(content.spec_bytes()) == socket_text(addr)),
{
    let b = content.as_bytes();
    let (start, end) = trim_range(b, 0, b.len());
    assert(b@.subrange(0, b@.len() as int) =~= b@);
    let text = addr.text_bytes();
    range_is(b, (start, end), text.as_slice())
}

/// What a program writes to a state file, its address and a line end, reads back as that
/// address, and the program that wrote it recognizes it as its own.
pub proof fn lemma_state_file_roundtrip(a: SocketAddrV4)
    ensures
        trim(socket_text(a) + seq![10u8]) == socket_text(a),
        socket_of(trim(socket_text(a) + seq![10u8])) == Some(a),
{
    let x = socket_text(a);
    let s = x + seq![10u8];
    crate::internet::addr::lemma_ipv4_text_bytes(a.ip);
    crate::text::lemma_decimal_text(a.port as nat);
    let dp = decimal_text(a.port as nat);
    assert(x[0] == crate::text::ipv4_text(a.ip.0, a.ip.1, a.ip.2, a.ip.3)[0]);
    assert(x[x.len() - 1] == dp[dp.len() - 1]);
    assert(crate::text::is_digit(dp[dp.len() - 1]));
    assert(s[0] == x[0]);
    assert(crate::text::ws_len(s) == 0);
    assert(crate::text::trim_start(s) == s);
    assert(crate::text::ws_len_back(s) == 1);
    assert(s.take(s.len() - 1) =~= x);
    assert(crate::text::ws_len_back(x) == 0);
    assert(crate::text::trim_end(x) == x);
    assert(crate::text::trim_end(s) == x);
    crate::internet::addr::lemma_socket_text_roundtrip(a);
}

} // verus!
