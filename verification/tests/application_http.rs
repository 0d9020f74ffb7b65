use tcpip_userland::application::http::{build_get_request, http_message_complete, HttpRequest, HttpResponse};
use tcpip_userland::command::common::route_request;
use tcpip_userland::command::http::{serve_connection, HttpGet};
use tcpip_userland::internet::addr::Ipv4Addr;
use tcpip_userland::link::ethernet::MacAddr;
use tcpip_userland::link::SharedMedium;
use tcpip_userland::{run_until_idle, Host};

#[test]
fn parses_get_request() {
    let request = HttpRequest::parse(b"GET /hello HTTP/1.1\r\nHost: example\r\n\r\n").unwrap();
    assert_eq!(request.method, "GET");
    assert_eq!(request.path, "/hello");
}

#[test]
fn detects_complete_http_message() {
    let response = HttpResponse::ok(b"hello".to_vec()).encode();
    assert!(http_message_complete(&response));
    assert!(!http_message_complete(b"HTTP/1.1 200 OK\r\nContent-Length: 5\r\n\r\nhe"));
}

#[test]
fn request_line_edge_cases() {
    assert!(HttpRequest::parse(b"GET\r\n\r\n").is_none());
    assert!(HttpRequest::parse(b"").is_none());
    assert!(HttpRequest::parse(&[0xff, 0x20, 0x41]).is_none());
    let r = HttpRequest::parse(b"  POST   /x/y  extra\r\nGET /z").unwrap();
    assert_eq!((r.method.as_str(), r.path.as_str()), ("POST", "/x/y"));
    let r = HttpRequest::parse("GET /caf\u{e9} HTTP/1.1".as_bytes()).unwrap();
    assert_eq!(r.path, "/caf\u{e9}");
}

#[test]
fn responses_are_encoded_exactly() {
    assert_eq!(
        HttpResponse::ok(b"hello".to_vec()).encode(),
        b"HTTP/1.1 200 OK\r\nContent-Length: 5\r\nConnection: close\r\n\r\nhello".to_vec()
    );
    let nf = HttpResponse::not_found(Vec::new());
    assert_eq!((nf.status_code, nf.reason), (404, "Not Found"));
    assert_eq!(nf.encode(), b"HTTP/1.1 404 Not Found\r\nContent-Length: 0\r\nConnection: close\r\n\r\n".to_vec());
}

#[test]
fn get_requests_are_built_exactly() {
    assert_eq!(
        build_get_request("/hello", "10.0.0.2"),
        b"GET /hello HTTP/1.1\r\nHost: 10.0.0.2\r\nConnection: close\r\n\r\n".to_vec()
    );
    assert!(http_message_complete(&build_get_request("/", "h")));
}

#[test]
fn completeness_follows_content_length() {
    assert!(!http_message_complete(b"GET / HTTP/1.1\r\n"));
    assert!(http_message_complete(b"HTTP/1.1 200 OK\r\nContent-Length:  3 \r\n\r\nabc"));
    assert!(http_message_complete(b"HTTP/1.1 200 OK\r\ncontent-length: 3\r\n\r\n"));
    assert!(http_message_complete(b"HTTP/1.1 200 OK\r\nContent-Length: x\r\n\r\n"));
    assert!(!http_message_complete(b"HTTP/1.1 200 OK\r\nContent-Length: 4\r\nContent-Length: 1\r\n\r\nabc"));
    assert!(!http_message_complete(&[0xff, 13, 10, 13, 10]));
}

#[test]
fn routes_of_the_server() {
    let req = |m: &str, p: &str| HttpRequest { method: m.to_string(), path: p.to_string() };
    let root = route_request(&req("GET", "/"));
    assert_eq!((root.status_code, root.body.clone()), (200, b"hello from tcpip_userland http server\n".to_vec()));
    let hello = route_request(&req("GET", "/hello"));
    assert_eq!((hello.status_code, hello.body.clone()), (200, b"hello\n".to_vec()));
    let other = route_request(&req("POST", "/hello"));
    assert_eq!((other.status_code, other.reason, other.body.clone()), (404, "Not Found", b"not found\n".to_vec()));
}

#[test]
fn get_is_served_over_tcp() {
    let mut medium = SharedMedium::new();
    let mut hosts = [
        Host::new("client", Ipv4Addr::new(10, 0, 0, 1), MacAddr::new([2, 0, 0, 0, 0, 1]), &mut medium),
        Host::new("server", Ipv4Addr::new(10, 0, 0, 2), MacAddr::new([2, 0, 0, 0, 0, 2]), &mut medium),
    ];
    hosts[1].listen_tcp(8080);
    let key = hosts[0].connect_tcp(Ipv4Addr::new(10, 0, 0, 2), 8080);
    let mut get = HttpGet::new(build_get_request("/hello", "10.0.0.2"));
    let mut server_buffer = Vec::new();
    let mut server_key = None;
    let mut served = None;
    let mut response = None;
    for _ in 0..20 {
        assert!(run_until_idle(&mut hosts, &mut medium));
        if server_key.is_none() {
            server_key = hosts[1].accept_tcp(8080);
        }
        if let Some(k) = server_key {
            if served.is_none() {
                served = serve_connection(&mut hosts[1], k, &mut server_buffer).unwrap();
            }
        }
        let progress = get.poll(&mut hosts[0], key);
        if progress.complete {
            response = Some(get.response.clone());
            break;
        }
    }
    let served = served.expect("served");
    assert_eq!((served.method.as_str(), served.path.as_str(), served.status_code), ("GET", "/hello", 200));
    assert_eq!(response.expect("response"), b"HTTP/1.1 200 OK\r\nContent-Length: 6\r\nConnection: close\r\n\r\nhello\n".to_vec());
    assert!(get.sent);
}

#[test]
fn response_is_complete_only_when_whole() {
    let bytes = HttpResponse::not_found(b"not found\n".to_vec()).encode();
    for k in 0..bytes.len() {
        assert!(!http_message_complete(&bytes[..k]), "prefix of {k} bytes taken as complete");
    }
    assert!(http_message_complete(&bytes));
}

#[test]
fn any_one_line_reason_is_complete_only_when_whole() {
    let response = HttpResponse { status_code: 299, reason: "Tr\u{e8}s\tbien", body: b"body".to_vec() };
    let bytes = response.encode();
    for k in 0..bytes.len() {
        assert!(!http_message_complete(&bytes[..k]));
    }
    assert!(http_message_complete(&bytes));
    let mut longer = bytes.clone();
    longer.extend_from_slice(b"trailing");
    assert!(http_message_complete(&longer));
}

#[test]
fn built_get_request_reads_back() {
    let request = HttpRequest::parse(&build_get_request("/index.html", "h\u{f4}te")).unwrap();
    assert_eq!(request.method, "GET");
    assert_eq!(request.path, "/index.html");
}
