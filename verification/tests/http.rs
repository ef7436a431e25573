use gpio_light::gpio::FileWrite;
use gpio_light::http::{Handler, Request, ResponseWriter, Server};
use gpio_light::light::LightHandler;
use gpio_light::gpio::OutputPin;

fn light(pin_number: u32) -> LightHandler {
    LightHandler::new(OutputPin::new(pin_number).advance(Ok(())).advance(Ok(())).finish().unwrap())
}

fn parts(line: &str) -> Option<(String, String)> {
    Request::new(line).map(|r| (r.method().to_string(), r.path().to_string()))
}

fn some(method: &str, path: &str) -> Option<(String, String)> {
    Some((method.to_string(), path.to_string()))
}

fn wire(status: u32, body: &[u8]) -> Vec<u8> {
    let mut w = ResponseWriter::new();
    w.set_status(status);
    w.body().extend_from_slice(body);
    w.finish()
}

#[test]
fn request_line_is_split_at_spaces() {
    assert_eq!(parts("GET /light/on\r\n"), some("GET", "/light/on"));
    assert_eq!(parts("PUT /light/off HTTP/1.1\r\n"), some("PUT", "/light/off"));
    assert_eq!(parts("PUT /light/on"), some("PUT", "/light/on"));
    assert_eq!(parts("DELETE /a/b/c extra words here\n"), some("DELETE", "/a/b/c"));
}

#[test]
fn slashes_at_the_end_of_the_path_are_dropped() {
    assert_eq!(parts("PUT /light/on/\r\n"), some("PUT", "/light/on"));
    assert_eq!(parts("PUT /light/on/// HTTP/1.1\r\n"), some("PUT", "/light/on"));
    assert_eq!(parts("GET /\r\n"), some("GET", ""));
    assert_eq!(parts("GET ////\r\n"), some("GET", ""));
    assert_eq!(parts("GET //a//\r\n"), some("GET", "//a"));
}

#[test]
fn white_space_at_the_end_of_the_line_is_dropped() {
    assert_eq!(parts("PUT /light/on \t\r\n"), some("PUT", "/light/on"));
    assert_eq!(parts("PUT /light/on\u{3000}\u{a0}\u{2028}"), some("PUT", "/light/on"));
    assert_eq!(parts("PUT /light/on\u{200a}\u{85}\u{1680}\u{205f}\u{202f}\u{2029}\u{2000}\u{b}\u{c}"), some("PUT", "/light/on"));
    assert_eq!(parts(" \r\nPUT /x"), some("", "\r\nPUT"));
}

#[test]
fn other_characters_at_the_end_stay() {
    assert_eq!(parts("PUT /light/on\u{200b}"), some("PUT", "/light/on\u{200b}"));
    assert_eq!(parts("PUT /light/on\u{180e}"), some("PUT", "/light/on\u{180e}"));
    assert_eq!(parts("PUT /light/on\u{8}"), some("PUT", "/light/on\u{8}"));
    assert_eq!(parts("PUT /light/on\u{e}"), some("PUT", "/light/on\u{e}"));
    assert_eq!(parts("PUT /light/on\u{200b}/"), some("PUT", "/light/on\u{200b}"));
}

#[test]
fn white_space_inside_the_line_stays() {
    assert_eq!(parts("PUT /light\t/on x"), some("PUT", "/light\t/on"));
    assert_eq!(parts("PUT\t/light/on x"), some("PUT\t/light/on", "x"));
}

#[test]
fn two_spaces_give_an_empty_path() {
    assert_eq!(parts("PUT  /light/on\r\n"), some("PUT", ""));
    assert_eq!(parts(" /light/on\r\n"), some("", "/light/on"));
}

#[test]
fn a_line_without_a_second_part_holds_no_request() {
    assert_eq!(parts(""), None);
    assert_eq!(parts("\r\n"), None);
    assert_eq!(parts("PUT"), None);
    assert_eq!(parts("PUT\r\n"), None);
    assert_eq!(parts("PUT \r\n"), None);
    assert_eq!(parts("   "), None);
}

#[test]
fn characters_beyond_ascii_are_kept() {
    assert_eq!(parts("PUT /l\u{e4}mp/\u{1f4a1}/ x\r\n"), some("PUT", "/l\u{e4}mp/\u{1f4a1}"));
}

#[test]
fn a_new_response_is_200_and_empty() {
    let mut w = ResponseWriter::new();
    assert_eq!(w.status(), 200);
    assert!(w.body().is_empty());
    assert_eq!(w.finish(), b"HTTP/1.1 200 OK\r\nContent-Length: 0\r\n\r\n".to_vec());
}

#[test]
fn set_status_keeps_the_body() {
    let mut w = ResponseWriter::new();
    w.body().extend_from_slice(b"abc");
    w.set_status(404);
    assert_eq!(w.status(), 404);
    assert_eq!(w.body().as_slice(), b"abc");
    w.body().push(b'd');
    assert_eq!(w.status(), 404);
    assert_eq!(w.finish(), b"HTTP/1.1 404 NOT FOUND\r\nContent-Length: 4\r\n\r\nabcd".to_vec());
}

#[test]
fn each_status_has_its_reason() {
    assert_eq!(wire(200, b""), b"HTTP/1.1 200 OK\r\nContent-Length: 0\r\n\r\n".to_vec());
    assert_eq!(wire(204, b""), b"HTTP/1.1 204 NO CONTENT\r\nContent-Length: 0\r\n\r\n".to_vec());
    assert_eq!(wire(404, b""), b"HTTP/1.1 404 NOT FOUND\r\nContent-Length: 0\r\n\r\n".to_vec());
    assert_eq!(
        wire(405, b""),
        b"HTTP/1.1 405 METHOD NOT ALLOWED\r\nContent-Length: 0\r\n\r\n".to_vec()
    );
}

#[test]
fn every_other_status_is_an_internal_server_error() {
    assert_eq!(
        wire(500, b""),
        b"HTTP/1.1 500 INTERNAL SERVER ERROR\r\nContent-Length: 0\r\n\r\n".to_vec()
    );
    assert_eq!(
        wire(201, b"x"),
        b"HTTP/1.1 201 INTERNAL SERVER ERROR\r\nContent-Length: 1\r\n\r\nx".to_vec()
    );
    assert_eq!(
        wire(0, b""),
        b"HTTP/1.1 0 INTERNAL SERVER ERROR\r\nContent-Length: 0\r\n\r\n".to_vec()
    );
    assert_eq!(
        wire(u32::MAX, b""),
        b"HTTP/1.1 4294967295 INTERNAL SERVER ERROR\r\nContent-Length: 0\r\n\r\n".to_vec()
    );
}

#[test]
fn content_length_is_the_length_of_the_body() {
    for length in [0usize, 1, 2, 9, 10, 11, 99, 100, 1000, 4097] {
        let body = vec![0xa5u8; length];
        let bytes = wire(200, &body);
        let mut expected = format!("HTTP/1.1 200 OK\r\nContent-Length: {}\r\n\r\n", length).into_bytes();
        expected.extend_from_slice(&body);
        assert_eq!(bytes, expected);
    }
}

#[test]
fn the_body_goes_out_byte_for_byte() {
    let body = [0u8, 13, 10, 13, 10, 255, 128];
    let bytes = wire(200, &body);
    assert!(bytes.ends_with(&body));
    assert_eq!(bytes.len(), b"HTTP/1.1 200 OK\r\nContent-Length: 7\r\n\r\n".len() + 7);
}

#[test]
fn a_server_without_routes_answers_404() {
    let server: Server<LightHandler> = Server::new(8080);
    let request = Request::new("PUT /light/on\r\n").unwrap();
    let (mut response, writes) = server.dispatch(&request);
    assert_eq!(response.status(), 404);
    assert!(response.body().is_empty());
    assert!(writes.is_empty());
}

#[test]
fn the_address_is_the_port_on_all_interfaces() {
    let server: Server<LightHandler> = Server::new(8080);
    assert_eq!(server.port(), 8080);
    assert_eq!(server.address(), "0.0.0.0:8080");
    let other: Server<LightHandler> = Server::new(0);
    assert_eq!(other.address(), "0.0.0.0:0");
    let last: Server<LightHandler> = Server::new(u16::MAX);
    assert_eq!(last.address(), "0.0.0.0:65535");
}

#[test]
fn the_last_registration_of_a_path_wins() {
    let first = light(1);
    let second = light(2);
    let mut server = Server::new(80);
    server.register("/x/on", &first);
    server.register("/x/on", &second);
    assert_eq!(server.port(), 80);
    let request = Request::new("PUT /x/on\r\n").unwrap();
    let (_, writes) = server.dispatch(&request);
    assert_eq!(
        writes,
        vec![FileWrite { path: "/sys/class/gpio/gpio2/value".to_string(), data: "0".to_string() }]
    );
}

#[test]
fn paths_are_matched_exactly() {
    let handler = light(3);
    let mut server = Server::new(80);
    server.register("/light/on", &handler);
    for line in [
        "PUT /Light/on\r\n",
        "PUT /light/on?x=1\r\n",
        "PUT /light/on#top\r\n",
        "PUT /light\r\n",
        "PUT /light/on/x\r\n",
        "PUT light/on\r\n",
        "PUT /light/off\r\n",
        "PUT /\r\n",
    ] {
        let request = Request::new(line).unwrap();
        let (mut response, writes) = server.dispatch(&request);
        assert_eq!(response.status(), 404);
        assert!(response.body().is_empty());
        assert!(writes.is_empty());
    }
}

#[test]
fn an_empty_path_can_have_a_route() {
    let handler = light(3);
    let mut server = Server::new(80);
    server.register("", &handler);
    let reply = server.respond("GET /\r\n").unwrap();
    assert_eq!(reply.bytes, b"HTTP/1.1 405 METHOD NOT ALLOWED\r\nContent-Length: 0\r\n\r\n".to_vec());
    let malformed = server.respond("GET\r\n").unwrap();
    assert_eq!(malformed.bytes, b"HTTP/1.1 404 NOT FOUND\r\nContent-Length: 0\r\n\r\n".to_vec());
}

#[test]
fn a_line_that_holds_no_request_is_answered_404() {
    let handler = light(3);
    let mut server = Server::new(80);
    server.register("/light/on", &handler);
    for line in ["\r\n", "\n", "PUT\r\n", " ", "PUT \r\n", "/light/on\r\n"] {
        let reply = server.respond(line).unwrap();
        assert_eq!(reply.bytes, b"HTTP/1.1 404 NOT FOUND\r\nContent-Length: 0\r\n\r\n".to_vec());
        assert!(reply.writes.is_empty());
    }
}

#[test]
fn a_handler_is_called_with_a_fresh_response() {
    let handler = light(3);
    let mut server = Server::new(80);
    server.register("/light/on", &handler);
    let request = Request::new("PUT /light/on\r\n").unwrap();
    let (mut first, _) = server.dispatch(&request);
    let (mut second, _) = server.dispatch(&request);
    assert_eq!(first.status(), 200);
    assert_eq!(first.body().as_slice(), b"ok");
    assert_eq!(second.status(), 200);
    assert_eq!(second.body().as_slice(), b"ok");
    let mut used = ResponseWriter::new();
    used.body().extend_from_slice(b"ok");
    let _ = handler.handle(&request, &mut used);
    assert_eq!(used.body().as_slice(), b"okok");
}
