//! The light: a handler that switches an output pin on `PUT` requests, and the
//! server that binds it to its two paths.
//!
//! The light is wired active-low: the low level switches it on, the high
//! level switches it off.

use crate::gpio::{value_write, FileWrite, FileWriteView, OutputPin, Value};
use crate::http::{
    all_whitespace, lemma_parse_parts, parse, strip_slashes, Handler, Request, RequestView,
    ResponseView, ResponseWriter, Server,
};
use crate::text::{ascii_bytes, chars_of, same_text};
use vstd::prelude::*;

verus! {

/// The pin that the light hangs on.
pub const PIN: u32 = 17;

/// The port that the light's server listens on.
pub const PORT: u16 = 8080;

/// What follows the last slash of `path`; all of `path` where it holds none.
pub open spec fn last_segment(path: Seq<char>) -> Seq<char>
    decreases path.len(),
{
    if path.len() == 0 || path.last() == '/' {
        Seq::empty()
    } else {
        last_segment(path.drop_last()).push(path.last())
    }
}

/// The level that a request asks for: low where a `PUT` names `on`, high
/// where a `PUT` names `off`, none otherwise.
pub open spec fn level(r: RequestView) -> Option<Value> {
    if r.method != "PUT"@ {
        None
    } else if last_segment(r.path) == "on"@ {
        Some(Value::Low)
    } else if last_segment(r.path) == "off"@ {
        Some(Value::High)
    } else {
        None
    }
}

/// The body that acknowledges a switch: the two bytes of `ok`.
pub open spec fn ok() -> Seq<u8> {
    ascii_bytes("ok"@)
}

/// `last_segment` is what follows `k`, where no slash stands from `k` on and
/// one stands before it, or `k` is the start.
pub proof fn lemma_last_segment(path: Seq<char>, k: int)
    requires
        0 <= k <= path.len(),
        forall|j: int| k <= j < path.len() ==> #[trigger] path[j] != '/',
        k > 0 ==> path[k - 1] == '/',
    ensures
        last_segment(path) == path.skip(k),
    decreases path.len(),
{
    if k < path.len() {
        lemma_last_segment(path.drop_last(), k);
        assert(path.drop_last().skip(k).push(path.last()) =~= path.skip(k));
    } else {
        assert(path.skip(k) =~= Seq::<char>::empty());
    }
}

/// What follows the last slash of `path`.
fn last_part(path: &str) -> (part: &str)
    ensures
        part@ == last_segment(path@),
{
    let chars = chars_of(path);
    let mut start: usize = chars.len();
    while start > 0 && chars[start - 1] != '/'
        invariant
            start <= chars.len(),
            forall|j: int| start <= j < chars.len() ==> #[trigger] chars@[j] != '/',
        decreases start,
    {
        start -= 1;
    }
    proof {
        lemma_last_segment(path@, start as int);
    }
    path.substring_char(start, chars.len())
}

/// Switches the light that hangs on its pin.
#[derive(Debug)]
pub struct LightHandler {
    pin: OutputPin,
}

impl LightHandler {
    /// The pin of the light.
    pub closed spec fn pin(&self) -> OutputPin {
        self.pin
    }

    /// A handler for the light on `pin`.
    pub fn new(pin: OutputPin) -> (handler: LightHandler)
        ensures
            handler.pin() == pin,
    {
        LightHandler { pin }
    }
}

impl Handler for LightHandler {
    /// Any method but `PUT` gets status 405. A `PUT` that names `on` or `off`
    /// gets `ok` added to the body and keeps the status; any other `PUT` gets
    /// status 404.
    open spec fn response(&self, r: RequestView, w: ResponseView) -> ResponseView {
        if r.method != "PUT"@ {
            ResponseView { status: 405, body: w.body }
        } else if level(r) is Some {
            ResponseView { status: w.status, body: w.body + ok() }
        } else {
            ResponseView { status: 404, body: w.body }
        }
    }

    /// One write of the level that the request asks for, to the value file of
    /// the pin; none where it asks for no level.
    open spec fn writes(&self, r: RequestView, w: ResponseView) -> Seq<FileWriteView> {
        match level(r) {
            Some(value) => seq![value_write(self.pin().number(), value)],
            None => Seq::empty(),
        }
    }

    fn handle(&self, r: &Request, w: &mut ResponseWriter) -> (writes: Vec<FileWrite>) {
        let mut writes: Vec<FileWrite> = Vec::new();
        if !same_text(r.method(), "PUT") {
            w.set_status(405);
            assert(writes.deep_view() =~= Seq::<FileWriteView>::empty());
            return writes;
        }
        let part = last_part(r.path());
        proof {
            reveal_strlit("on");
            reveal_strlit("off");
        }
        let value = if same_text(part, "on") {
            Value::Low
        } else if same_text(part, "off") {
            Value::High
        } else {
            w.set_status(404);
            assert(writes.deep_view() =~= Seq::<FileWriteView>::empty());
            return writes;
        };
        writes.push(self.pin.set_value(value));
        let body = w.body();
        body.push('o' as u8);
        body.push('k' as u8);
        assert(writes.deep_view() =~= seq![value_write(self.pin().number(), value)]);
        assert(w@.body =~= old(w)@.body + ok()) by {
            reveal_strlit("ok");
        }
        writes
    }
}

/// The routes of the light: its two paths, both bound to `handler`.
pub open spec fn light_routes<'a>(handler: &'a LightHandler) -> Map<Seq<char>, &'a LightHandler> {
    Map::<Seq<char>, &'a LightHandler>::empty().insert("/light/on"@, handler).insert(
        "/light/off"@,
        handler,
    )
}

/// The server of the light: `handler` behind `/light/on` and `/light/off`, on
/// port 8080.
pub fn light_server<'a>(handler: &'a LightHandler) -> (server: Server<'a, LightHandler>)
    ensures
        server.port_number() == PORT,
        server.routes() == light_routes(handler),
{
    let mut server = Server::new(PORT);
    server.register("/light/on", handler);
    server.register("/light/off", handler);
    server
}

/// On a path with a route, every method but `PUT` is answered with status
/// 405 and an empty body, and asks for no write.
pub proof fn lemma_other_method_not_allowed(server: Server<LightHandler>, line: Seq<char>)
    requires
        parse(line) matches Some(r) && server.routes().contains_key(r.path) && r.method != "PUT"@,
    ensures
        server.reply(line) == (
            ResponseView { status: 405, body: Seq::empty() },
            Seq::<FileWriteView>::empty(),
        ),
{
}

/// The segments that the two paths of the light end in.
pub proof fn lemma_light_segments()
    ensures
        last_segment("/light/on"@) == "on"@,
        last_segment("/light/off"@) == "off"@,
{
    reveal_strlit("/light/on");
    reveal_strlit("/light/off");
    reveal_strlit("on");
    reveal_strlit("off");
    lemma_last_segment("/light/on"@, 7);
    lemma_last_segment("/light/off"@, 7);
    assert("/light/on"@.skip(7) =~= "on"@);
    assert("/light/off"@.skip(7) =~= "off"@);
}

/// A line made of a method, a space, one of the two paths of the light and a
/// rest is a request for that path with that method. The method holds no
/// space, and the rest is nothing but white space or begins with a space.
pub proof fn lemma_light_lines(method: Seq<char>, rest: Seq<char>)
    requires
        !method.contains(' '),
        all_whitespace(rest) || rest[0] == ' ',
    ensures
        parse(method + seq![' '] + "/light/on"@ + rest) == Some(
            RequestView { method, path: "/light/on"@ },
        ),
        parse(method + seq![' '] + "/light/off"@ + rest) == Some(
            RequestView { method, path: "/light/off"@ },
        ),
{
    reveal_strlit("/light/on");
    reveal_strlit("/light/off");
    assert(strip_slashes("/light/on"@) == "/light/on"@);
    assert(strip_slashes("/light/off"@) == "/light/off"@);
    lemma_parse_parts(method, "/light/on"@, rest);
    lemma_parse_parts(method, "/light/off"@, rest);
}

/// `PUT /light/on` is answered with status 200 and the body `ok`, and asks
/// for exactly one write: the low level, to the value file of the pin.
pub proof fn lemma_put_on(server: Server<LightHandler>, line: Seq<char>)
    requires
        parse(line) == Some(RequestView { method: "PUT"@, path: "/light/on"@ }),
        server.routes().contains_key("/light/on"@),
    ensures
        server.reply(line) == (
            ResponseView { status: 200, body: ok() },
            seq![value_write(server.routes()["/light/on"@].pin().number(), Value::Low)],
        ),
{
    lemma_light_segments();
    assert(Seq::<u8>::empty() + ok() =~= ok());
}

/// `PUT /light/off` is answered with status 200 and the body `ok`, and asks
/// for exactly one write: the high level, to the value file of the pin.
pub proof fn lemma_put_off(server: Server<LightHandler>, line: Seq<char>)
    requires
        parse(line) == Some(RequestView { method: "PUT"@, path: "/light/off"@ }),
        server.routes().contains_key("/light/off"@),
    ensures
        server.reply(line) == (
            ResponseView { status: 200, body: ok() },
            seq![value_write(server.routes()["/light/off"@].pin().number(), Value::High)],
        ),
{
    lemma_light_segments();
    assert("off"@ != "on"@) by {
        reveal_strlit("on");
        reveal_strlit("off");
        assert("off"@.len() == 3 && "on"@.len() == 2);
    }
    assert(Seq::<u8>::empty() + ok() =~= ok());
}

} // verus!
