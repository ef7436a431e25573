//! A minimal HTTP/1.1 engine: one request line in, one response out.
//!
//! The engine reads nothing and sends nothing. It parses the request line that
//! the caller read, routes the request to a handler by its exact path, and
//! returns the bytes of the response together with the pseudo-file writes that
//! the handler asked for.

use crate::gpio::{FileWrite, FileWriteView};
use crate::text::{
    ascii_bytes, chars_of, decimal, lemma_ascii_concat, lemma_decimal_digits, push_decimal,
};
use vstd::prelude::*;

verus! {

/// Whether `c` is white space: a character with the Unicode property
/// `White_Space`.
pub open spec fn is_whitespace(c: char) -> bool {
    ||| '\u{9}' <= c <= '\u{D}'
    ||| c == ' '
    ||| c == '\u{85}'
    ||| c == '\u{A0}'
    ||| c == '\u{1680}'
    ||| '\u{2000}' <= c <= '\u{200A}'
    ||| c == '\u{2028}'
    ||| c == '\u{2029}'
    ||| c == '\u{202F}'
    ||| c == '\u{205F}'
    ||| c == '\u{3000}'
}

/// `s` without the characters at its end that `drop` holds of.
pub open spec fn without_trailing(s: Seq<char>, drop: spec_fn(char) -> bool) -> Seq<char>
    decreases s.len(),
{
    if s.len() > 0 && drop(s.last()) {
        without_trailing(s.drop_last(), drop)
    } else {
        s
    }
}

/// `s` without the white space at its end.
pub open spec fn trim_end(s: Seq<char>) -> Seq<char> {
    without_trailing(s, |c: char| is_whitespace(c))
}

/// `s` without the slashes at its end.
pub open spec fn strip_slashes(s: Seq<char>) -> Seq<char> {
    without_trailing(s, |c: char| c == '/')
}

/// The place of the first space in `s`; the length of `s` where it holds none.
pub open spec fn first_space(s: Seq<char>) -> int
    decreases s.len(),
{
    if s.len() == 0 || s[0] == ' ' {
        0
    } else {
        1 + first_space(s.drop_first())
    }
}

/// A request as the handlers see it.
pub struct RequestView {
    pub method: Seq<char>,
    pub path: Seq<char>,
}

/// The request that a request line holds. The white space at the end of the
/// line does not count. The rest is split at each single space: the first
/// part is the method, the second, without the slashes at its end, is the
/// path. A line without a second part holds no request.
pub open spec fn parse(line: Seq<char>) -> Option<RequestView> {
    let text = trim_end(line);
    let m = first_space(text);
    if m < text.len() {
        let rest = text.skip(m + 1);
        Some(
            RequestView {
                method: text.take(m),
                path: strip_slashes(rest.take(first_space(rest))),
            },
        )
    } else {
        None
    }
}

/// `without_trailing` keeps the first `k` characters, where all that follow
/// are dropped and the one before is not.
pub proof fn lemma_without_trailing(s: Seq<char>, drop: spec_fn(char) -> bool, k: int)
    requires
        0 <= k <= s.len(),
        forall|j: int| k <= j < s.len() ==> drop(#[trigger] s[j]),
        k > 0 ==> !drop(s[k - 1]),
    ensures
        without_trailing(s, drop) == s.take(k),
    decreases s.len(),
{
    if k < s.len() {
        lemma_without_trailing(s.drop_last(), drop, k);
        assert(s.drop_last().take(k) =~= s.take(k));
    } else {
        assert(s.take(k) =~= s);
    }
}

/// `first_space` is `k`, where no space stands before `k` and one stands
/// there, or `s` ends there.
pub proof fn lemma_first_space(s: Seq<char>, k: int)
    requires
        0 <= k <= s.len(),
        forall|j: int| 0 <= j < k ==> #[trigger] s[j] != ' ',
        k < s.len() ==> s[k] == ' ',
    ensures
        first_space(s) == k,
    decreases s.len(),
{
    if k > 0 {
        lemma_first_space(s.drop_first(), k - 1);
    }
}

/// Whether `c` is white space.
fn whitespace(c: char) -> (b: bool)
    ensures
        b == is_whitespace(c),
{
    ('\u{9}' <= c && c <= '\u{D}')
        || c == ' '
        || c == '\u{85}'
        || c == '\u{A0}'
        || c == '\u{1680}'
        || ('\u{2000}' <= c && c <= '\u{200A}')
        || c == '\u{2028}'
        || c == '\u{2029}'
        || c == '\u{202F}'
        || c == '\u{205F}'
        || c == '\u{3000}'
}

/// Where `chars[from..to]` ends once the white space at its end is left out.
fn trimmed_end(chars: &Vec<char>, from: usize, to: usize) -> (end: usize)
    requires
        from <= to <= chars.len(),
    ensures
        from <= end <= to,
        trim_end(chars@.subrange(from as int, to as int)) == chars@.subrange(
            from as int,
            end as int,
        ),
{
    let mut end: usize = to;
    while end > from && whitespace(chars[end - 1])
        invariant
            from <= end <= to <= chars.len(),
            forall|j: int| end <= j < to ==> is_whitespace(#[trigger] chars@[j]),
        decreases end,
    {
        end -= 1;
    }
    proof {
        let s = chars@.subrange(from as int, to as int);
        lemma_without_trailing(s, |c: char| is_whitespace(c), end - from);
        assert(s.take(end - from) =~= chars@.subrange(from as int, end as int));
    }
    end
}

/// Where `chars[from..to]` ends once the slashes at its end are left out.
fn stripped_end(chars: &Vec<char>, from: usize, to: usize) -> (end: usize)
    requires
        from <= to <= chars.len(),
    ensures
        from <= end <= to,
        strip_slashes(chars@.subrange(from as int, to as int)) == chars@.subrange(
            from as int,
            end as int,
        ),
{
    let mut end: usize = to;
    while end > from && chars[end - 1] == '/'
        invariant
            from <= end <= to <= chars.len(),
            forall|j: int| end <= j < to ==> #[trigger] chars@[j] == '/',
        decreases end,
    {
        end -= 1;
    }
    proof {
        let s = chars@.subrange(from as int, to as int);
        lemma_without_trailing(s, |c: char| c == '/', end - from);
        assert(s.take(end - from) =~= chars@.subrange(from as int, end as int));
    }
    end
}

/// The place of the first space in `chars[from..to]`, or `to`.
fn space_in(chars: &Vec<char>, from: usize, to: usize) -> (at: usize)
    requires
        from <= to <= chars.len(),
    ensures
        from <= at <= to,
        first_space(chars@.subrange(from as int, to as int)) == at - from,
{
    let mut at: usize = from;
    while at < to && chars[at] != ' '
        invariant
            from <= at <= to <= chars.len(),
            forall|j: int| from <= j < at ==> #[trigger] chars@[j] != ' ',
        decreases to - at,
    {
        at += 1;
    }
    proof {
        lemma_first_space(chars@.subrange(from as int, to as int), at - from);
    }
    at
}

/// A parsed request line.
#[derive(Debug, PartialEq, Eq)]
pub struct Request {
    method: String,
    path: String,
}

impl View for Request {
    type V = RequestView;

    closed spec fn view(&self) -> RequestView {
        RequestView { method: self.method@, path: self.path@ }
    }
}

impl Request {
    /// Parses a request line. The result is `None` exactly where the line
    /// holds no request.
    pub fn new(line: &str) -> (request: Option<Request>)
        ensures
            request.is_some() == parse(line@).is_some(),
            request matches Some(r) ==> Some(r@) == parse(line@),
    {
        let chars = chars_of(line);
        let end = trimmed_end(&chars, 0, chars.len());
        let m = space_in(&chars, 0, end);
        proof {
            assert(chars@.subrange(0, chars.len() as int) =~= line@);
        }
        if m == end {
            return None;
        }
        let stop = space_in(&chars, m + 1, end);
        let cut = stripped_end(&chars, m + 1, stop);
        proof {
            let text = trim_end(line@);
            let rest = text.skip(m + 1);
            assert(rest =~= chars@.subrange(m + 1, end as int));
            assert(rest.take(stop - (m + 1)) =~= chars@.subrange(m + 1, stop as int));
            assert(text.take(m as int) =~= line@.subrange(0, m as int));
        }
        let method = line.substring_char(0, m).to_owned();
        let path = line.substring_char(m + 1, cut).to_owned();
        Some(Request { method, path })
    }

    /// The method: the first part of the request line.
    pub fn method(&self) -> (method: &str)
        ensures
            method@ == self@.method,
    {
        self.method.as_str()
    }

    /// The path: the second part of the request line, without the slashes at
    /// its end.
    pub fn path(&self) -> (path: &str)
        ensures
            path@ == self@.path,
    {
        self.path.as_str()
    }
}

/// A response: its status code and the bytes of its body.
pub struct ResponseView {
    pub status: u32,
    pub body: Seq<u8>,
}

/// The response that handling starts from: status 200 and an empty body.
pub open spec fn fresh() -> ResponseView {
    ResponseView { status: 200, body: Seq::empty() }
}

/// The response to a request that no route takes: status 404 and an empty
/// body.
pub open spec fn not_found() -> ResponseView {
    ResponseView { status: 404, body: Seq::empty() }
}

/// The reason that the status line gives for a status code.
pub open spec fn reason(status: u32) -> Seq<char> {
    if status == 200 {
        "OK"@
    } else if status == 204 {
        "NO CONTENT"@
    } else if status == 404 {
        "NOT FOUND"@
    } else if status == 405 {
        "METHOD NOT ALLOWED"@
    } else {
        "INTERNAL SERVER ERROR"@
    }
}

/// The status line of a response.
pub open spec fn status_line(status: u32) -> Seq<char> {
    "HTTP/1.1 "@ + decimal(status as nat) + " "@ + reason(status) + "\r\n"@
}

/// The `Content-Length` header for a body of `length` bytes.
pub open spec fn content_length(length: nat) -> Seq<char> {
    "Content-Length: "@ + decimal(length) + "\r\n"@
}

/// The head of a response: the status line, the `Content-Length` header with
/// the length of the body, and the empty line that ends the head.
pub open spec fn head(status: u32, length: nat) -> Seq<char> {
    status_line(status) + content_length(length) + "\r\n"@
}

/// The bytes that go over the wire for a response: its head, one byte for
/// each character, then the body as it is.
pub open spec fn wire(response: ResponseView) -> Seq<u8> {
    ascii_bytes(head(response.status, response.body.len())) + response.body
}

/// The head of a response holds ASCII characters only.
pub proof fn lemma_head_is_ascii(status: u32, length: nat)
    ensures
        vstd::utf8::is_ascii_chars(head(status, length)),
{
    reveal_strlit("HTTP/1.1 ");
    reveal_strlit(" ");
    reveal_strlit("OK");
    reveal_strlit("NO CONTENT");
    reveal_strlit("NOT FOUND");
    reveal_strlit("METHOD NOT ALLOWED");
    reveal_strlit("INTERNAL SERVER ERROR");
    reveal_strlit("\r\n");
    reveal_strlit("Content-Length: ");
    lemma_decimal_digits(status as nat);
    lemma_decimal_digits(length);
    lemma_ascii_concat("HTTP/1.1 "@, decimal(status as nat));
    lemma_ascii_concat("HTTP/1.1 "@ + decimal(status as nat), " "@);
    lemma_ascii_concat("HTTP/1.1 "@ + decimal(status as nat) + " "@, reason(status));
    lemma_ascii_concat("HTTP/1.1 "@ + decimal(status as nat) + " "@ + reason(status), "\r\n"@);
    lemma_ascii_concat("Content-Length: "@, decimal(length));
    lemma_ascii_concat("Content-Length: "@ + decimal(length), "\r\n"@);
    lemma_ascii_concat(status_line(status), content_length(length));
    lemma_ascii_concat(status_line(status) + content_length(length), "\r\n"@);
}

/// The reason that the status line gives for `status`.
fn reason_phrase(status: u32) -> (text: &'static str)
    ensures
        text@ == reason(status),
{
    if status == 200 {
        "OK"
    } else if status == 204 {
        "NO CONTENT"
    } else if status == 404 {
        "NOT FOUND"
    } else if status == 405 {
        "METHOD NOT ALLOWED"
    } else {
        "INTERNAL SERVER ERROR"
    }
}

/// The response to one request while it is being made.
#[derive(Debug)]
pub struct ResponseWriter {
    status_code: u32,
    body: Vec<u8>,
}

impl View for ResponseWriter {
    type V = ResponseView;

    closed spec fn view(&self) -> ResponseView {
        ResponseView { status: self.status_code, body: self.body@ }
    }
}

impl ResponseWriter {
    /// A response with status 200 and an empty body.
    pub fn new() -> (writer: ResponseWriter)
        ensures
            writer@ == fresh(),
    {
        ResponseWriter { status_code: 200, body: Vec::new() }
    }

    /// The status code.
    pub fn status(&self) -> (code: u32)
        ensures
            code == self@.status,
    {
        self.status_code
    }

    /// Sets the status code and leaves the body as it is.
    pub fn set_status(&mut self, code: u32)
        ensures
            final(self)@ == (ResponseView { status: code, body: old(self)@.body }),
    {
        self.status_code = code;
    }

    /// The body, for the caller to fill. The status code stays as it is.
    pub fn body(&mut self) -> (body: &mut Vec<u8>)
        ensures
            body@ == old(self)@.body,
            final(self)@ == (ResponseView { status: old(self)@.status, body: final(body)@ }),
    {
        &mut self.body
    }

    /// Ends the response and returns its bytes for the wire.
    pub fn finish(self) -> (bytes: Vec<u8>)
        ensures
            bytes@ == wire(self@),
    {
        let mut text = "HTTP/1.1 ".to_owned();
        push_decimal(&mut text, self.status_code as u64);
        text.append(" ");
        text.append(reason_phrase(self.status_code));
        text.append("\r\n");
        text.append("Content-Length: ");
        push_decimal(&mut text, self.body.len() as u64);
        text.append("\r\n");
        text.append("\r\n");
        let mut bytes = text.as_str().as_bytes_vec();
        proof {
            assert(text@ =~= head(self.status_code, self.body@.len()));
            lemma_head_is_ascii(self.status_code, self.body@.len());
            vstd::utf8::is_ascii_chars_encode_utf8(text@);
            assert(bytes@ =~= ascii_bytes(text@));
        }
        let mut body = self.body;
        bytes.append(&mut body);
        bytes
    }
}

/// What answers the requests of a route. A handler fills the response and
/// returns the pseudo-file writes that the request calls for, in order; it
/// carries out none of them.
pub trait Handler {
    /// The response that the handler makes of `w` for the request `r`.
    spec fn response(&self, r: RequestView, w: ResponseView) -> ResponseView;

    /// The writes that the handler asks for, for the request `r` and the
    /// response `w` so far.
    spec fn writes(&self, r: RequestView, w: ResponseView) -> Seq<FileWriteView>;

    /// Answers the request `r` in `w` and returns the writes to carry out.
    fn handle(&self, r: &Request, w: &mut ResponseWriter) -> (writes: Vec<FileWrite>)
        ensures
            final(w)@ == self.response(r@, old(w)@),
            writes.deep_view() == self.writes(r@, old(w)@),
    ;
}

/// What the server owes for one request line: the bytes of the response, and
/// the writes to carry out before they are sent.
#[derive(Debug)]
pub struct Reply {
    pub bytes: Vec<u8>,
    pub writes: Vec<FileWrite>,
}

/// The routes of a server and the port it listens on.
#[verifier::reject_recursive_types(H)]
pub struct Server<'a, H: Handler> {
    port: u16,
    handlers: vstd::hash_map::StringHashMap<&'a H>,
}

impl<'a, H: Handler> Server<'a, H> {
    /// The port.
    pub closed spec fn port_number(&self) -> u16 {
        self.port
    }

    /// The route table: each registered path with its handler.
    pub closed spec fn routes(&self) -> Map<Seq<char>, &'a H> {
        self.handlers@
    }

    /// What the handler of the request's path makes of a fresh response, and
    /// the writes it asks for; the 404 response and no write where no route
    /// has that path. Paths are compared character by character.
    pub open spec fn routed(&self, r: RequestView) -> (ResponseView, Seq<FileWriteView>) {
        if self.routes().contains_key(r.path) {
            let handler = self.routes()[r.path];
            (handler.response(r, fresh()), handler.writes(r, fresh()))
        } else {
            (not_found(), Seq::empty())
        }
    }

    /// The response to a request line and the writes that go with it. A line
    /// that holds no request is answered like a request that no route takes.
    pub open spec fn reply(&self, line: Seq<char>) -> (ResponseView, Seq<FileWriteView>) {
        match parse(line) {
            Some(r) => self.routed(r),
            None => (not_found(), Seq::empty()),
        }
    }

    /// A server for `port` without routes.
    pub fn new(port: u16) -> (server: Server<'a, H>)
        ensures
            server.port_number() == port,
            server.routes() == Map::<Seq<char>, &'a H>::empty(),
    {
        Server { port, handlers: vstd::hash_map::StringHashMap::new() }
    }

    /// Binds `path` to `handler`. A handler bound to the path before is
    /// replaced.
    pub fn register(&mut self, path: &str, handler: &'a H)
        ensures
            final(self).port_number() == old(self).port_number(),
            final(self).routes() == old(self).routes().insert(path@, handler),
    {
        self.handlers.insert(path.to_owned(), handler);
    }

    /// The port.
    pub fn port(&self) -> (port: u16)
        ensures
            port == self.port_number(),
    {
        self.port
    }

    /// The address to listen on: the port on all interfaces.
    pub fn address(&self) -> (address: String)
        ensures
            address@ == "0.0.0.0:"@ + decimal(self.port_number() as nat),
    {
        let mut address = "0.0.0.0:".to_owned();
        push_decimal(&mut address, self.port as u64);
        address
    }

    /// Routes a request: hands it, with a fresh response, to the handler bound
    /// to its path, or answers 404 where there is none.
    pub fn dispatch(&self, request: &Request) -> (routed: (ResponseWriter, Vec<FileWrite>))
        ensures
            (routed.0@, routed.1.deep_view()) == self.routed(request@),
            !self.routes().contains_key(request@.path) ==> routed.0@ == not_found()
                && routed.1@.len() == 0,
    {
        let mut writer = ResponseWriter::new();
        match self.handlers.get(request.path()) {
            Some(handler) => {
                let writes = handler.handle(request, &mut writer);
                (writer, writes)
            },
            None => {
                writer.set_status(404);
                let writes: Vec<FileWrite> = Vec::new();
                assert(writes.deep_view() =~= Seq::<FileWriteView>::empty());
                (writer, writes)
            },
        }
    }

    /// Answers one connection, of which `line` is all that was read up to the
    /// first newline. Where nothing was read there is no reply. Every other
    /// line gets exactly one response, whose head gives the length of its
    /// body: a line that holds no request, or one for a path without a route,
    /// gets status 404 and an empty body.
    pub fn respond(&self, line: &str) -> (reply: Option<Reply>)
        ensures
            reply.is_some() == (line@.len() > 0),
            reply matches Some(r) ==> r.bytes@ == wire(self.reply(line@).0)
                && r.writes.deep_view() == self.reply(line@).1,
    {
        if line.is_empty() {
            return None;
        }
        let (writer, writes) = match Request::new(line) {
            Some(request) => self.dispatch(&request),
            None => {
                let mut writer = ResponseWriter::new();
                writer.set_status(404);
                let writes: Vec<FileWrite> = Vec::new();
                assert(writes.deep_view() =~= Seq::<FileWriteView>::empty());
                (writer, writes)
            },
        };
        Some(Reply { bytes: writer.finish(), writes })
    }
}

/// Whether `s` holds nothing but white space.
pub open spec fn all_whitespace(s: Seq<char>) -> bool {
    forall|i: int| 0 <= i < s.len() ==> is_whitespace(#[trigger] s[i])
}

/// Where `without_trailing` cuts: all that follows the cut is dropped, and
/// the character before it is not.
proof fn lemma_cut(s: Seq<char>, drop: spec_fn(char) -> bool) -> (k: int)
    ensures
        0 <= k <= s.len(),
        without_trailing(s, drop) == s.take(k),
        forall|j: int| k <= j < s.len() ==> drop(#[trigger] s[j]),
        k > 0 ==> !drop(s[k - 1]),
    decreases s.len(),
{
    if s.len() > 0 && drop(s.last()) {
        let k = lemma_cut(s.drop_last(), drop);
        assert(s.drop_last().take(k) =~= s.take(k));
        assert forall|j: int| k <= j < s.len() implies drop(#[trigger] s[j]) by {
            if j < s.len() - 1 {
                assert(s[j] == s.drop_last()[j]);
            }
        }
        k
    } else {
        assert(s.take(s.len() as int) =~= s);
        s.len() as int
    }
}

/// No space stands before `first_space`, and one stands there unless `s`
/// ends there.
proof fn lemma_space_found(s: Seq<char>)
    ensures
        0 <= first_space(s) <= s.len(),
        forall|j: int| 0 <= j < first_space(s) ==> #[trigger] s[j] != ' ',
        first_space(s) < s.len() ==> s[first_space(s)] == ' ',
    decreases s.len(),
{
    if s.len() == 0 || s[0] == ' ' {
    } else {
        let t = s.drop_first();
        lemma_space_found(t);
        assert forall|j: int| 0 <= j < first_space(s) implies #[trigger] s[j] != ' ' by {
            if j > 0 {
                assert(s[j] == t[j - 1]);
            }
        }
        assert(first_space(s) < s.len() ==> s[first_space(s)] == t[first_space(t)]);
    }
}

/// The request of a line that needs no trimming and is made of `head`, which
/// ends in a space, and `t`. Where `head` holds an earlier space, the request
/// lies in `head`; else its path lies in `t`.
proof fn lemma_parse_trimmed(head: Seq<char>, t: Seq<char>) -> (r: RequestView)
    requires
        head.len() > 0,
        head.last() == ' ',
        t.len() > 0,
        !is_whitespace(t.last()),
    ensures
        parse(head + t) == Some(r),
        r.method == head.take(first_space(head)),
        first_space(head) < head.len() - 1 ==> r.path == ({
            let inner = head.skip(first_space(head) + 1);
            strip_slashes(inner.take(first_space(inner)))
        }),
        first_space(head) >= head.len() - 1 ==> r.path == strip_slashes(t.take(first_space(t))),
{
    let line = head + t;
    lemma_without_trailing(line, |c: char| is_whitespace(c), line.len() as int);
    assert(line.take(line.len() as int) =~= line);
    lemma_space_found(head);
    let m = first_space(head);
    assert(m <= head.len() - 1) by {
        if m > head.len() - 1 {
            assert(head[head.len() - 1] != ' ');
        }
    }
    lemma_first_space(line, m);
    let rest = line.skip(m + 1);
    assert(line.take(m) =~= head.take(m));
    if m < head.len() - 1 {
        let inner = head.skip(m + 1);
        lemma_space_found(inner);
        let n = first_space(inner);
        assert(inner.last() == ' ');
        assert(n <= inner.len() - 1) by {
            if n > inner.len() - 1 {
                assert(inner[inner.len() - 1] != ' ');
            }
        }
        assert forall|j: int| 0 <= j < n implies #[trigger] rest[j] != ' ' by {
            assert(rest[j] == inner[j]);
        }
        assert(rest[n] == inner[n]);
        lemma_first_space(rest, n);
        assert(rest.take(n) =~= inner.take(n));
    } else {
        assert(rest =~= t);
    }
    parse(line).unwrap()
}

/// Slashes at the end of the path do not count: a request line gives the
/// same request with one more slash behind its path. The line is `method`, a
/// space, `path`, and `rest`, which is nothing but white space or begins with
/// a space. Where `rest` is nothing but white space, the path must not end in
/// white space nor be empty: the end of such a line is trimmed before the
/// path is read.
pub proof fn lemma_trailing_slash_ignored(method: Seq<char>, path: Seq<char>, rest: Seq<char>)
    requires
        all_whitespace(rest) || rest[0] == ' ',
        all_whitespace(rest) ==> path.len() > 0 && !is_whitespace(path.last()),
    ensures
        parse(method + seq![' '] + path + seq!['/'] + rest) == parse(
            method + seq![' '] + path + rest,
        ),
{
    let head = method + seq![' '];
    let plain = head + path + rest;
    let slashed = head + path + seq!['/'] + rest;
    let ws = |c: char| is_whitespace(c);
    // what is left of `rest` once the line is trimmed
    let k = lemma_cut(rest, ws);
    let kept = rest.take(k);
    let t_plain = path + kept;
    let t_slashed = path + seq!['/'] + kept;
    if k > 0 {
        assert(kept.last() == rest[k - 1]);
    }
    assert(t_plain.len() > 0 && !is_whitespace(t_plain.last()));
    assert(t_slashed.len() > 0 && !is_whitespace(t_slashed.last()));
    lemma_without_trailing(plain, ws, head.len() + path.len() + k);
    lemma_without_trailing(slashed, ws, head.len() + path.len() + 1 + k);
    assert(trim_end(plain) =~= head + t_plain);
    assert(trim_end(slashed) =~= head + t_slashed);
    let r_plain = lemma_parse_trimmed(head, t_plain);
    let r_slashed = lemma_parse_trimmed(head, t_slashed);
    if first_space(head) >= head.len() - 1 {
        lemma_space_found(path);
        let n = first_space(path);
        if n < path.len() {
            lemma_first_space(t_plain, n);
            lemma_first_space(t_slashed, n);
            assert(t_plain.take(n) =~= t_slashed.take(n));
        } else {
            lemma_first_space(t_plain, n);
            lemma_first_space(t_slashed, n + 1);
            assert(t_plain.take(n) =~= path);
            assert(t_slashed.take(n + 1) =~= path.push('/'));
            assert(path.push('/').drop_last() =~= path);
        }
    }
}

/// A line made of a method, a space, a path and a rest holds that method and
/// that path, without the slashes at the path's end. Neither the method nor
/// the path holds a space, and `rest` is nothing but white space or begins
/// with a space. Where `rest` is nothing but white space, the path must not
/// end in white space nor be empty: the end of such a line is trimmed before
/// the path is read.
pub proof fn lemma_parse_parts(method: Seq<char>, path: Seq<char>, rest: Seq<char>)
    requires
        !method.contains(' '),
        !path.contains(' '),
        all_whitespace(rest) || rest[0] == ' ',
        all_whitespace(rest) ==> path.len() > 0 && !is_whitespace(path.last()),
    ensures
        parse(method + seq![' '] + path + rest) == Some(
            RequestView { method, path: strip_slashes(path) },
        ),
{
    let head = method + seq![' '];
    let line = head + path + rest;
    let ws = |c: char| is_whitespace(c);
    let k = lemma_cut(rest, ws);
    let kept = rest.take(k);
    let t = path + kept;
    if k > 0 {
        assert(kept.last() == rest[k - 1]);
    }
    assert(t.len() > 0 && !is_whitespace(t.last()));
    lemma_without_trailing(line, ws, head.len() + path.len() + k);
    assert(trim_end(line) =~= head + t);
    let r = lemma_parse_trimmed(head, t);
    assert forall|j: int| 0 <= j < method.len() implies #[trigger] head[j] != ' ' by {
        if method[j] == ' ' {
            assert(method.contains(' '));
        }
    }
    lemma_first_space(head, method.len() as int);
    assert(head.take(method.len() as int) =~= method);
    assert forall|j: int| 0 <= j < path.len() implies #[trigger] t[j] != ' ' by {
        if path[j] == ' ' {
            assert(path.contains(' '));
        }
    }
    lemma_first_space(t, path.len() as int);
    assert(t.take(path.len() as int) =~= path);
}

/// A request for a path that no route has is answered with status 404 and an
/// empty body, whatever its method, and asks for no write.
pub proof fn lemma_unrouted_not_found<H: Handler>(server: Server<H>, line: Seq<char>)
    requires
        parse(line) matches Some(r) && !server.routes().contains_key(r.path),
    ensures
        server.reply(line) == (not_found(), Seq::<FileWriteView>::empty()),
{
}

} // verus!
