//! The HTTP side of the client: reading the head of a request and finding the
//! target in it.

use crate::address::{Addr, Socks5Addr};
use crate::text::{
    chars_of, dec, find, find_char, find_last, first_at, from_utf8_lossy, index_of_char, is_white,
    last_at, law_decimal_round_trip, law_utf8_is_read_exactly, lemma_dec_chars, lemma_first_line, lemma_index_of_char, lemma_index_of_char_bound,
    lemma_only_word, lemma_rsplit_once, lemma_split_once, lemma_words_parted, lines, lossy_text,
    occurs_at, parse_number, push_chars, read_number, rsplit_once, spells, split_char, split_lines,
    split_once, split_words, string_of, strip_return, views, words,
};
use vstd::prelude::*;
use vstd::utf8::{decode_utf8, encode_utf8, valid_utf8};

verus! {

/// The longest request head that is read.
pub const HEAD_LIMIT: usize = 4096;

// ---------------------------------------------------------------------------
// Reading the head
// ---------------------------------------------------------------------------

/// An empty line ends the head at index `i`.
pub open spec fn ends_at(bytes: Seq<u8>, i: int) -> bool {
    0 <= i && i + 4 <= bytes.len() && bytes[i] == 13 && bytes[i + 1] == 10 && bytes[i + 2] == 13
        && bytes[i + 3] == 10
}

/// The head of a request, with its empty line, is among the bytes.
pub open spec fn head_complete(bytes: Seq<u8>) -> bool {
    exists|i: int| ends_at(bytes, i)
}

/// Whether the head of a request, with its empty line, is among the bytes.
pub fn has_head(bytes: &[u8]) -> (complete: bool)
    ensures
        complete == head_complete(bytes@),
{
    let mut i: usize = 0;
    while i < bytes.len() && 4 <= bytes.len() - i
        invariant
            i <= bytes@.len(),
            forall|j: int| 0 <= j < i ==> !(#[trigger] ends_at(bytes@, j)),
        decreases bytes@.len() - i,
    {
        if bytes[i] == 13 && bytes[i + 1] == 10 && bytes[i + 2] == 13 && bytes[i + 3] == 10 {
            assert(ends_at(bytes@, i as int));
            return true;
        }
        i += 1;
    }
    false
}

/// A complete head stays complete, whatever comes after it.
pub proof fn law_complete_head_stays_complete(bytes: Seq<u8>, more: Seq<u8>)
    requires
        head_complete(bytes),
    ensures
        head_complete(bytes + more),
{
    let i = choose|i: int| ends_at(bytes, i);
    assert(ends_at(bytes + more, i));
}

/// The bytes of a request as far as they have come.
pub struct HttpHead {
    buf: Vec<u8>,
}

impl View for HttpHead {
    type V = Seq<u8>;

    closed spec fn view(&self) -> Seq<u8> {
        self.buf@
    }
}

impl HttpHead {
    /// No more bytes are kept than the limit allows.
    pub open spec fn wf(&self) -> bool {
        self@.len() <= HEAD_LIMIT
    }

    /// Nothing has come yet.
    pub fn new() -> (head: Self)
        ensures
            head.wf(),
            head@ == Seq::<u8>::empty(),
    {
        HttpHead { buf: Vec::new() }
    }

    /// The bytes so far.
    pub fn bytes(&self) -> (bytes: &[u8])
        ensures
            bytes@ == self@,
    {
        self.buf.as_slice()
    }

    /// How many bytes may be read next.
    pub fn room(&self) -> (result: Result<usize, String>)
        requires
            self.wf(),
        ensures
            match result {
                Ok(n) => n > 0 && n == HEAD_LIMIT - self@.len(),
                Err(e) => self@.len() == HEAD_LIMIT && e@ == "request too long"@,
            },
    {
        if self.buf.len() >= HEAD_LIMIT {
            return Err("request too long".to_owned());
        }
        Ok(HEAD_LIMIT - self.buf.len())
    }

    /// Takes what was read, where nothing means the end of the connection, and
    /// says whether the head is complete.
    pub fn receive(&mut self, chunk: &[u8]) -> (result: Result<bool, String>)
        requires
            old(self).wf(),
            old(self)@.len() + chunk@.len() <= HEAD_LIMIT,
        ensures
            final(self).wf(),
            final(self)@ == old(self)@ + chunk@,
            match result {
                Ok(complete) => chunk@.len() > 0 && complete == head_complete(final(self)@),
                Err(e) => chunk@.len() == 0 && e@ == "connection closed during HTTP request"@,
            },
    {
        if chunk.len() == 0 {
            assert(self@ + chunk@ =~= self@);
            return Err("connection closed during HTTP request".to_owned());
        }
        self.buf.extend_from_slice(chunk);
        Ok(has_head(self.buf.as_slice()))
    }
}

// ---------------------------------------------------------------------------
// The target of a request
// ---------------------------------------------------------------------------

/// What a request asks for.
pub enum HttpRequest {
    /// A tunnel to the target: the client is told that it stands, and all that
    /// follows is passed on.
    Connect(Socks5Addr),
    /// Passing on the request itself to the target.
    Forward(Socks5Addr),
}

/// What a request asks for, as a mathematical value.
pub ghost enum HttpAsked {
    Connect(Addr),
    Forward(Addr),
}

impl View for HttpRequest {
    type V = HttpAsked;

    open spec fn view(&self) -> HttpAsked {
        match self {
            HttpRequest::Connect(target) => HttpAsked::Connect(target@),
            HttpRequest::Forward(target) => HttpAsked::Forward(target@),
        }
    }
}

/// The first line of a text, which is empty if there is none.
pub open spec fn first_line(text: Seq<char>) -> Seq<char> {
    if lines(text).len() > 0 {
        lines(text)[0]
    } else {
        seq![]
    }
}

/// The port that a text denotes.
pub open spec fn port_of(text: Seq<char>) -> Result<u16, Seq<char>> {
    match parse_number(text, 10, 65535) {
        Ok(port) => Ok(port as u16),
        Err(e) => Err("bad port: "@ + text + ": "@ + e.words()),
    }
}

/// The target that `host` and the text of a port stand for.
pub open spec fn target_of(host: Seq<char>, port: Seq<char>) -> Result<Addr, Seq<char>> {
    match port_of(port) {
        Ok(port) => Ok(Addr::Domain(host, port)),
        Err(e) => Err(e),
    }
}

/// The target of a tunnel, from the host and port it is asked with.
pub open spec fn connect_target(address: Seq<char>) -> Result<Addr, Seq<char>> {
    match rsplit_once(address, ':') {
        None => Err("bad CONNECT address: "@ + address),
        Some((host, port)) => target_of(host, port),
    }
}

/// The port for a URL that names none.
pub open spec fn default_port(scheme: Seq<char>) -> Seq<char> {
    if scheme == "https"@ {
        "443"@
    } else {
        "80"@
    }
}

/// The target of a URL: what stands between the scheme and the first slash.
pub open spec fn url_target(url: Seq<char>) -> Result<Addr, Seq<char>> {
    match split_once(url, "://"@) {
        None => Err("bad URL: "@ + url),
        Some((scheme, rest)) => {
            let host_port = match split_char(rest, '/') {
                Some((before, _)) => before,
                None => rest,
            };
            match rsplit_once(host_port, ':') {
                Some((host, port)) => target_of(host, port),
                None => target_of(host_port, default_port(scheme)),
            }
        },
    }
}

/// What a request asks for, from the text of its head.
pub open spec fn http_asked(head: Seq<char>) -> Result<HttpAsked, Seq<char>> {
    let line = first_line(head);
    let parts = words(line);
    if parts.len() < 3 {
        Err("invalid HTTP request: "@ + line)
    } else if parts[0] == "CONNECT"@ {
        match connect_target(parts[1]) {
            Ok(target) => Ok(HttpAsked::Connect(target)),
            Err(e) => Err(e),
        }
    } else {
        match url_target(parts[1]) {
            Ok(target) => Ok(HttpAsked::Forward(target)),
            Err(e) => Err(e),
        }
    }
}

/// `text` with `prefix` before it.
fn prefixed(prefix: &str, text: &[char]) -> (out: String)
    ensures
        out@ == prefix@ + text@,
{
    let mut out = prefix.to_owned();
    push_chars(&mut out, text);
    out
}

/// The target that `host` and the text of a port stand for.
fn make_target(host: &[char], port: &[char]) -> (result: Result<Socks5Addr, String>)
    ensures
        match result {
            Ok(target) => target_of(host@, port@) == Ok::<Addr, Seq<char>>(target@),
            Err(e) => target_of(host@, port@) == Err::<Addr, Seq<char>>(e@),
        },
{
    match read_number(port, 10, 65535) {
        Ok(number) => Ok(Socks5Addr::Domain(string_of(host), number as u16)),
        Err(e) => {
            let mut message = prefixed("bad port: ", port);
            message.append(": ");
            message.append(e.message().as_str());
            Err(message)
        },
    }
}

/// The target of a tunnel, from the host and port it is asked with.
fn parse_connect(address: &[char]) -> (result: Result<Socks5Addr, String>)
    ensures
        match result {
            Ok(target) => connect_target(address@) == Ok::<Addr, Seq<char>>(target@),
            Err(e) => connect_target(address@) == Err::<Addr, Seq<char>>(e@),
        },
{
    let len = address.len();
    match find_last(address, ':') {
        None => Err(prefixed("bad CONNECT address: ", address)),
        Some(at) => {
            let host = vstd::slice::slice_subrange(address, 0, at);
            let port = vstd::slice::slice_subrange(address, at + 1, len);
            assert(host@ =~= address@.take(at as int));
            assert(port@ =~= address@.skip(at + 1));
            make_target(host, port)
        },
    }
}

/// The target of a URL.
fn parse_url(url: &[char]) -> (result: Result<Socks5Addr, String>)
    ensures
        match result {
            Ok(target) => url_target(url@) == Ok::<Addr, Seq<char>>(target@),
            Err(e) => url_target(url@) == Err::<Addr, Seq<char>>(e@),
        },
{
    let len = url.len();
    let mark = chars_of("://");
    match find(url, mark.as_slice()) {
        None => Err(prefixed("bad URL: ", url)),
        Some(at) => {
            let scheme = vstd::slice::slice_subrange(url, 0, at);
            let rest = vstd::slice::slice_subrange(url, at + mark.len(), len);
            assert(scheme@ =~= url@.take(at as int));
            assert(rest@ =~= url@.skip(at + mark@.len()));
            let slash = find_char(rest, 0, '/');
            assert(rest@.skip(0) =~= rest@);
            let host_port = vstd::slice::slice_subrange(rest, 0, slash);
            assert(host_port@ =~= rest@.take(slash as int));
            assert(slash == rest@.len() ==> host_port@ =~= rest@);
            match find_last(host_port, ':') {
                Some(colon) => {
                    let host = vstd::slice::slice_subrange(host_port, 0, colon);
                    let port = vstd::slice::slice_subrange(host_port, colon + 1, host_port.len());
                    assert(host@ =~= host_port@.take(colon as int));
                    assert(port@ =~= host_port@.skip(colon + 1));
                    make_target(host, port)
                },
                None => {
                    let port = if spells(scheme, "https") {
                        chars_of("443")
                    } else {
                        chars_of("80")
                    };
                    make_target(host_port, port.as_slice())
                },
            }
        },
    }
}

/// What a request asks for, from the text of its head.
pub fn parse_head(head: &str) -> (result: Result<HttpRequest, String>)
    ensures
        match result {
            Ok(request) => http_asked(head@) == Ok::<HttpAsked, Seq<char>>(request@),
            Err(e) => http_asked(head@) == Err::<HttpAsked, Seq<char>>(e@),
        },
{
    let text = chars_of(head);
    let all = split_lines(text.as_slice());
    let empty: Vec<char> = Vec::new();
    assert(empty@ =~= Seq::<char>::empty());
    let line: &[char] = if all.len() > 0 {
        assert(views(all@)[0] == all@[0]@);
        all[0].as_slice()
    } else {
        empty.as_slice()
    };
    assert(views(all@).len() == all@.len());
    assert(line@ == first_line(head@));
    let parts = split_words(line);
    assert(views(parts@).len() == parts@.len());
    if parts.len() < 3 {
        return Err(prefixed("invalid HTTP request: ", line));
    }
    assert(views(parts@)[0] == parts@[0]@);
    assert(views(parts@)[1] == parts@[1]@);
    if spells(parts[0].as_slice(), "CONNECT") {
        let target = parse_connect(parts[1].as_slice())?;
        Ok(HttpRequest::Connect(target))
    } else {
        let target = parse_url(parts[1].as_slice())?;
        Ok(HttpRequest::Forward(target))
    }
}

/// What a request asks for is what the text of `head` asks for.
pub open spec fn answers_head(result: Result<HttpRequest, String>, head: Seq<char>) -> bool {
    match result {
        Ok(request) => http_asked(head) == Ok::<HttpAsked, Seq<char>>(request@),
        Err(e) => http_asked(head) == Err::<HttpAsked, Seq<char>>(e@),
    }
}

/// What a request asks for, from the bytes of its head and of what was read
/// behind it. Whatever the bytes behind the first line are, that line decides.
pub fn parse_request(bytes: &[u8]) -> (result: Result<HttpRequest, String>)
    ensures
        answers_head(result, lossy_text(bytes@)),
        forall|n: int|
            0 <= n <= bytes@.len() && valid_utf8(bytes@.take(n)) && (#[trigger] decode_utf8(
                bytes@.take(n),
            )).contains('\n') ==> answers_head(result, decode_utf8(bytes@.take(n))),
{
    let head = from_utf8_lossy(bytes);
    let result = parse_head(head.as_str());
    proof {
        assert forall|n: int|
            0 <= n <= bytes@.len() && valid_utf8(bytes@.take(n)) && (#[trigger] decode_utf8(
                bytes@.take(n),
            )).contains('\n') implies answers_head(result, decode_utf8(bytes@.take(n))) by {
            law_first_line_decides(decode_utf8(bytes@.take(n)), head@);
        }
    }
    result
}

impl HttpRequest {
    /// The target.
    pub fn target(&self) -> (target: &Socks5Addr)
        ensures
            match self@ {
                HttpAsked::Connect(addr) => target@ == addr,
                HttpAsked::Forward(addr) => target@ == addr,
            },
    {
        match self {
            HttpRequest::Connect(target) => target,
            HttpRequest::Forward(target) => target,
        }
    }

    /// What goes to the target first: nothing through a tunnel, and else all
    /// that was read of the request.
    pub fn first_data<'a>(&self, head: &'a [u8]) -> (data: &'a [u8])
        ensures
            self@ is Connect ==> data@ == Seq::<u8>::empty(),
            self@ is Forward ==> data@ == head@,
    {
        match self {
            HttpRequest::Connect(_) => {
                let data = vstd::slice::slice_subrange(head, 0, 0);
                assert(data@ =~= Seq::<u8>::empty());
                data
            },
            HttpRequest::Forward(_) => head,
        }
    }

    /// What the application is told once the server is connected.
    pub fn reply(&self) -> (reply: Option<&'static str>)
        ensures
            self@ is Connect ==> (reply matches Some(text) && text@
                == "HTTP/1.1 200 Connection Established\r\n\r\n"@),
            self@ is Forward ==> reply is None,
    {
        match self {
            HttpRequest::Connect(_) => Some("HTTP/1.1 200 Connection Established\r\n\r\n"),
            HttpRequest::Forward(_) => None,
        }
    }
}

// ---------------------------------------------------------------------------
// Laws
// ---------------------------------------------------------------------------

/// There is no white space in `s`.
pub open spec fn no_white(s: Seq<char>) -> bool {
    forall|i: int| 0 <= i < s.len() ==> !is_white(#[trigger] s[i])
}

/// There is no `c` in `s`.
pub open spec fn without(s: Seq<char>, c: char) -> bool {
    forall|i: int| 0 <= i < s.len() ==> #[trigger] s[i] != c
}

/// The head of a request: the request line and whatever follows it.
pub open spec fn request_head(
    method: Seq<char>,
    url: Seq<char>,
    version: Seq<char>,
    rest: Seq<char>,
) -> Seq<char> {
    method + seq![' '] + url + seq![' '] + version + seq!['\r', '\n'] + rest
}

/// The parts of a request line are its words.
proof fn lemma_request_head(
    method: Seq<char>,
    url: Seq<char>,
    version: Seq<char>,
    rest: Seq<char>,
)
    requires
        method.len() > 0 && no_white(method),
        url.len() > 0 && no_white(url),
        version.len() > 0 && no_white(version),
    ensures
        words(first_line(request_head(method, url, version, rest))) == seq![method, url, version],
{
    let tail = url + seq![' '] + version;
    let line = method + seq![' '] + tail;
    assert forall|i: int| 0 <= i < line.len() implies #[trigger] line[i] != '\n' by {
        let m = method.len() as int;
        let u = url.len() as int;
        if i < m {
            assert(line[i] == method[i]);
            assert(!is_white(method[i]));
        } else if m < i && i < m + 1 + u {
            assert(line[i] == url[i - m - 1]);
            assert(!is_white(url[i - m - 1]));
        } else if m + 1 + u < i {
            assert(line[i] == version[i - m - u - 2]);
            assert(!is_white(version[i - m - u - 2]));
        }
    }
    let ended = line.push('\r');
    assert(request_head(method, url, version, rest) =~= ended + seq!['\n'] + rest);
    assert forall|i: int| 0 <= i < ended.len() implies #[trigger] ended[i] != '\n' by {
        if i < line.len() {
            assert(ended[i] == line[i]);
        }
    }
    lemma_first_line(ended, rest);
    assert(strip_return(ended) =~= line);
    assert(first_line(request_head(method, url, version, rest)) == line);
    lemma_words_parted(method, ' ', tail);
    lemma_words_parted(url, ' ', version);
    lemma_only_word(method);
    lemma_only_word(url);
    lemma_only_word(version);
    assert(words(line) =~= seq![method, url, version]);
}

/// The host and the port stand on either side of the last colon.
proof fn lemma_host_port(host: Seq<char>, port: u16)
    ensures
        rsplit_once(host + seq![':'] + dec(port as nat), ':') == Some((host, dec(port as nat))),
        target_of(host, dec(port as nat)) == Ok::<Addr, Seq<char>>(Addr::Domain(host, port)),
        no_white(host) ==> no_white(host + seq![':'] + dec(port as nat)),
        without(host, '/') ==> without(host + seq![':'] + dec(port as nat), '/'),
{
    let digits = dec(port as nat);
    let s = host + seq![':'] + digits;
    let n = host.len() as int;
    lemma_dec_chars(port as nat);
    law_decimal_round_trip(port as nat, 65535);
    assert forall|j: int| n < j < s.len() implies #[trigger] s[j] != ':' && !is_white(s[j]) && s[j]
        != '/' by {
        assert(s[j] == digits[j - n - 1]);
    }
    assert forall|j: int| 0 <= j < n implies #[trigger] s[j] == host[j] by {}
    assert(last_at(s, ':', n));
    lemma_rsplit_once(s, ':', n);
    assert(s.take(n) =~= host);
    assert(s.skip(n + 1) =~= digits);
    if no_white(host) {
        assert forall|i: int| 0 <= i < s.len() implies !is_white(#[trigger] s[i]) by {
            if i < n {
                assert(!is_white(host[i]));
            }
        }
    }
    if without(host, '/') {
        assert forall|i: int| 0 <= i < s.len() implies #[trigger] s[i] != '/' by {
            if i < n {
                assert(host[i] != '/');
            }
        }
    }
}

/// Only the first line decides what a request asks for.
pub proof fn law_first_line_decides(start: Seq<char>, head: Seq<char>)
    requires
        start.is_prefix_of(head),
        start.contains('\n'),
    ensures
        first_line(start) == first_line(head),
        http_asked(start) == http_asked(head),
{
    lemma_index_of_char_bound(start, '\n');
    let n = index_of_char(start, '\n') as int;
    assert(n < start.len()) by {
        let k = choose|k: int| 0 <= k < start.len() && start[k] == '\n';
        assert(start[k] == '\n');
    }
    assert forall|i: int| 0 <= i < start.len() implies #[trigger] head[i] == start[i] by {
        assert(start == head.take(start.len() as int));
    }
    lemma_index_of_char(head, '\n', n);
    assert(head.take(n) =~= start.take(n));
    assert(first_line(start) == strip_return(start.take(n)));
    assert(first_line(head) == strip_return(head.take(n)));
}

/// The text of a head stands at the front of its bytes, whatever bytes follow it:
/// with [`parse_request`], a request is understood from its head even where its
/// body is not UTF-8.
pub proof fn law_head_is_read_before_any_body(head: Seq<char>, body: Seq<u8>)
    ensures
        ({
            let front = (encode_utf8(head) + body).take(encode_utf8(head).len() as int);
            valid_utf8(front) && decode_utf8(front) == head
        }),
{
    broadcast use vstd::utf8::encode_utf8_valid_utf8, vstd::utf8::encode_utf8_decode_utf8;

    let bytes = encode_utf8(head) + body;
    assert(bytes.take(encode_utf8(head).len() as int) =~= encode_utf8(head));
}

/// A request for a tunnel to a host and a port is understood as that, whatever
/// header lines follow.
pub proof fn law_connect_request(host: Seq<char>, port: u16, version: Seq<char>, rest: Seq<char>)
    requires
        no_white(host),
        version.len() > 0 && no_white(version),
    ensures
        http_asked(
            request_head("CONNECT"@, host + seq![':'] + dec(port as nat), version, rest),
        ) == Ok::<HttpAsked, Seq<char>>(HttpAsked::Connect(Addr::Domain(host, port))),
{
    reveal_strlit("CONNECT");
    lemma_host_port(host, port);
    lemma_request_head("CONNECT"@, host + seq![':'] + dec(port as nat), version, rest);
}

/// A URL: the scheme, the host with or without a port, and the path.
pub open spec fn url_text(
    scheme: Seq<char>,
    host: Seq<char>,
    port: Option<u16>,
    path: Seq<char>,
) -> Seq<char> {
    scheme + "://"@ + place_text(host, port) + path
}

/// The scheme is what stands before the mark, and the rest what stands after.
proof fn lemma_scheme(scheme: Seq<char>, rest: Seq<char>)
    requires
        without(scheme, ':'),
    ensures
        split_once(scheme + "://"@ + rest, "://"@) == Some((scheme, rest)),
{
    reveal_strlit("://");
    let mark = "://"@;
    let url = scheme + mark + rest;
    let n = scheme.len() as int;
    assert(url.subrange(n, n + 3) =~= mark);
    assert(occurs_at(url, mark, n));
    assert forall|j: int| 0 <= j < n implies !(#[trigger] occurs_at(url, mark, j)) by {
        if occurs_at(url, mark, j) {
            assert(url.subrange(j, j + 3)[0] == mark[0]);
            assert(url[j] == scheme[j]);
            assert(scheme[j] != ':');
        }
    }
    assert(first_at(url, mark, n));
    lemma_split_once(url, mark, n);
    assert(url.take(n) =~= scheme);
    assert(url.skip(n + 3) =~= rest);
}

/// A request for a URL is passed on to the host that the URL names: at the port
/// it names, and else at 443 for `https` and at 80 for any other scheme. It is
/// so whatever the path and the header lines are.
pub proof fn law_url_request(
    method: Seq<char>,
    scheme: Seq<char>,
    host: Seq<char>,
    port: Option<u16>,
    path: Seq<char>,
    version: Seq<char>,
    rest: Seq<char>,
)
    requires
        method.len() > 0 && no_white(method) && method != "CONNECT"@,
        no_white(scheme) && without(scheme, ':'),
        no_white(host) && without(host, '/'),
        port is None ==> without(host, ':'),
        no_white(path) && (path.len() > 0 ==> path[0] == '/'),
        version.len() > 0 && no_white(version),
    ensures
        http_asked(request_head(method, url_text(scheme, host, port, path), version, rest)) == Ok::<
            HttpAsked,
            Seq<char>,
        >(
            HttpAsked::Forward(
                Addr::Domain(
                    host,
                    match port {
                        Some(port) => port,
                        None => if scheme == "https"@ {
                            443
                        } else {
                            80
                        },
                    },
                ),
            ),
        ),
{
    let url = url_text(scheme, host, port, path);
    lemma_url_is_word(scheme, host, port, path);
    lemma_url_target(scheme, host, port, path);
    lemma_request_head(method, url, version, rest);
}

/// The host with or without a port.
pub open spec fn place_text(host: Seq<char>, port: Option<u16>) -> Seq<char> {
    match port {
        Some(port) => host + seq![':'] + dec(port as nat),
        None => host,
    }
}

/// A place without white space or slashes stays so with a port.
proof fn lemma_place_chars(host: Seq<char>, port: Option<u16>)
    requires
        no_white(host) && without(host, '/'),
    ensures
        no_white(place_text(host, port)) && without(place_text(host, port), '/'),
{
    if port is Some {
        lemma_host_port(host, port->0);
    }
}

/// A URL is one word.
proof fn lemma_url_is_word(scheme: Seq<char>, host: Seq<char>, port: Option<u16>, path: Seq<char>)
    requires
        no_white(scheme),
        no_white(host) && without(host, '/'),
        no_white(path),
    ensures
        url_text(scheme, host, port, path).len() > 0,
        no_white(url_text(scheme, host, port, path)),
{
    reveal_strlit("://");
    lemma_place_chars(host, port);
    let url = url_text(scheme, host, port, path);
    let place = place_text(host, port);
    assert forall|i: int| 0 <= i < url.len() implies !is_white(#[trigger] url[i]) by {
        let n = scheme.len() as int;
        let m = n + 3 + place.len();
        if i < n {
            assert(url[i] == scheme[i]);
        } else if i < n + 3 {
            assert(url[i] == "://"@[i - n]);
        } else if i < m {
            assert(url[i] == place[i - n - 3]);
        } else {
            assert(url[i] == path[i - m]);
        }
    }
}

/// The target of a URL is the host that it names, at its port.
proof fn lemma_url_target(scheme: Seq<char>, host: Seq<char>, port: Option<u16>, path: Seq<char>)
    requires
        without(scheme, ':'),
        no_white(host) && without(host, '/'),
        port is None ==> without(host, ':'),
        path.len() > 0 ==> path[0] == '/',
    ensures
        url_target(url_text(scheme, host, port, path)) == Ok::<Addr, Seq<char>>(
            Addr::Domain(
                host,
                match port {
                    Some(port) => port,
                    None => if scheme == "https"@ {
                        443
                    } else {
                        80
                    },
                },
            ),
        ),
{
    let place = place_text(host, port);
    lemma_place_chars(host, port);
    assert(url_text(scheme, host, port, path) =~= scheme + "://"@ + (place + path));
    lemma_scheme(scheme, place + path);
    lemma_place(place, path);
    if port is Some {
        lemma_host_port(host, port->0);
    } else {
        assert forall|i: int| !last_at(host, ':', i) by {}
        lemma_default_port(scheme);
    }
}

/// What stands before the first slash is the place.
proof fn lemma_place(place: Seq<char>, path: Seq<char>)
    requires
        without(place, '/'),
        path.len() > 0 ==> path[0] == '/',
    ensures
        (match split_char(place + path, '/') {
            Some((before, _)) => before,
            None => place + path,
        }) == place,
{
    let s = place + path;
    let n = place.len() as int;
    assert forall|i: int| 0 <= i < n implies #[trigger] s[i] != '/' by {
        assert(s[i] == place[i]);
    }
    lemma_index_of_char(s, '/', n);
    assert(s.take(n) =~= place);
    if path.len() == 0 {
        assert(s =~= place);
    }
}

/// The ports for URLs that name none are the numbers that their digits spell.
proof fn lemma_default_port(scheme: Seq<char>)
    ensures
        port_of(default_port(scheme)) == Ok::<u16, Seq<char>>(
            if scheme == "https"@ {
                443
            } else {
                80
            },
        ),
{
    reveal_strlit("443");
    reveal_strlit("80");
    reveal_with_fuel(dec, 3);
    assert("443"@ =~= dec(443));
    assert("80"@ =~= dec(80));
    law_decimal_round_trip(443, 65535);
    law_decimal_round_trip(80, 65535);
}

/// [`has_head`] sees the empty line wherever it stands in the bytes, and sees none
/// where there is none.
pub proof fn law_empty_line_is_seen(bytes: &[u8], out: bool, a: Seq<u8>, b: Seq<u8>)
    requires
        call_ensures(has_head, (bytes,), out),
    ensures
        bytes@ == a + seq![13u8, 10, 13, 10] + b ==> out,
        out ==> exists|i: int|
            0 <= i <= bytes@.len() - 4 && (#[trigger] bytes@.skip(i)).take(4) == seq![
                13u8,
                10,
                13,
                10,
            ],
{
    if bytes@ == a + seq![13u8, 10, 13, 10] + b {
        assert(ends_at(bytes@, a.len() as int));
    }
    if out {
        let i = choose|i: int| ends_at(bytes@, i);
        assert(ends_at(bytes@, i));
        assert(bytes@.skip(i).take(4) =~= seq![13u8, 10, 13, 10]);
    }
}

/// [`HttpHead::room`] leaves room for 4096 bytes in all.
pub proof fn law_heads_have_4096_bytes(head: HttpHead, out: Result<usize, String>)
    requires
        call_ensures(HttpHead::room, (&head,), out),
        head@.len() <= 4096,
    ensures
        head@.len() < 4096 ==> (out matches Ok(n) && n + head@.len() == 4096),
        head@.len() == 4096 ==> (out matches Err(e) && e@ == "request too long"@),
{
}

/// [`HttpHead::receive`] keeps every byte in its order, and says that the head is
/// complete exactly once its empty line is among all that came.
pub proof fn law_received_bytes_are_kept(
    head: &mut HttpHead,
    chunk: &[u8],
    out: Result<bool, String>,
    all: &[u8],
    seen: bool,
)
    requires
        call_ensures(HttpHead::receive, (head, chunk), out),
        all@ == old(head)@ + chunk@,
        call_ensures(has_head, (all,), seen),
    ensures
        final(head)@ == old(head)@ + chunk@,
        chunk@.len() == 0 ==> (out matches Err(e) && e@ == "connection closed during HTTP request"@),
        chunk@.len() > 0 ==> (out matches Ok(complete) && complete == seen),
{
}

/// [`parse_head`] finds the host and the port of a tunnel, for every host and every
/// port, whatever header lines follow.
pub proof fn law_tunnel_target_is_found(
    head: &str,
    out: Result<HttpRequest, String>,
    host: Seq<char>,
    port: u16,
    version: Seq<char>,
    rest: Seq<char>,
)
    requires
        call_ensures(parse_head, (head,), out),
        head@ == "CONNECT"@ + seq![' '] + host + seq![':'] + dec(port as nat) + seq![' '] + version
            + seq!['\r', '\n'] + rest,
        forall|i: int| 0 <= i < host.len() ==> !is_white(#[trigger] host[i]),
        version.len() > 0,
        forall|i: int| 0 <= i < version.len() ==> !is_white(#[trigger] version[i]),
    ensures
        out matches Ok(HttpRequest::Connect(Socks5Addr::Domain(h, p))) && h@ == host && p == port,
{
    let url = host + seq![':'] + dec(port as nat);
    assert(head@ =~= request_head("CONNECT"@, url, version, rest));
    law_connect_request(host, port, version, rest);
}

/// [`parse_head`] finds the host and the port of a URL, for every method but
/// `CONNECT`, every host, every port and every path, whatever header lines follow.
/// Without a port it is 443 for `https` and 80 for every other scheme.
pub proof fn law_url_target_is_found(
    head: &str,
    out: Result<HttpRequest, String>,
    method: Seq<char>,
    scheme: Seq<char>,
    host: Seq<char>,
    port: Option<u16>,
    path: Seq<char>,
    version: Seq<char>,
    rest: Seq<char>,
)
    requires
        call_ensures(parse_head, (head,), out),
        head@ == method + seq![' '] + (scheme + seq![':', '/', '/'] + host + (match port {
            Some(port) => seq![':'] + dec(port as nat),
            None => seq![],
        }) + path) + seq![' '] + version + seq!['\r', '\n'] + rest,
        method.len() > 0 && method != "CONNECT"@,
        forall|i: int| 0 <= i < method.len() ==> !is_white(#[trigger] method[i]),
        forall|i: int|
            0 <= i < scheme.len() ==> !is_white(#[trigger] scheme[i]) && scheme[i] != ':',
        forall|i: int|
            0 <= i < host.len() ==> !is_white(#[trigger] host[i]) && host[i] != '/' && (port is None
                ==> host[i] != ':'),
        forall|i: int| 0 <= i < path.len() ==> !is_white(#[trigger] path[i]),
        path.len() > 0 ==> path[0] == '/',
        version.len() > 0,
        forall|i: int| 0 <= i < version.len() ==> !is_white(#[trigger] version[i]),
    ensures
        out matches Ok(HttpRequest::Forward(Socks5Addr::Domain(h, p))) && h@ == host && p
            == match port {
            Some(port) => port,
            None => if scheme == "https"@ {
                443
            } else {
                80
            },
        },
{
    reveal_strlit("://");
    assert("://"@ =~= seq![':', '/', '/']);
    let url = url_text(scheme, host, port, path);
    let place = match port {
        Some(port) => seq![':'] + dec(port as nat),
        None => seq![],
    };
    assert(url =~= scheme + seq![':', '/', '/'] + host + place + path);
    assert(head@ =~= request_head(method, url, version, rest));
    law_url_request(method, scheme, host, port, path, version, rest);
}

/// What [`parse_head`] refuses, and with which words: a first line of fewer than
/// three words, an address without a colon, a URL without a scheme, and a port
/// that is no number of sixteen bits.
pub proof fn law_bad_requests_are_told(head: &str, out: Result<HttpRequest, String>, line: Seq<char>)
    requires
        call_ensures(parse_head, (head,), out),
        lines(head@).len() == 0 ==> line == Seq::<char>::empty(),
        lines(head@).len() > 0 ==> line == lines(head@)[0],
    ensures
        ({
            let parts = words(line);
            let url = parts[1];
            &&& parts.len() < 3 ==> (out matches Err(e) && e@ == "invalid HTTP request: "@ + line)
            &&& parts.len() >= 3 && parts[0] == "CONNECT"@ ==> match rsplit_once(url, ':') {
                None => out matches Err(e) && e@ == "bad CONNECT address: "@ + url,
                Some((_, port)) => (parse_number(port, 10, 65535) matches Err(n) ==> (
                out matches Err(e) && e@ == "bad port: "@ + port + ": "@ + n.words())),
            }
            &&& parts.len() >= 3 && parts[0] != "CONNECT"@ ==> match split_once(url, "://"@) {
                None => out matches Err(e) && e@ == "bad URL: "@ + url,
                Some((_, rest)) => {
                    let place = match split_char(rest, '/') {
                        Some((before, _)) => before,
                        None => rest,
                    };
                    rsplit_once(place, ':') matches Some((_, port)) ==> (parse_number(
                        port,
                        10,
                        65535,
                    ) matches Err(n) ==> (out matches Err(e) && e@ == "bad port: "@ + port + ": "@
                        + n.words()))
                },
            }
        }),
{
}

/// [`parse_request`] understands bytes as [`parse_head`] understands the text at
/// their front, if that holds the first line, whatever bytes follow it.
pub proof fn law_bytes_are_understood_as_their_text(
    bytes: &[u8],
    out: Result<HttpRequest, String>,
    head: &str,
    body: Seq<u8>,
    of_text: Result<HttpRequest, String>,
)
    requires
        call_ensures(parse_request, (bytes,), out),
        call_ensures(parse_head, (head,), of_text),
        bytes@ == encode_utf8(head@) + body,
        head@.contains('\n') || body.len() == 0,
    ensures
        match of_text {
            Ok(request) => out matches Ok(r) && r@ == request@,
            Err(e) => out matches Err(f) && f@ == e@,
        },
{
    law_head_is_read_before_any_body(head@, body);
    let n = encode_utf8(head@).len() as int;
    assert(decode_utf8(bytes@.take(n)) == head@);
    if body.len() == 0 {
        assert(bytes@ =~= encode_utf8(head@));
        law_utf8_is_read_exactly(head@);
    }
}

/// What follows from a request: nothing of it goes through a tunnel, whose client
/// is told that it stands; and all of any other request goes to its target.
pub proof fn law_requests_are_passed_on_whole(
    request: HttpRequest,
    head: &[u8],
    target: &Socks5Addr,
    data: &[u8],
    reply: Option<&'static str>,
)
    requires
        call_ensures(HttpRequest::target, (&request,), target),
        call_ensures(HttpRequest::first_data, (&request, head), data),
        call_ensures(HttpRequest::reply, (&request,), reply),
    ensures
        request matches HttpRequest::Connect(t) ==> target@ == t@ && data@.len() == 0 && (
        reply matches Some(text) && text@ == "HTTP/1.1 200 Connection Established\r\n\r\n"@),
        request matches HttpRequest::Forward(t) ==> target@ == t@ && data@ == head@ && reply is None,
{
}

} // verus!
