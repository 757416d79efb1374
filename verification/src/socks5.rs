//! The SOCKS5 side of the client: the greeting and the request, read piece by
//! piece.

use crate::address::{be16, from_be16, law_be16_round_trip, read_be16, Addr, Socks5Addr};
use crate::text::{from_utf8_lossy, lossy_text};
use vstd::prelude::*;

verus! {

/// Which piece of the conversation comes next.
#[derive(Clone, Copy, Debug, PartialEq, Eq, Structural)]
pub enum Socks5State {
    /// The version and the number of methods.
    Greeting,
    /// That many methods.
    Methods(u8),
    /// The version, the command, a zero byte and the type of the address.
    Request,
    /// An IPv4 address and a port.
    IPv4,
    /// The length of a domain name.
    NameLen,
    /// A domain name of that length and a port.
    Name(u8),
    /// An IPv6 address and a port.
    IPv6,
}

/// What follows a piece.
pub enum Socks5Step {
    /// Write the reply, then read the piece for this state.
    Next(Socks5State, Vec<u8>),
    /// The request is for this target.
    Target(Socks5Addr),
}

/// A step as a mathematical value.
pub ghost enum Stepped {
    Next(Socks5State, Seq<u8>),
    Target(Addr),
}

impl View for Socks5Step {
    type V = Stepped;

    open spec fn view(&self) -> Stepped {
        match self {
            Socks5Step::Next(state, reply) => Stepped::Next(*state, reply@),
            Socks5Step::Target(addr) => Stepped::Target(addr@),
        }
    }
}

impl Socks5State {
    /// The length of the piece.
    pub open spec fn piece_len(self) -> nat {
        match self {
            Socks5State::Greeting => 2,
            Socks5State::Methods(n) => n as nat,
            Socks5State::Request => 4,
            Socks5State::IPv4 => 6,
            Socks5State::NameLen => 1,
            Socks5State::Name(n) => n as nat + 2,
            Socks5State::IPv6 => 18,
        }
    }

    /// How many more pieces there can be after this one.
    pub open spec fn pieces_left(self) -> nat {
        match self {
            Socks5State::Greeting => 4,
            Socks5State::Methods(_) => 3,
            Socks5State::Request => 2,
            Socks5State::NameLen => 1,
            _ => 0,
        }
    }

    /// What a piece of the right length leads to.
    pub open spec fn stepped(self, piece: Seq<u8>) -> Result<Stepped, Seq<char>> {
        match self {
            Socks5State::Greeting => if piece[0] != 5 {
                Err("not SOCKS5"@)
            } else {
                Ok(Stepped::Next(Socks5State::Methods(piece[1]), seq![]))
            },
            Socks5State::Methods(_) => Ok(Stepped::Next(Socks5State::Request, seq![5u8, 0u8])),
            Socks5State::Request => if piece[0] != 5 || piece[1] != 1 || piece[2] != 0 {
                Err("unsupported SOCKS5 request"@)
            } else if piece[3] == 1 {
                Ok(Stepped::Next(Socks5State::IPv4, seq![]))
            } else if piece[3] == 3 {
                Ok(Stepped::Next(Socks5State::NameLen, seq![]))
            } else if piece[3] == 4 {
                Ok(Stepped::Next(Socks5State::IPv6, seq![]))
            } else {
                Err("unsupported address type"@)
            },
            Socks5State::IPv4 => Ok(
                Stepped::Target(Addr::IPv4(piece.take(4), from_be16(piece[4], piece[5]))),
            ),
            Socks5State::NameLen => Ok(Stepped::Next(Socks5State::Name(piece[0]), seq![])),
            Socks5State::Name(n) => Ok(
                Stepped::Target(
                    Addr::Domain(
                        lossy_text(piece.take(n as int)),
                        from_be16(piece[n as int], piece[n + 1]),
                    ),
                ),
            ),
            Socks5State::IPv6 => Ok(
                Stepped::Target(Addr::IPv6(piece.take(16), from_be16(piece[16], piece[17]))),
            ),
        }
    }

    /// How many bytes to read next.
    pub fn wanted(self) -> (len: usize)
        ensures
            len == self.piece_len(),
    {
        match self {
            Socks5State::Greeting => 2,
            Socks5State::Methods(n) => n as usize,
            Socks5State::Request => 4,
            Socks5State::IPv4 => 6,
            Socks5State::NameLen => 1,
            Socks5State::Name(n) => n as usize + 2,
            Socks5State::IPv6 => 18,
        }
    }

    /// What the bytes that were read lead to.
    pub fn advance(self, piece: &[u8]) -> (result: Result<Socks5Step, String>)
        requires
            piece@.len() == self.piece_len(),
        ensures
            match result {
                Ok(step) => self.stepped(piece@) == Ok::<Stepped, Seq<char>>(step@),
                Err(e) => self.stepped(piece@) == Err::<Stepped, Seq<char>>(e@),
            },
    {
        match self {
            Socks5State::Greeting => {
                if piece[0] != 0x05 {
                    return Err("not SOCKS5".to_owned());
                }
                Ok(next(Socks5State::Methods(piece[1])))
            },
            Socks5State::Methods(_) => {
                let mut reply: Vec<u8> = Vec::new();
                reply.push(0x05);
                reply.push(0x00);
                assert(reply@ =~= seq![5u8, 0u8]);
                Ok(Socks5Step::Next(Socks5State::Request, reply))
            },
            Socks5State::Request => {
                if piece[0] != 0x05 || piece[1] != 0x01 || piece[2] != 0x00 {
                    return Err("unsupported SOCKS5 request".to_owned());
                }
                match piece[3] {
                    0x01 => Ok(next(Socks5State::IPv4)),
                    0x03 => Ok(next(Socks5State::NameLen)),
                    0x04 => Ok(next(Socks5State::IPv6)),
                    _ => Err("unsupported address type".to_owned()),
                }
            },
            Socks5State::IPv4 => {
                let ip: [u8; 4] = [piece[0], piece[1], piece[2], piece[3]];
                assert(ip@ =~= piece@.take(4));
                Ok(Socks5Step::Target(Socks5Addr::IPv4(ip, read_be16(piece[4], piece[5]))))
            },
            Socks5State::NameLen => Ok(next(Socks5State::Name(piece[0]))),
            Socks5State::Name(n) => {
                let n = n as usize;
                let name = vstd::slice::slice_subrange(piece, 0, n);
                assert(name@ =~= piece@.take(n as int));
                let domain = from_utf8_lossy(name);
                Ok(
                    Socks5Step::Target(
                        Socks5Addr::Domain(domain, read_be16(piece[n], piece[n + 1])),
                    ),
                )
            },
            Socks5State::IPv6 => {
                let ip: [u8; 16] = [
                    piece[0], piece[1], piece[2], piece[3], piece[4], piece[5], piece[6],
                    piece[7], piece[8], piece[9], piece[10], piece[11], piece[12], piece[13],
                    piece[14], piece[15],
                ];
                assert(ip@ =~= piece@.take(16));
                Ok(Socks5Step::Target(Socks5Addr::IPv6(ip, read_be16(piece[16], piece[17]))))
            },
        }
    }
}

/// The step that reads the next piece and writes nothing before.
fn next(state: Socks5State) -> (step: Socks5Step)
    ensures
        step@ == Stepped::Next(state, Seq::<u8>::empty()),
{
    let reply: Vec<u8> = Vec::new();
    assert(reply@ =~= Seq::<u8>::empty());
    Socks5Step::Next(state, reply)
}

/// The answer that tells the application that its connection stands.
pub fn success_reply() -> (reply: [u8; 10])
    ensures
        reply@ == seq![5u8, 0, 0, 1, 0, 0, 0, 0, 0, 0],
{
    let reply: [u8; 10] = [0x05, 0x00, 0x00, 0x01, 0x00, 0x00, 0x00, 0x00, 0x00, 0x00];
    assert(reply@ =~= seq![5u8, 0, 0, 1, 0, 0, 0, 0, 0, 0]);
    reply
}

// ---------------------------------------------------------------------------
// Whole conversations
// ---------------------------------------------------------------------------

/// How a conversation ends.
pub ghost enum Outcome {
    /// The bytes end before the piece for this state does.
    Waiting(Socks5State),
    /// The conversation is refused.
    Refused(Seq<char>),
    /// The request is for this target, and these bytes stand behind it.
    Target(Addr, Seq<u8>),
}

/// A conversation over `input`: how it ends, and all that is written before.
pub open spec fn conversation(state: Socks5State, input: Seq<u8>) -> (Outcome, Seq<u8>)
    decreases state.pieces_left(),
{
    let n = state.piece_len() as int;
    if input.len() < n {
        (Outcome::Waiting(state), seq![])
    } else {
        match state.stepped(input.take(n)) {
            Err(e) => (Outcome::Refused(e), seq![]),
            Ok(Stepped::Target(addr)) => (Outcome::Target(addr, input.skip(n)), seq![]),
            Ok(Stepped::Next(following, reply)) => if following.pieces_left()
                < state.pieces_left() {
                let (outcome, replies) = conversation(following, input.skip(n));
                (outcome, reply + replies)
            } else {
                (Outcome::Waiting(state), seq![])
            },
        }
    }
}

/// Every step leads on to a later piece, so a conversation has at most five.
pub proof fn law_steps_lead_on(state: Socks5State, piece: Seq<u8>)
    ensures
        state.stepped(piece) matches Ok(Stepped::Next(following, _)) ==> following.pieces_left()
            < state.pieces_left(),
{
}

/// The state behind a request for a target of this kind.
spec fn target_state(target: Addr) -> Socks5State {
    match target {
        Addr::IPv4(_, _) => Socks5State::IPv4,
        Addr::Domain(_, _) => Socks5State::NameLen,
        Addr::IPv6(_, _) => Socks5State::IPv6,
    }
}

/// The target is read from behind the byte that gives its type.
proof fn lemma_target_is_read(target: Addr, rest: Seq<u8>)
    requires
        target.wf(),
        target.fits(),
    ensures
        conversation(target_state(target), target.encode().skip(1) + rest) == (
            Outcome::Target(target, rest),
            Seq::<u8>::empty(),
        ),
{
    broadcast use vstd::utf8::encode_utf8_valid_utf8, vstd::utf8::encode_utf8_decode_utf8;

    let input = target.encode().skip(1) + rest;
    let nothing = Seq::<u8>::empty();
    match target {
        Addr::IPv4(ip, port) => {
            let piece = input.take(6);
            law_be16_round_trip(port, piece[4], piece[5]);
            assert(piece.take(4) =~= ip);
            assert(seq![piece[4], piece[5]] =~= be16(port));
            assert(input.skip(6) =~= rest);
        },
        Addr::Domain(domain, port) => {
            let name = vstd::utf8::encode_utf8(domain);
            let n = name.len() as int;
            let body = input.skip(1);
            let piece = body.take(n + 2);
            law_be16_round_trip(port, piece[n], piece[n + 1]);
            assert(input.take(1)[0] == n as u8);
            assert(piece.take(n) =~= name);
            assert(seq![piece[n], piece[n + 1]] =~= be16(port));
            assert(body.skip(n + 2) =~= rest);
            assert(conversation(Socks5State::Name(n as u8), body) == (
                Outcome::Target(target, rest),
                nothing,
            ));
            assert(nothing + nothing =~= nothing);
        },
        Addr::IPv6(ip, port) => {
            let piece = input.take(18);
            law_be16_round_trip(port, piece[16], piece[17]);
            assert(piece.take(16) =~= ip);
            assert(seq![piece[16], piece[17]] =~= be16(port));
            assert(input.skip(18) =~= rest);
        },
    }
}

/// An application that greets with any methods and then asks to connect to a
/// target, whose name fits its length byte, is answered with the choice of no
/// authentication, and its target is understood. What it sends behind the
/// request is left for the connection.
pub proof fn law_connect_request_is_understood(methods: Seq<u8>, target: Addr, rest: Seq<u8>)
    requires
        methods.len() <= 255,
        target.wf(),
        target.fits(),
    ensures
        conversation(
            Socks5State::Greeting,
            seq![5u8, methods.len() as u8] + methods + seq![5u8, 1u8, 0u8] + target.encode()
                + rest,
        ) == (Outcome::Target(target, rest), seq![5u8, 0u8]),
{
    let n = methods.len() as u8;
    let ask = seq![5u8, 1u8, 0u8];
    let wire = target.encode();
    let nothing = Seq::<u8>::empty();
    let input = seq![5u8, n] + methods + ask + wire + rest;
    let after_greeting = methods + ask + wire + rest;
    let after_methods = ask + wire + rest;
    let answer = (Outcome::Target(target, rest), nothing);
    assert(conversation(Socks5State::Request, after_methods) == answer) by {
        assert(wire.len() > 1 && (wire[0] == 1 || wire[0] == 3 || wire[0] == 4));
        assert(after_methods.take(4) =~= ask.push(wire[0]));
        assert(after_methods.skip(4) =~= wire.skip(1) + rest);
        lemma_target_is_read(target, rest);
        assert(nothing + nothing =~= nothing);
    }
    assert(conversation(Socks5State::Methods(n), after_greeting) == (answer.0, seq![5u8, 0u8])) by {
        assert(after_greeting.skip(n as int) =~= after_methods);
        assert(seq![5u8, 0u8] + nothing =~= seq![5u8, 0u8]);
    }
    assert(input.take(2) =~= seq![5u8, n]);
    assert(input.skip(2) =~= after_greeting);
    assert(nothing + seq![5u8, 0u8] =~= seq![5u8, 0u8]);
}

/// [`Socks5State::wanted`] and [`Socks5State::advance`] make the steps of a
/// conversation.
pub proof fn law_advance_makes_the_steps(
    state: Socks5State,
    len: usize,
    piece: &[u8],
    out: Result<Socks5Step, String>,
)
    ensures
        call_ensures(Socks5State::wanted, (state,), len) ==> len == state.piece_len(),
        call_ensures(Socks5State::advance, (state, piece), out) ==> match out {
            Ok(step) => state.stepped(piece@) == Ok::<Stepped, Seq<char>>(step@),
            Err(e) => state.stepped(piece@) == Err::<Stepped, Seq<char>>(e@),
        },
{
}

/// A conversation up to the type of the address: whatever the methods are, no
/// authentication is chosen, and then the request decides.
proof fn lemma_up_to_request(methods: Seq<u8>, request: Seq<u8>)
    requires
        methods.len() <= 255,
        request.len() >= 4,
    ensures
        ({
            let (outcome, replies) = conversation(Socks5State::Request, request);
            conversation(
                Socks5State::Greeting,
                seq![5u8, methods.len() as u8] + methods + request,
            ) == (outcome, seq![5u8, 0u8] + replies)
        }),
{
    let n = methods.len() as u8;
    let input = seq![5u8, n] + methods + request;
    let after_greeting = methods + request;
    let (outcome, replies) = conversation(Socks5State::Request, request);
    assert(input.take(2) =~= seq![5u8, n]);
    assert(input.skip(2) =~= after_greeting);
    assert(after_greeting.skip(n as int) =~= request);
    assert(conversation(Socks5State::Methods(n), after_greeting) == (
        outcome,
        seq![5u8, 0u8] + replies,
    ));
    assert(Seq::<u8>::empty() + (seq![5u8, 0u8] + replies) =~= seq![5u8, 0u8] + replies);
}

/// What is refused, and when: a greeting of another version before anything is
/// written; and after the choice of no authentication a request that is no
/// connection, and one for an address of an unknown type.
pub proof fn law_other_requests_are_refused(
    version: u8,
    methods: Seq<u8>,
    a: u8,
    b: u8,
    c: u8,
    kind: u8,
    rest: Seq<u8>,
)
    requires
        methods.len() <= 255,
    ensures
        version != 5 ==> conversation(
            Socks5State::Greeting,
            seq![version, methods.len() as u8] + methods + rest,
        ) == (Outcome::Refused("not SOCKS5"@), Seq::<u8>::empty()),
        a != 5 || b != 1 || c != 0 ==> conversation(
            Socks5State::Greeting,
            seq![5u8, methods.len() as u8] + methods + (seq![a, b, c, kind] + rest),
        ) == (Outcome::Refused("unsupported SOCKS5 request"@), seq![5u8, 0u8]),
        kind != 1 && kind != 3 && kind != 4 ==> conversation(
            Socks5State::Greeting,
            seq![5u8, methods.len() as u8] + methods + (seq![5u8, 1u8, 0u8, kind] + rest),
        ) == (Outcome::Refused("unsupported address type"@), seq![5u8, 0u8]),
{
    let n = methods.len() as u8;
    let nothing = Seq::<u8>::empty();
    if version != 5 {
        let input = seq![version, n] + methods + rest;
        assert(input.take(2)[0] == version);
    }
    assert(seq![5u8, 0u8] + nothing =~= seq![5u8, 0u8]);
    if a != 5 || b != 1 || c != 0 {
        let request = seq![a, b, c, kind] + rest;
        lemma_up_to_request(methods, request);
        assert(request.take(4) =~= seq![a, b, c, kind]);
    }
    if kind != 1 && kind != 3 && kind != 4 {
        let request = seq![5u8, 1u8, 0u8, kind] + rest;
        lemma_up_to_request(methods, request);
        assert(request.take(4) =~= seq![5u8, 1u8, 0u8, kind]);
    }
}

/// The targets that are understood, byte by byte: four bytes and a port, a name of
/// any bytes up to its length and a port, and sixteen bytes and a port. What
/// follows is left for the connection.
pub proof fn law_targets_are_understood(
    methods: Seq<u8>,
    host: Seq<u8>,
    hi: u8,
    lo: u8,
    rest: Seq<u8>,
)
    requires
        methods.len() <= 255,
    ensures
        ({
            let begin = seq![5u8, methods.len() as u8] + methods;
            let port = (hi as int * 256 + lo as int) as u16;
            &&& host.len() == 4 ==> conversation(
                Socks5State::Greeting,
                begin + (seq![5u8, 1u8, 0u8, 1u8] + (host + seq![hi, lo] + rest)),
            ) == (Outcome::Target(Addr::IPv4(host, port), rest), seq![5u8, 0u8])
            &&& host.len() <= 255 ==> conversation(
                Socks5State::Greeting,
                begin + (seq![5u8, 1u8, 0u8, 3u8] + (seq![host.len() as u8] + (host + seq![hi, lo]
                    + rest))),
            ) == (Outcome::Target(Addr::Domain(lossy_text(host), port), rest), seq![5u8, 0u8])
            &&& host.len() == 16 ==> conversation(
                Socks5State::Greeting,
                begin + (seq![5u8, 1u8, 0u8, 4u8] + (host + seq![hi, lo] + rest)),
            ) == (Outcome::Target(Addr::IPv6(host, port), rest), seq![5u8, 0u8])
        }),
{
    let body = host + seq![hi, lo] + rest;
    let n = host.len() as int;
    let nothing = Seq::<u8>::empty();
    assert(nothing + nothing =~= nothing);
    assert(seq![5u8, 0u8] + nothing =~= seq![5u8, 0u8]);
    assert(body.take(n + 2).take(n) =~= host);
    assert(body.take(n + 2)[n] == hi && body.take(n + 2)[n + 1] == lo);
    assert(body.skip(n + 2) =~= rest);
    if n == 4 {
        let request = seq![5u8, 1u8, 0u8, 1u8] + body;
        lemma_up_to_request(methods, request);
        lemma_request_leads_on(1, body);
    }
    if n <= 255 {
        let named = seq![n as u8] + body;
        let request = seq![5u8, 1u8, 0u8, 3u8] + named;
        lemma_up_to_request(methods, request);
        lemma_request_leads_on(3, named);
        assert(named.take(1)[0] == n as u8);
        assert(named.skip(1) =~= body);
        assert(conversation(Socks5State::Name(n as u8), body) == (
            Outcome::Target(
                Addr::Domain(lossy_text(host), (hi as int * 256 + lo as int) as u16),
                rest,
            ),
            nothing,
        ));
    }
    if n == 16 {
        let request = seq![5u8, 1u8, 0u8, 4u8] + body;
        lemma_up_to_request(methods, request);
        lemma_request_leads_on(4, body);
    }
}

proof fn lemma_request_leads_on(kind: u8, body: Seq<u8>)
    requires
        kind == 1 || kind == 3 || kind == 4,
    ensures
        conversation(Socks5State::Request, seq![5u8, 1u8, 0u8, kind] + body) == conversation(
            if kind == 1 {
                Socks5State::IPv4
            } else if kind == 3 {
                Socks5State::NameLen
            } else {
                Socks5State::IPv6
            },
            body,
        ),
{
    let request = seq![5u8, 1u8, 0u8, kind] + body;
    assert(request.take(4) =~= seq![5u8, 1u8, 0u8, kind]);
    assert(request.skip(4) =~= body);
    let next = if kind == 1 {
        Socks5State::IPv4
    } else if kind == 3 {
        Socks5State::NameLen
    } else {
        Socks5State::IPv6
    };
    let replies = conversation(next, body).1;
    assert(Seq::<u8>::empty() + replies =~= replies);
}

} // verus!
