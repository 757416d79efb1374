//! Frames: a nonce, the length of the ciphertext in big-endian order, and the
//! ciphertext.

use crate::address::{be16, push_be16, read_be16};
use crate::crypto::{
    connection_key, decrypted, digestible, random_failure, sealed, Cipher, NONCE_LEN, SALT_LEN,
    TAG_LEN,
};
use vstd::prelude::*;

verus! {

/// The longest payload of a frame.
pub const MAX_PAYLOAD_LEN: usize = 65519;

/// The payload that asks for the tunnel device.
pub const TUN_MODE: u8 = 0x00;

/// The bytes of a frame before its ciphertext.
pub const HEADER_LEN: usize = 14;

/// The frame with this nonce and ciphertext.
pub open spec fn framed(nonce: Seq<u8>, ciphertext: Seq<u8>) -> Seq<u8> {
    nonce + be16(ciphertext.len() as u16) + ciphertext
}

/// The length of the ciphertext that the header at the front of `bytes` states.
pub open spec fn body_len(bytes: Seq<u8>) -> nat {
    (bytes[12] * 256 + bytes[13]) as nat
}

/// The length of the frame whose header stands at the front of `bytes`.
pub open spec fn frame_len(bytes: Seq<u8>) -> nat {
    HEADER_LEN as nat + body_len(bytes)
}

/// Whether a whole frame stands at the front of `bytes`.
pub open spec fn holds_frame(bytes: Seq<u8>) -> bool {
    bytes.len() >= HEADER_LEN && bytes.len() >= frame_len(bytes)
}

/// The payload of the frame at the front of `bytes`, and the length of that
/// frame.
pub open spec fn decoded(key: Seq<u8>, bytes: Seq<u8>) -> Result<(Seq<u8>, nat), Seq<char>> {
    if bytes.len() < HEADER_LEN {
        Err("frame too short"@)
    } else if bytes.len() < frame_len(bytes) {
        Err("frame truncated"@)
    } else {
        match decrypted(
            key,
            bytes.take(NONCE_LEN as int),
            bytes.subrange(HEADER_LEN as int, frame_len(bytes) as int),
        ) {
            Ok(plain) => Ok((plain, frame_len(bytes))),
            Err(e) => Err(e),
        }
    }
}

/// The frame that carries `payload` under `key` and `nonce`.
pub open spec fn encoded(key: Seq<u8>, nonce: Seq<u8>, payload: Seq<u8>) -> Seq<u8> {
    framed(nonce, sealed(key, nonce, payload))
}

/// Puts a frame together.
pub fn assemble(nonce: &[u8; 12], ciphertext: &[u8]) -> (result: Result<Vec<u8>, String>)
    ensures
        match result {
            Ok(frame) => ciphertext@.len() <= 65535 && frame@ == framed(nonce@, ciphertext@),
            Err(e) => ciphertext@.len() > 65535 && e@ == "ciphertext too large"@,
        },
{
    if ciphertext.len() > 65535 {
        return Err("ciphertext too large".to_owned());
    }
    let mut frame: Vec<u8> = Vec::with_capacity(HEADER_LEN + ciphertext.len());
    frame.extend_from_slice(nonce);
    push_be16(&mut frame, ciphertext.len() as u16);
    frame.extend_from_slice(ciphertext);
    assert(frame@ == framed(nonce@, ciphertext@));
    Ok(frame)
}

/// The length of the ciphertext that a header states.
pub fn ciphertext_len(header: &[u8]) -> (len: usize)
    requires
        header@.len() >= HEADER_LEN,
    ensures
        len == body_len(header@),
        len <= 65535,
{
    read_be16(header[12], header[13]) as usize
}

/// The frames of one connection.
pub struct Frame {
    cipher: Cipher,
}

impl View for Frame {
    type V = Seq<u8>;

    /// The key of the connection.
    closed spec fn view(&self) -> Seq<u8> {
        self.cipher@
    }
}

impl Frame {
    /// The frames of the connection with this password and salt.
    pub fn new(password: &str, salt: &[u8]) -> (frame: Self)
        requires
            digestible(password@, salt@),
        ensures
            frame@ == connection_key(password@, salt@),
    {
        Self { cipher: Cipher::new(password, salt) }
    }

    /// How long a salt is.
    pub fn salt_len() -> (len: usize)
        ensures
            len == SALT_LEN,
    {
        Cipher::salt_len()
    }

    /// A fresh salt. It fails only where the random source does.
    pub fn generate_salt() -> (result: Result<Vec<u8>, String>)
        ensures
            match result {
                Ok(salt) => salt@.len() == SALT_LEN,
                Err(e) => e@ == random_failure(),
            },
    {
        Cipher::generate_salt()
    }

    /// The frame that carries `payload` under `nonce`. It can be decoded, and
    /// gives `payload` back and the whole of its length.
    pub fn encode_with(&self, nonce: &[u8; 12], payload: &[u8]) -> (result: Result<
        Vec<u8>,
        String,
    >)
        ensures
            match result {
                Ok(frame) => payload@.len() <= MAX_PAYLOAD_LEN && frame@ == encoded(
                    self@,
                    nonce@,
                    payload@,
                ),
                Err(e) => payload@.len() > MAX_PAYLOAD_LEN && e@ == "payload too large"@,
            },
            result matches Ok(frame) ==> frame@.len() == HEADER_LEN + payload@.len() + TAG_LEN
                && frame@.take(NONCE_LEN as int) == nonce@ && decoded(self@, frame@) == Ok::<
                (Seq<u8>, nat),
                Seq<char>,
            >((payload@, frame@.len())),
    {
        if payload.len() > MAX_PAYLOAD_LEN {
            return Err("payload too large".to_owned());
        }
        let ciphertext = self.cipher.encrypt(nonce.as_slice(), payload)?;
        let frame = assemble(nonce, ciphertext.as_slice())?;
        proof {
            assert(frame@.take(NONCE_LEN as int) =~= nonce@);
            assert(frame@.subrange(HEADER_LEN as int, frame_len(frame@) as int)
                =~= ciphertext@);
        }
        Ok(frame)
    }

    /// The frame that carries `payload` under a fresh nonce. It can be decoded,
    /// and gives `payload` back and the whole of its length. Beside a payload
    /// that is too large only the random source can make this fail.
    pub fn encode(&self, payload: &[u8]) -> (result: Result<Vec<u8>, String>)
        ensures
            payload@.len() > MAX_PAYLOAD_LEN <==> (result matches Err(e) && e@
                == "payload too large"@),
            result matches Err(e) ==> e@ == "payload too large"@ || e@ == random_failure(),
            result matches Ok(frame) ==> frame@ == encoded(
                self@,
                frame@.take(NONCE_LEN as int),
                payload@,
            ) && frame@.len() == HEADER_LEN + payload@.len() + TAG_LEN && decoded(self@, frame@)
                == Ok::<(Seq<u8>, nat), Seq<char>>((payload@, frame@.len())),
    {
        if payload.len() > MAX_PAYLOAD_LEN {
            return Err("payload too large".to_owned());
        }
        proof {
            reveal_strlit("payload too large");
            reveal_strlit("random source failed: ");
            assert("payload too large"@[0] != random_failure()[0]);
        }
        let nonce = Cipher::generate_nonce()?;
        self.encode_with(&nonce, payload)
    }

    /// The payload of the frame at the front of `frame`, and the length of that
    /// frame.
    pub fn decode(&self, frame: &[u8]) -> (result: Result<(Vec<u8>, usize), String>)
        ensures
            match result {
                Ok((plain, n)) => decoded(self@, frame@) == Ok::<(Seq<u8>, nat), Seq<char>>(
                    (plain@, n as nat),
                ),
                Err(e) => decoded(self@, frame@) == Err::<(Seq<u8>, nat), Seq<char>>(e@),
            },
            result matches Ok((plain, n)) ==> n <= frame@.len() && n == HEADER_LEN + plain@.len()
                + TAG_LEN && frame@.take(n as int) == encoded(
                self@,
                frame@.take(NONCE_LEN as int),
                plain@,
            ),
    {
        if frame.len() < HEADER_LEN {
            return Err("frame too short".to_owned());
        }
        let nonce = vstd::slice::slice_subrange(frame, 0, NONCE_LEN);
        let ct_len = ciphertext_len(frame);
        let ct_start = HEADER_LEN;
        if frame.len() < ct_start + ct_len {
            return Err("frame truncated".to_owned());
        }
        let ciphertext = vstd::slice::slice_subrange(frame, ct_start, ct_start + ct_len);
        assert(nonce@ =~= frame@.take(NONCE_LEN as int));
        let plain = self.cipher.decrypt(nonce, ciphertext)?;
        proof {
            let n = (ct_start + ct_len) as int;
            assert(be16(ct_len as u16) =~= seq![frame@[12], frame@[13]]);
            assert(frame@.take(n) =~= framed(nonce@, ciphertext@));
        }
        Ok((plain, ct_start + ct_len))
    }
}

/// What is decoded depends only on the frame, not on what follows it.
pub proof fn law_decode_ignores_rest(key: Seq<u8>, frame: Seq<u8>, rest: Seq<u8>)
    requires
        holds_frame(frame),
    ensures
        decoded(key, frame + rest) == decoded(key, frame),
{
    let all = frame + rest;
    assert(frame_len(all) == frame_len(frame));
    assert(all.take(NONCE_LEN as int) =~= frame.take(NONCE_LEN as int));
    assert(all.subrange(HEADER_LEN as int, frame_len(all) as int) =~= frame.subrange(
        HEADER_LEN as int,
        frame_len(frame) as int,
    ));
}

/// A frame that was put together states its own length.
pub proof fn law_frame_states_its_length(nonce: Seq<u8>, ciphertext: Seq<u8>)
    requires
        nonce.len() == NONCE_LEN,
        ciphertext.len() <= 65535,
    ensures
        framed(nonce, ciphertext).len() == HEADER_LEN + ciphertext.len(),
        frame_len(framed(nonce, ciphertext)) == framed(nonce, ciphertext).len(),
        holds_frame(framed(nonce, ciphertext)),
{
}

/// The frame that [`Frame::encode_with`] makes: the nonce, the length of what
/// follows, and the sealed payload, for every payload of up to 65519 bytes.
pub proof fn law_encode_layout(
    frame: Frame,
    nonce: [u8; 12],
    payload: &[u8],
    out: Result<Vec<u8>, String>,
)
    requires
        call_ensures(Frame::encode_with, (&frame, &nonce, payload), out),
    ensures
        payload@.len() > 65519 ==> (out matches Err(e) && e@ == "payload too large"@),
        payload@.len() <= 65519 ==> {
            &&& out matches Ok(bytes)
            &&& bytes@.take(12) == nonce@
            &&& bytes@[12] as int * 256 + bytes@[13] as int == payload@.len() + 16
            &&& bytes@.skip(14) == sealed(frame@, nonce@, payload@)
            &&& bytes@.len() == payload@.len() + 30
        },
{
    if let Ok(bytes) = out {
        let body = sealed(frame@, nonce@, payload@);
        assert(bytes@.len() == 14 + body.len());
        assert(bytes@.skip(14) =~= body);
        assert(bytes@.take(12) =~= nonce@);
    }
}

/// [`Frame::encode`] makes the same frame under the nonce that it drew, and fails
/// on a payload of up to 65519 bytes only where the random source does.
pub proof fn law_encode_layout_of_drawn_nonce(
    frame: Frame,
    payload: &[u8],
    out: Result<Vec<u8>, String>,
)
    requires
        call_ensures(Frame::encode, (&frame, payload), out),
    ensures
        payload@.len() > 65519 ==> (out matches Err(e) && e@ == "payload too large"@),
        payload@.len() <= 65519 ==> match out {
            Ok(bytes) => {
                &&& bytes@.len() == payload@.len() + 30
                &&& bytes@[12] as int * 256 + bytes@[13] as int == payload@.len() + 16
                &&& bytes@.skip(14) == sealed(frame@, bytes@.take(12), payload@)
            },
            Err(e) => e@ == "random source failed: "@ + "ring::error::Unspecified"@,
        },
{
    if let Ok(bytes) = out {
        let nonce = bytes@.take(12);
        let body = sealed(frame@, nonce, payload@);
        assert(bytes@ == nonce + be16(body.len() as u16) + body);
        assert(bytes@.skip(14) =~= body);
    }
}

/// [`Frame::decode`] gives back what either way of encoding was given, whatever
/// follows the frame, to whoever has the key; and it says how long the frame was.
pub proof fn law_decode_undoes_encode(
    frame: Frame,
    other: Frame,
    payload: &[u8],
    bytes: Vec<u8>,
    rest: Seq<u8>,
    received: &[u8],
    out: Result<(Vec<u8>, usize), String>,
)
    requires
        call_ensures(Frame::encode, (&frame, payload), Ok::<Vec<u8>, String>(bytes)),
        call_ensures(Frame::decode, (&other, received), out),
        other@ == frame@,
        received@ == bytes@ + rest,
    ensures
        out matches Ok((plain, n)) && plain@ == payload@ && n == bytes@.len(),
{
    law_decode_ignores_rest(frame@, bytes@, rest);
}

/// What [`Frame::decode`] makes of any bytes: it opens what stands behind the
/// fourteen bytes of the header, as far as the header says, under the nonce at
/// the front.
pub proof fn law_decode_follows_the_header(
    frame: Frame,
    nonce: Seq<u8>,
    hi: u8,
    lo: u8,
    ciphertext: Seq<u8>,
    rest: Seq<u8>,
    received: &[u8],
    out: Result<(Vec<u8>, usize), String>,
)
    requires
        call_ensures(Frame::decode, (&frame, received), out),
        nonce.len() == 12,
    ensures
        received@.len() < 14 ==> (out matches Err(e) && e@ == "frame too short"@),
        received@.len() >= 14 && received@.len() < 14 + received@[12] as int * 256
            + received@[13] as int ==> (out matches Err(e) && e@ == "frame truncated"@),
        received@ == nonce + seq![hi, lo] + ciphertext + rest && ciphertext.len() == hi as int * 256
            + lo as int ==> match decrypted(frame@, nonce, ciphertext) {
            Ok(plain) => out matches Ok((p, n)) && p@ == plain && n == 14 + ciphertext.len(),
            Err(e) => out matches Err(f) && f@ == e,
        },
{
    if received@ == nonce + seq![hi, lo] + ciphertext + rest && ciphertext.len() == hi as int * 256
        + lo as int {
        assert(received@.take(12) =~= nonce);
        assert(received@[12] == hi && received@[13] == lo);
        assert(received@.subrange(14, 14 + ciphertext.len() as int) =~= ciphertext);
    }
}

/// The frames of a connection have the key of the connection, and the header
/// tells the length.
pub proof fn law_frames_have_the_key(
    password: &str,
    salt: &[u8],
    frame: Frame,
    cipher: Cipher,
    header: &[u8],
    len: usize,
)
    ensures
        call_ensures(Frame::new, (password, salt), frame) && call_ensures(
            Cipher::new,
            (password, salt),
            cipher,
        ) ==> frame@ == cipher@,
        call_ensures(ciphertext_len, (header,), len) ==> len == header@[12] as int * 256
            + header@[13] as int,
{
}

} // verus!
