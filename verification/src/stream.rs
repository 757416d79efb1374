//! Frames in a stream of bytes that arrives in chunks of any size.

use crate::frame::{
    ciphertext_len, decoded, frame_len, holds_frame, law_decode_ignores_rest, Frame, HEADER_LEN,
};
use vstd::prelude::*;

verus! {

/// What the bytes of a stream give.
pub ghost struct Drained {
    /// The payloads of the frames, in order.
    pub payloads: Seq<Seq<u8>>,
    /// The bytes behind the last frame that was decoded.
    pub rest: Seq<u8>,
    /// Why the frame at the front of `rest` cannot be decoded, if it is whole.
    pub error: Option<Seq<char>>,
}

/// The payloads of the frames at the front of `bytes`, up to the first one that
/// is not whole or cannot be decoded.
pub open spec fn drained(key: Seq<u8>, bytes: Seq<u8>) -> Drained
    decreases bytes.len(),
{
    if !holds_frame(bytes) {
        Drained { payloads: seq![], rest: bytes, error: None }
    } else {
        match decoded(key, bytes) {
            Err(e) => Drained { payloads: seq![], rest: bytes, error: Some(e) },
            Ok((payload, _)) => {
                let behind = drained(key, bytes.skip(frame_len(bytes) as int));
                Drained {
                    payloads: seq![payload] + behind.payloads,
                    rest: behind.rest,
                    error: behind.error,
                }
            },
        }
    }
}

/// The byte sequences that a list of vectors holds.
pub open spec fn blobs(list: Seq<Vec<u8>>) -> Seq<Seq<u8>> {
    list.map_values(|v: Vec<u8>| v@)
}

/// The text of an optional string.
pub open spec fn opt_text(text: Option<String>) -> Option<Seq<char>> {
    match text {
        Some(t) => Some(t@),
        None => None,
    }
}

/// The bytes of a stream that are not decoded yet.
pub struct FrameStream {
    leftover: Vec<u8>,
}

impl View for FrameStream {
    type V = Seq<u8>;

    closed spec fn view(&self) -> Seq<u8> {
        self.leftover@
    }
}

impl FrameStream {
    /// Nothing has come yet.
    pub fn new() -> (stream: Self)
        ensures
            stream@ == Seq::<u8>::empty(),
    {
        Self { leftover: Vec::new() }
    }

    /// Takes in a chunk and gives the payloads of all frames that are whole by
    /// now, and the reason why one of them cannot be decoded, if so.
    pub fn receive(&mut self, frame: &Frame, chunk: &[u8]) -> (out: (Vec<Vec<u8>>, Option<String>))
        ensures
            ({
                let all = drained(frame@, old(self)@ + chunk@);
                &&& blobs(out.0@) == all.payloads
                &&& opt_text(out.1) == all.error
                &&& final(self)@ == all.rest
            }),
    {
        let ghost before = self.leftover@;
        self.leftover.extend_from_slice(chunk);
        let ghost all = before + chunk@;
        assert(self.leftover@ == all);
        let mut payloads: Vec<Vec<u8>> = Vec::new();
        assert(blobs(payloads@) + drained(frame@, all).payloads =~= drained(frame@, all).payloads);
        loop
            invariant
                blobs(payloads@) + drained(frame@, self.leftover@).payloads == drained(
                    frame@,
                    all,
                ).payloads,
                drained(frame@, self.leftover@).rest == drained(frame@, all).rest,
                drained(frame@, self.leftover@).error == drained(frame@, all).error,
                all == old(self)@ + chunk@,
            decreases self.leftover@.len(),
        {
            let ghost now = self.leftover@;
            if self.leftover.len() < HEADER_LEN {
                assert(blobs(payloads@) + Seq::<Seq<u8>>::empty() =~= blobs(payloads@));
                return (payloads, None);
            }
            let frame_end = HEADER_LEN + ciphertext_len(self.leftover.as_slice());
            if self.leftover.len() < frame_end {
                assert(blobs(payloads@) + Seq::<Seq<u8>>::empty() =~= blobs(payloads@));
                return (payloads, None);
            }
            let frame_bytes = vstd::slice::slice_subrange(self.leftover.as_slice(), 0, frame_end);
            proof {
                law_decode_ignores_rest(frame@, frame_bytes@, now.skip(frame_end as int));
                assert(frame_bytes@ + now.skip(frame_end as int) =~= now);
            }
            match frame.decode(frame_bytes) {
                Err(e) => {
                    assert(blobs(payloads@) + Seq::<Seq<u8>>::empty() =~= blobs(payloads@));
                    return (payloads, Some(e));
                },
                Ok((plain, _)) => {
                    let ghost earlier = payloads@;
                    let rest = self.leftover.split_off(frame_end);
                    self.leftover = rest;
                    payloads.push(plain);
                    proof {
                        assert(self.leftover@ =~= now.skip(frame_end as int));
                        assert(blobs(payloads@) =~= blobs(earlier).push(plain@));
                        let behind = drained(frame@, self.leftover@).payloads;
                        assert(blobs(earlier) + (seq![plain@] + behind) =~= blobs(earlier).push(
                            plain@,
                        ) + behind);
                    }
                },
            }
        }
    }
}

/// The payload of the frame with this header and this ciphertext.
pub fn read_frame(frame: &Frame, header: &[u8], ciphertext: &[u8]) -> (result: Result<
    (Vec<u8>, usize),
    String,
>)
    requires
        header@.len() == HEADER_LEN,
    ensures
        match result {
            Ok((plain, n)) => decoded(frame@, header@ + ciphertext@) == Ok::<
                (Seq<u8>, nat),
                Seq<char>,
            >((plain@, n as nat)),
            Err(e) => decoded(frame@, header@ + ciphertext@) == Err::<(Seq<u8>, nat), Seq<char>>(
                e@,
            ),
        },
{
    let mut full_frame: Vec<u8> = Vec::new();
    full_frame.extend_from_slice(header);
    full_frame.extend_from_slice(ciphertext);
    assert(full_frame@ =~= header@ + ciphertext@);
    frame.decode(full_frame.as_slice())
}

/// Where a stream is cut into chunks makes no difference: the payloads of
/// the first chunk, then those of what it left together with the second chunk,
/// are the payloads of both chunks in one. An error is final.
pub proof fn law_chunks_do_not_matter(key: Seq<u8>, first: Seq<u8>, second: Seq<u8>)
    ensures
        ({
            let a = drained(key, first);
            let b = drained(key, a.rest + second);
            let whole = drained(key, first + second);
            &&& a.error is None ==> whole.payloads == a.payloads + b.payloads && whole.rest
                == b.rest && whole.error == b.error
            &&& a.error is Some ==> whole.payloads == a.payloads && whole.error == a.error
        }),
    decreases first.len(),
{
    let a = drained(key, first);
    let whole = drained(key, first + second);
    if !holds_frame(first) {
        assert(a.payloads + whole.payloads =~= whole.payloads);
    } else {
        let n = frame_len(first) as int;
        law_decode_ignores_rest(key, first, second);
        assert(frame_len(first + second) == n);
        if decoded(key, first) is Ok {
            let behind = first.skip(n);
            assert((first + second).skip(n) =~= behind + second);
            law_chunks_do_not_matter(key, behind, second);
            let c = drained(key, behind);
            let b = drained(key, a.rest + second);
            let payload = decoded(key, first)->Ok_0.0;
            assert(seq![payload] + (c.payloads + b.payloads) =~= (seq![payload] + c.payloads)
                + b.payloads);
        }
    }
}

/// The frames one after another.
pub open spec fn joined(frames: Seq<Seq<u8>>) -> Seq<u8>
    decreases frames.len(),
{
    if frames.len() == 0 {
        seq![]
    } else {
        frames[0] + joined(frames.skip(1))
    }
}

/// A stream of frames that each decode to a payload gives these payloads in
/// their order, and nothing is left over.
pub proof fn law_stream_gives_every_payload(
    key: Seq<u8>,
    frames: Seq<Seq<u8>>,
    payloads: Seq<Seq<u8>>,
)
    requires
        frames.len() == payloads.len(),
        forall|i: int|
            0 <= i < frames.len() ==> decoded(key, #[trigger] frames[i]) == Ok::<
                (Seq<u8>, nat),
                Seq<char>,
            >((payloads[i], frames[i].len())),
    ensures
        drained(key, joined(frames)) == (Drained { payloads, rest: seq![], error: None }),
    decreases frames.len(),
{
    if frames.len() == 0 {
        assert(payloads =~= seq![]);
    } else {
        let first = frames[0];
        let others = joined(frames.skip(1));
        assert(decoded(key, first) == Ok::<(Seq<u8>, nat), Seq<char>>((payloads[0], first.len())));
        assert(holds_frame(first));
        law_decode_ignores_rest(key, first, others);
        assert(joined(frames) == first + others);
        assert(frame_len(first + others) == frame_len(first));
        assert((first + others).skip(first.len() as int) =~= others);
        assert forall|i: int| 0 <= i < frames.skip(1).len() implies decoded(
            key,
            #[trigger] frames.skip(1)[i],
        ) == Ok::<(Seq<u8>, nat), Seq<char>>((payloads.skip(1)[i], frames.skip(1)[i].len())) by {
            assert(frames.skip(1)[i] == frames[i + 1]);
        }
        law_stream_gives_every_payload(key, frames.skip(1), payloads.skip(1));
        assert(seq![payloads[0]] + payloads.skip(1) =~= payloads);
    }
}

/// The frames before a tail give their payloads, whatever the tail is; the rest
/// depends on the tail alone.
pub proof fn law_frames_before_a_tail_are_given(
    key: Seq<u8>,
    frames: Seq<Seq<u8>>,
    payloads: Seq<Seq<u8>>,
    tail: Seq<u8>,
)
    requires
        frames.len() == payloads.len(),
        forall|i: int|
            0 <= i < frames.len() ==> decoded(key, #[trigger] frames[i]) == Ok::<
                (Seq<u8>, nat),
                Seq<char>,
            >((payloads[i], frames[i].len())),
    ensures
        drained(key, joined(frames) + tail).payloads == payloads + drained(key, tail).payloads,
        drained(key, joined(frames) + tail).rest == drained(key, tail).rest,
        drained(key, joined(frames) + tail).error == drained(key, tail).error,
{
    law_stream_gives_every_payload(key, frames, payloads);
    law_chunks_do_not_matter(key, joined(frames), tail);
    assert(Seq::<u8>::empty() + tail =~= tail);
}

/// A tail that is no whole frame waits for more, and nothing of it is lost. A
/// whole frame that cannot be decoded is told, and nothing behind it is given.
pub proof fn law_tails(key: Seq<u8>, tail: Seq<u8>)
    ensures
        tail.len() < 14 || tail.len() < 14 + tail[12] as int * 256 + tail[13] as int ==> drained(
            key,
            tail,
        ) == (Drained { payloads: seq![], rest: tail, error: None }),
        tail.len() >= 14 && tail.len() >= 14 + tail[12] as int * 256 + tail[13] as int ==> (decoded(
            key,
            tail,
        ) matches Err(e) ==> drained(key, tail) == (Drained {
            payloads: seq![],
            rest: tail,
            error: Some(e),
        })),
{
}

/// [`read_frame`] decodes the header and the ciphertext as one.
pub proof fn law_read_frame_decodes_both_parts(
    frame: Frame,
    header: &[u8],
    ciphertext: &[u8],
    both: &[u8],
    out: Result<(Vec<u8>, usize), String>,
    decoded_whole: Result<(Vec<u8>, usize), String>,
)
    requires
        call_ensures(read_frame, (&frame, header, ciphertext), out),
        call_ensures(Frame::decode, (&frame, both), decoded_whole),
        both@ == header@ + ciphertext@,
    ensures
        match decoded_whole {
            Ok((plain, n)) => out matches Ok((p, m)) && p@ == plain@ && m == n,
            Err(e) => out matches Err(f) && f@ == e@,
        },
{
}

/// [`FrameStream::receive`] gives the payloads of all frames that are whole by now,
/// however many they are and wherever they were cut, in their order; it keeps what
/// is no whole frame yet, and tells of a whole frame that cannot be decoded.
pub proof fn law_receive_gives_every_payload(
    stream: &mut FrameStream,
    frame: Frame,
    chunk: &[u8],
    out: (Vec<Vec<u8>>, Option<String>),
    frames: Seq<Seq<u8>>,
    payloads: Seq<Seq<u8>>,
    tail: Seq<u8>,
    i: int,
)
    requires
        call_ensures(FrameStream::receive, (stream, &frame, chunk), out),
        old(stream)@ + chunk@ == joined(frames) + tail,
        frames.len() == payloads.len(),
        forall|i: int|
            0 <= i < frames.len() ==> decoded(frame@, #[trigger] frames[i]) == Ok::<
                (Seq<u8>, nat),
                Seq<char>,
            >((payloads[i], frames[i].len())),
    ensures
        ({
            let partial = tail.len() < 14 || tail.len() < 14 + tail[12] as int * 256
                + tail[13] as int;
            let bad = !partial && decoded(frame@, tail) is Err;
            &&& partial || bad ==> out.0@.len() == payloads.len() && final(stream)@ == tail && (0
                <= i < payloads.len() ==> out.0@[i]@ == payloads[i])
            &&& partial ==> out.1 is None
            &&& bad ==> (out.1 matches Some(e) && decoded(frame@, tail) == Err::<
                (Seq<u8>, nat),
                Seq<char>,
            >(e@))
        }),
{
    law_frames_before_a_tail_are_given(frame@, frames, payloads, tail);
    law_tails(frame@, tail);
    assert(payloads + Seq::<Seq<u8>>::empty() =~= payloads);
    assert(blobs(out.0@).len() == out.0@.len());
    assert(0 <= i < out.0@.len() ==> blobs(out.0@)[i] == out.0@[i]@);
}

} // verus!
