//! What the two stream threads compute: requests from the bytes that come in, and the bytes
//! that go out for a message. Reading and writing the streams themselves is left to the caller.

use crate::decode::{decode_tokens, request_of, viewed, DecodeError};
use crate::decoder::{
    fails_with, news, scanned, step_tokens, stepped, tokenize, DecoderView, FrameDecoder, Status,
};
use crate::delimit::{
    contents, remainder, segments, terminate, DelimitedReader, Delimiter,
};
use crate::encode::{encode, message_tokens, EncodeError};
use crate::frame::{frames, rendered, state_after, texts};
use crate::protocol::{Message, Request, RequestView};
use crate::token::{views, TokenView};
use vstd::prelude::*;
use vstd::string::*;
use vstd::utf8::encode_utf8;

verus! {

/// A frame that is no request, and why.
#[derive(Clone, Debug, PartialEq, Eq)]
pub struct Rejected {
    /// The bytes of the frame.
    pub frame: Vec<u8>,
    /// Why it is no request.
    pub error: DecodeError,
}

/// What a chunk of input gives: the requests to queue for the control loop, in the order of
/// their frames, and the frames to report as no requests.
#[derive(Debug, PartialEq, Eq)]
pub struct Inbound {
    pub requests: Vec<Request>,
    pub rejected: Vec<Rejected>,
}

/// The requests among the outcomes of decoding a run of frames, in order.
pub open spec fn accepted(outcomes: Seq<Result<RequestView, DecodeError>>) -> Seq<RequestView>
    decreases outcomes.len(),
{
    if outcomes.len() == 0 {
        Seq::empty()
    } else {
        match outcomes.last() {
            Ok(request) => accepted(outcomes.drop_last()).push(request),
            Err(_) => accepted(outcomes.drop_last()),
        }
    }
}

/// The errors among the outcomes of decoding a run of frames, in order.
pub open spec fn refused(outcomes: Seq<Result<RequestView, DecodeError>>) -> Seq<DecodeError>
    decreases outcomes.len(),
{
    if outcomes.len() == 0 {
        Seq::empty()
    } else {
        match outcomes.last() {
            Ok(_) => refused(outcomes.drop_last()),
            Err(error) => refused(outcomes.drop_last()).push(error),
        }
    }
}

/// The frames among `frames` whose outcome is an error, in order.
pub open spec fn refused_frames(
    frames: Seq<Seq<u8>>,
    outcomes: Seq<Result<RequestView, DecodeError>>,
) -> Seq<Seq<u8>>
    decreases outcomes.len(),
{
    if outcomes.len() == 0 || frames.len() != outcomes.len() {
        Seq::empty()
    } else {
        match outcomes.last() {
            Ok(_) => refused_frames(frames.drop_last(), outcomes.drop_last()),
            Err(_) => refused_frames(frames.drop_last(), outcomes.drop_last()).push(frames.last()),
        }
    }
}

/// The views of the requests.
pub open spec fn request_views(requests: Seq<Request>) -> Seq<RequestView> {
    requests.map_values(|r: Request| r@)
}

/// The errors of the rejected frames.
pub open spec fn errors(rejected: Seq<Rejected>) -> Seq<DecodeError> {
    rejected.map_values(|r: Rejected| r.error)
}

/// The frames that were rejected.
pub open spec fn rejected_frames(rejected: Seq<Rejected>) -> Seq<Seq<u8>> {
    rejected.map_values(|r: Rejected| r.frame@)
}

/// The bytes of each text.
pub open spec fn encoded(texts: Seq<Seq<char>>) -> Seq<Seq<u8>> {
    Seq::new(texts.len(), |i: int| encode_utf8(texts[i]))
}

/// The requests of two runs of frames are those of the first run, then those of the second.
pub proof fn lemma_accepted_concat(
    a: Seq<Result<RequestView, DecodeError>>,
    b: Seq<Result<RequestView, DecodeError>>,
)
    ensures
        accepted(a + b) == accepted(a) + accepted(b),
        refused(a + b) == refused(a) + refused(b),
    decreases b.len(),
{
    if b.len() == 0 {
        assert(a + b == a);
    } else {
        assert((a + b).drop_last() == a + b.drop_last());
        assert((a + b).last() == b.last());
        lemma_accepted_concat(a, b.drop_last());
    }
}

/// The outcome of one frame is accepted if it is a request and refused if it is none.
proof fn lemma_one_outcome(outcome: Result<RequestView, DecodeError>)
    ensures
        accepted(seq![outcome]) == match outcome {
            Ok(request) => seq![request],
            Err(_) => Seq::<RequestView>::empty(),
        },
        refused(seq![outcome]) == match outcome {
            Ok(_) => Seq::<DecodeError>::empty(),
            Err(error) => seq![error],
        },
{
    let one = seq![outcome];
    assert(one.drop_last() == Seq::<Result<RequestView, DecodeError>>::empty());
    assert(one.last() == outcome);
    assert(accepted(one.drop_last()) == Seq::<RequestView>::empty());
    assert(refused(one.drop_last()) == Seq::<DecodeError>::empty());
    assert(Seq::<RequestView>::empty().push(outcome->Ok_0) == seq![outcome->Ok_0]);
    assert(Seq::<DecodeError>::empty().push(outcome->Err_0) == seq![outcome->Err_0]);
}

/// A frame that is no request does not stop the stream: the requests of the frames before it
/// and of the frames behind it are all accepted, in order, and it is the one frame more that
/// is reported.
pub proof fn lemma_rejected_frame_is_not_fatal(
    before: Seq<Result<RequestView, DecodeError>>,
    error: DecodeError,
    after: Seq<Result<RequestView, DecodeError>>,
)
    ensures
        accepted(before + seq![Err(error)] + after) == accepted(before) + accepted(after),
        refused(before + seq![Err(error)] + after) == refused(before) + seq![error] + refused(
            after,
        ),
{
    let middle: Seq<Result<RequestView, DecodeError>> = seq![Err(error)];
    lemma_accepted_concat(before, middle);
    lemma_accepted_concat(before + middle, after);
    lemma_one_outcome(Err(error));
    assert(accepted(before) + accepted(middle) == accepted(before));
}

/// One frame that is no request between two frames that are requests gives exactly the two
/// requests, in order.
pub proof fn lemma_malformed_frame_between_two(
    first: RequestView,
    error: DecodeError,
    second: RequestView,
)
    ensures
        accepted(seq![Ok(first), Err(error), Ok(second)]) == seq![first, second],
        refused(seq![Ok::<RequestView, DecodeError>(first), Err(error), Ok(second)]) == seq![
            error,
        ],
{
    let a: Seq<Result<RequestView, DecodeError>> = seq![Ok(first)];
    let c: Seq<Result<RequestView, DecodeError>> = seq![Ok(second)];
    lemma_rejected_frame_is_not_fatal(a, error, c);
    assert(a + seq![Err(error)] + c == seq![Ok(first), Err(error), Ok(second)]);
    lemma_one_outcome(Ok(first));
    lemma_one_outcome(Ok(second));
    assert(seq![first] + seq![second] == seq![first, second]);
    assert(Seq::<DecodeError>::empty() + seq![error] + Seq::<DecodeError>::empty() == seq![error]);
}

/// True when `outcome` is what decoding the frame with these bytes gives: `Malformed` with the
/// failure with which the parser fails on them, and otherwise, where the parser does not
/// fail, what [`request_of`] makes of the tokens of the frame.
pub open spec fn decodes_to(frame: Seq<u8>, outcome: Result<RequestView, DecodeError>) -> bool {
    match outcome {
        Err(DecodeError::Malformed(failure)) => fails_with(frame, failure),
        _ => scanned(frame).failure is None && outcome == request_of(scanned(frame).tokens),
    }
}

/// True when the outcome at every place is what decoding the frame at that place gives, and
/// the requests and the rejected frames of `inbound` are those outcomes sorted, in order.
pub open spec fn sorts(
    frames: Seq<Seq<u8>>,
    outcomes: Seq<Result<RequestView, DecodeError>>,
    inbound: Inbound,
) -> bool {
    &&& outcomes.len() == frames.len()
    &&& forall|i: int| 0 <= i < frames.len() ==> decodes_to(frames[i], #[trigger] outcomes[i])
    &&& request_views(inbound.requests@) == accepted(outcomes)
    &&& errors(inbound.rejected@) == refused(outcomes)
    &&& rejected_frames(inbound.rejected@) == refused_frames(frames, outcomes)
}

/// Reads the request that the text of a frame is.
///
/// The text is tokenized and the tokens are read as [`request_of`] says. A text on which the
/// parser fails is `Malformed`, with that failure; an empty text is no object.
pub fn decode(frame: &[u8]) -> (r: Result<Request, DecodeError>)
    ensures
        decodes_to(frame@, viewed(r)),
        frame@.len() == 0 ==> r matches Err(DecodeError::NotAnObject),
        r matches Ok(request) ==> request@.wf(),
{
    match tokenize(frame) {
        Err(error) => Err(DecodeError::Malformed(error)),
        Ok(tokens) => {
            let r = decode_tokens(tokens.as_slice());
            proof {
                lemma_never_malformed(views(tokens@));
            }
            r
        },
    }
}

/// Reading tokens never gives `Malformed`: that is for texts that give no tokens.
proof fn lemma_never_malformed(tokens: Seq<TokenView>)
    ensures
        !(request_of(tokens) matches Err(DecodeError::Malformed(_))),
{
}

/// Decodes the frames one by one and sorts them into requests and rejected frames.
fn decode_each(completed: Vec<Vec<u8>>) -> (inbound: Inbound)
    ensures
        exists|outcomes: Seq<Result<RequestView, DecodeError>>| #[trigger]
            sorts(contents(completed@), outcomes, inbound),
        forall|i: int|
            0 <= i < inbound.requests@.len() ==> (#[trigger] inbound.requests@[i])@.wf(),
{
    let mut completed = completed;
    let ghost all = contents(completed@);
    let total = completed.len();
    let mut requests: Vec<Request> = Vec::new();
    let mut rejected: Vec<Rejected> = Vec::new();
    let ghost mut outcomes: Seq<Result<RequestView, DecodeError>> = Seq::empty();
    let mut i: usize = 0;
    assert(request_views(requests@) == accepted(outcomes));
    assert(errors(rejected@) == refused(outcomes));
    assert(rejected_frames(rejected@) == refused_frames(all.take(0), outcomes));
    while i < total
        invariant
            i <= total,
            total == completed@.len(),
            all.len() == total,
            forall|k: int| i <= k < total ==> (#[trigger] completed@[k])@ == all[k],
            outcomes.len() == i,
            forall|k: int| 0 <= k < i ==> decodes_to(all[k], #[trigger] outcomes[k]),
            request_views(requests@) == accepted(outcomes),
            errors(rejected@) == refused(outcomes),
            rejected_frames(rejected@) == refused_frames(all.take(i as int), outcomes),
            forall|k: int| 0 <= k < requests@.len() ==> (#[trigger] requests@[k])@.wf(),
        decreases total - i,
    {
        let ghost earlier_requests = requests@;
        let ghost earlier_rejected = rejected@;
        let ghost earlier_outcomes = outcomes;
        let outcome = decode(completed[i].as_slice());
        proof {
            let next = outcomes.push(viewed(outcome));
            assert(next.drop_last() == outcomes);
            assert(all.take(i + 1).drop_last() == all.take(i as int));
            assert(all.take(i + 1).last() == completed@[i as int]@);
            assert forall|k: int| 0 <= k < i + 1 implies decodes_to(all[k], #[trigger] next[k]) by {
                if k < i {
                    assert(next[k] == earlier_outcomes[k]);
                }
            }
            outcomes = next;
        }
        match outcome {
            Ok(request) => {
                requests.push(request);
                assert(request_views(requests@) == request_views(earlier_requests).push(request@));
            },
            Err(error) => {
                let ghost before = completed@;
                let mut bytes: Vec<u8> = Vec::new();
                std::mem::swap(&mut completed[i], &mut bytes);
                assert forall|k: int| i < k < total implies (#[trigger] completed@[k])@
                    == all[k] by {
                    assert(completed@[k] == before[k]);
                }
                rejected.push(Rejected { frame: bytes, error });
                assert(errors(rejected@) == errors(earlier_rejected).push(error));
                assert(rejected_frames(rejected@) == rejected_frames(earlier_rejected).push(
                    bytes@,
                ));
            },
        }
        i = i + 1;
    }
    assert(all.take(total as int) == all);
    let inbound = Inbound { requests, rejected };
    assert(sorts(all, outcomes, inbound));
    inbound
}

/// The bytes of the frames, as vectors.
fn frame_bytes(completed: &Vec<String>) -> (bytes: Vec<Vec<u8>>)
    ensures
        contents(bytes@) == encoded(texts(completed@)),
{
    let mut bytes: Vec<Vec<u8>> = Vec::new();
    let mut i: usize = 0;
    while i < completed.len()
        invariant
            i <= completed@.len(),
            bytes@.len() == i,
            forall|k: int| 0 <= k < i ==> (#[trigger] bytes@[k])@ == encode_utf8(completed@[k]@),
        decreases completed@.len() - i,
    {
        bytes.push(completed[i].as_str().as_bytes_vec());
        i = i + 1;
    }
    assert(contents(bytes@) =~= encoded(texts(completed@)));
    bytes
}

/// Takes the next bytes of the inbound stream: decodes the frames that they complete and sorts
/// them into requests and rejected frames.
///
/// The frames are those that the new tokens complete, as [`stepped`] and [`frames`] say; the
/// outcome of each is what [`decode`] gives for its bytes. A frame that is no request is
/// reported and passed over; the frames behind it are decoded as if it had not been there. Only
/// a malformed token, which fails the decoder, ends the stream.
pub fn process_input(decoder: &mut FrameDecoder, chunk: &[u8]) -> (inbound: Inbound)
    requires
        old(decoder).wf(),
    ensures
        final(decoder).wf(),
        old(decoder)@.status != Status::Active || chunk@.len() == 0 ==> inbound.requests@.len()
            == 0 && inbound.rejected@.len() == 0 && *final(decoder) == *old(decoder),
        stepped(old(decoder)@, final(decoder)@, chunk@),
        exists|outcomes: Seq<Result<RequestView, DecodeError>>| #[trigger]
            sorts(
                encoded(
                    frames(
                        old(decoder)@.assembler,
                        step_tokens(old(decoder)@, final(decoder)@.handed),
                    ),
                ),
                outcomes,
                inbound,
            ),
        forall|i: int|
            0 <= i < inbound.requests@.len() ==> (#[trigger] inbound.requests@[i])@.wf(),
{
    let completed = decoder.feed(chunk);
    let bytes = frame_bytes(&completed);
    proof {
        if old(decoder)@.status != Status::Active {
            lemma_no_step(old(decoder)@);
            assert(texts(completed@) == Seq::<Seq<char>>::empty());
        }
    }
    let inbound = decode_each(bytes);
    proof {
        if old(decoder)@.status != Status::Active || chunk@.len() == 0 {
            let outcomes = choose|outcomes: Seq<Result<RequestView, DecodeError>>| #[trigger]
                sorts(contents(bytes@), outcomes, inbound);
            assert(outcomes.len() == 0);
            assert(outcomes == Seq::<Result<RequestView, DecodeError>>::empty());
            assert(request_views(inbound.requests@).len() == 0);
            assert(errors(inbound.rejected@).len() == 0);
        }
    }
    inbound
}

/// A decoder that is handed nothing more takes no token and completes no frame.
proof fn lemma_no_step(before: DecoderView)
    ensures
        news(before.handed, before.handed) == Seq::<TokenView>::empty(),
        step_tokens(before, before.handed) == Seq::<TokenView>::empty(),
        frames(before.assembler, step_tokens(before, before.handed)) == Seq::<Seq<char>>::empty(),
        state_after(before.assembler, step_tokens(before, before.handed)) == before.assembler,
{
    assert(news(before.handed, before.handed) == Seq::<TokenView>::empty());
    assert(Seq::<TokenView>::empty().take(0) == Seq::<TokenView>::empty());
}

/// Takes the next bytes of an inbound stream whose frames are ended by a delimiter: decodes the
/// frames that they complete and sorts them into requests and rejected frames. The outcome of
/// each frame is what [`decode`] gives for its bytes. A frame that is no request, an empty one
/// too, is reported and passed over.
pub fn process_delimited_input(reader: &mut DelimitedReader, chunk: &[u8]) -> (inbound: Inbound)
    ensures
        final(reader)@.delimiter == old(reader)@.delimiter,
        final(reader)@.partial == remainder(
            old(reader)@.partial,
            chunk@,
            old(reader)@.delimiter.code(),
        ),
        exists|outcomes: Seq<Result<RequestView, DecodeError>>| #[trigger]
            sorts(
                segments(old(reader)@.partial, chunk@, old(reader)@.delimiter.code()),
                outcomes,
                inbound,
            ),
        forall|i: int|
            0 <= i < inbound.requests@.len() ==> (#[trigger] inbound.requests@[i])@.wf(),
{
    let completed = reader.feed(chunk);
    decode_each(completed)
}

/// The bytes that a message is sent as on a stream with the given delimiter: its text, then
/// the delimiter. A message that holds a number that is no number literal is not sent.
pub fn frame_message(message: &Message, delimiter: Delimiter) -> (r: Result<Vec<u8>, EncodeError>)
    ensures
        match r {
            Ok(bytes) => message@.wf() && bytes@ == encode_utf8(
                rendered(message_tokens(message@)),
            ).push(delimiter.code()),
            Err(e) => !message@.wf() && e == EncodeError::NotANumber,
        },
{
    match encode(message) {
        Ok(text) => Ok(terminate(text.as_str(), delimiter)),
        Err(e) => Err(e),
    }
}

/// The bytes that a message is written as to the outbound stream: its text and a line feed.
pub fn process_output(message: &Message) -> (r: Result<Vec<u8>, EncodeError>)
    ensures
        match r {
            Ok(bytes) => message@.wf() && bytes@ == encode_utf8(
                rendered(message_tokens(message@)),
            ).push(0x0au8),
            Err(e) => !message@.wf() && e == EncodeError::NotANumber,
        },
{
    frame_message(message, Delimiter::Newline)
}

/// The lines of the frames: each frame's bytes with a line feed behind them.
pub open spec fn lines(frames: Seq<Seq<char>>) -> Seq<Seq<u8>> {
    Seq::new(frames.len(), |i: int| encode_utf8(frames[i]).push(0x0au8))
}

/// Takes the next bytes of one direction of a relay and returns what is passed on for them:
/// every frame that the new tokens complete, as one line. The same lines are what is written
/// to the log of the direction that is logged.
pub fn process_and_forward_json(decoder: &mut FrameDecoder, chunk: &[u8]) -> (forwarded: Vec<
    Vec<u8>,
>)
    requires
        old(decoder).wf(),
    ensures
        final(decoder).wf(),
        old(decoder)@.status != Status::Active || chunk@.len() == 0 ==> forwarded@.len() == 0
            && *final(decoder) == *old(decoder),
        stepped(old(decoder)@, final(decoder)@, chunk@),
        old(decoder)@.status == Status::Active ==> contents(forwarded@) == lines(
            frames(old(decoder)@.assembler, step_tokens(old(decoder)@, final(decoder)@.handed)),
        ),
{
    let completed = decoder.feed(chunk);
    let mut forwarded: Vec<Vec<u8>> = Vec::new();
    let mut i: usize = 0;
    while i < completed.len()
        invariant
            i <= completed@.len(),
            forwarded@.len() == i,
            forall|j: int|
                0 <= j < i ==> (#[trigger] forwarded@[j])@ == encode_utf8(completed@[j]@).push(
                    0x0au8,
                ),
        decreases completed@.len() - i,
    {
        let line = terminate(completed[i].as_str(), Delimiter::Newline);
        forwarded.push(line);
        i = i + 1;
    }
    assert(contents(forwarded@) =~= lines(texts(completed@)));
    forwarded
}

} // verus!
