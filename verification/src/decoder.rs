//! The frame decoder: bytes in, complete frames out, as soon as each frame is complete.
//!
//! The bytes are tokenized by the `actson` streaming JSON parser. What the parser makes of a
//! byte sequence has a name here, [`scanned`]: the tokens that it reports for those bytes, and
//! the failure that it reports on them, if any. The wrappers around the parser say how what it
//! returns stands to that name, and the decoder's contracts are stated over it: which tokens,
//! which frames and which status a sequence of bytes gives.

use crate::frame::{frames, fresh, lemma_run_concat, state_after, texts, AssemblerState, FrameAssembler};
use crate::token::{views, Token, TokenView};
use actson::feeder::PushJsonFeeder;
use actson::JsonParser;
use vstd::prelude::*;
use vstd::slice::slice_subrange;

verus! {

/// `actson::JsonParser`, the event-based JSON parser. Nothing is known of what it holds.
#[verifier::external_type_specification]
#[verifier::external_body]
#[verifier::reject_recursive_types(T)]
pub struct ExJsonParser<T>(JsonParser<T>);

/// `actson::feeder::PushJsonFeeder`, the byte queue that the parser reads from.
#[verifier::external_type_specification]
#[verifier::external_body]
pub struct ExPushJsonFeeder(PushJsonFeeder);

/// Why a decoder gave up on its stream.
#[derive(Clone, Copy, Debug, PartialEq, Eq, Structural)]
pub enum FrameError {
    /// The stream holds a byte that no JSON text may hold.
    IllegalInput(u8),
    /// The stream is not JSON.
    Syntax,
    /// The parser asked for input that will not come.
    Truncated,
    /// A string or member name is not valid UTF-8.
    InvalidString,
    /// An integer does not fit in 64 bits.
    InvalidInteger,
    /// A number cannot be read.
    InvalidFloat,
    /// The nesting depth left the range of its counter.
    DepthOverflow,
}

/// Whether a decoder is still at work.
#[derive(Clone, Copy, Debug, PartialEq, Eq, Structural)]
pub enum Status {
    /// The decoder takes input.
    Active,
    /// A malformed token has desynchronized the stream; no more input is taken.
    Failed(FrameError),
}

/// What the parser makes of a byte sequence: the tokens that it reports for it, up to its first
/// failure, and that failure.
pub struct Scan {
    pub tokens: Seq<TokenView>,
    pub failure: Option<FrameError>,
}

/// What a streaming `actson::JsonParser` makes of `bytes` when they are handed to it from its
/// start, however they are cut: the tokens of the events that `JsonParser::next_event` reports,
/// each with the value that `current_str`, `current_int` or `current_float` gives for it, up to
/// the first error of the parser or the first value that cannot be read. The parser reads byte
/// by byte and reports an event as soon as it has read its last byte, so this depends on the
/// bytes alone. Its feeder is never told that the input is done: a number at the end of the
/// bytes is no token until a byte behind it ends it.
pub uninterp spec fn scanned(bytes: Seq<u8>) -> Scan;

/// The bytes that have been queued in the parser's `PushJsonFeeder` since it was made, in
/// order.
pub uninterp spec fn fed(parser: JsonParser<PushJsonFeeder>) -> Seq<u8>;

/// How many events and errors `JsonParser::next_event` has reported since the parser was made,
/// not counting its reports that it needs more input.
pub uninterp spec fn told(parser: JsonParser<PushJsonFeeder>) -> nat;

/// How many bytes wait in the queue of the parser's `PushJsonFeeder`.
pub uninterp spec fn unread(parser: JsonParser<PushJsonFeeder>) -> nat;

/// Whether the parser still holds the value of the event that it reported last: it has read
/// nothing since `JsonParser::next_event` reported that event.
pub uninterp spec fn held(parser: JsonParser<PushJsonFeeder>) -> bool;

/// The room that the queue of a `PushJsonFeeder` is made with.
pub const QUEUE_ROOM: usize = 1024;

/// True when `longer` is what the parser makes of a byte sequence that starts with the bytes
/// of `shorter`: the tokens of `shorter` stay in front, and a failure stays what it was, with
/// no token behind it.
pub open spec fn extends(longer: Scan, shorter: Scan) -> bool {
    &&& shorter.tokens.len() <= longer.tokens.len()
    &&& longer.tokens.take(shorter.tokens.len() as int) == shorter.tokens
    &&& shorter.failure is Some ==> longer == shorter
}

/// The number by which `actson::JsonEvent` tells the event of a token.
pub open spec fn code_of(t: TokenView) -> u8 {
    match t {
        TokenView::StartObject => 1,
        TokenView::EndObject => 2,
        TokenView::StartArray => 3,
        TokenView::EndArray => 4,
        TokenView::FieldName(_) => 5,
        TokenView::Text(_) => 6,
        TokenView::Integer(_) => 7,
        TokenView::Float(_) => 8,
        TokenView::True => 9,
        TokenView::False => 10,
        TokenView::Null => 11,
    }
}

/// The failure of an event whose value cannot be read, for the events that carry a value.
pub open spec fn value_failure(code: u8) -> Option<FrameError> {
    if code == 5 || code == 6 {
        Some(FrameError::InvalidString)
    } else if code == 7 {
        Some(FrameError::InvalidInteger)
    } else if code == 8 {
        Some(FrameError::InvalidFloat)
    } else {
        None
    }
}

/// The string that a token carries, if it is a member name or a string value.
pub open spec fn text_in(t: TokenView) -> Option<Seq<char>> {
    match t {
        TokenView::FieldName(name) => Some(name),
        TokenView::Text(value) => Some(value),
        _ => None,
    }
}

/// True when the event with the number `code` is the one that the parser reports next: it is
/// the event of the next token, or it is an event whose value cannot be read, behind the last
/// token.
pub open spec fn is_next(scan: Scan, at: int, code: u8) -> bool {
    ||| at < scan.tokens.len() && code == code_of(scan.tokens[at])
    ||| at == scan.tokens.len() && value_failure(code) is Some && scan.failure == value_failure(
        code,
    )
}

/// How what `JsonParser::next_event` returns stands to what the parser makes of the bytes it
/// was given. `Ok(None)` and the event 0 say that the parser is at rest: it has read all its
/// bytes and reported every token of them. Another event is the next one, and its value can be
/// read until the parser reads on. An error is the failure, behind the last token.
pub open spec fn reported(
    before: JsonParser<PushJsonFeeder>,
    after: JsonParser<PushJsonFeeder>,
    r: Result<Option<u8>, FrameError>,
) -> bool {
    let scan = scanned(fed(before));
    let at = told(before) as int;
    match r {
        Ok(None) => told(after) == at && unread(after) == 0 && at == scan.tokens.len()
            && scan.failure is None,
        Ok(Some(code)) => if code == 0 {
            told(after) == at && unread(after) == 0 && at == scan.tokens.len()
                && scan.failure is None
        } else {
            told(after) == at + 1 && unread(after) <= unread(before) && held(after) && is_next(
                scan,
                at,
                code,
            )
        },
        Err(failure) => told(after) == at + 1 && at == scan.tokens.len() && scan.failure == Some(
            failure,
        ),
    }
}

/// Makes an `actson::JsonParser` over an empty `PushJsonFeeder`, with the streaming option
/// switched on, so that it reads one JSON value after the other. Nothing has been queued and
/// nothing reported; of no bytes the parser makes no token and no failure.
#[verifier::external_body]
fn streaming_parser() -> (parser: JsonParser<PushJsonFeeder>)
    ensures
        fed(parser) == Seq::<u8>::empty(),
        told(parser) == 0,
        unread(parser) == 0,
        scanned(fed(parser)).tokens.len() == 0,
        scanned(fed(parser)).failure is None,
{
    JsonParser::new_with_options(
        PushJsonFeeder::new(),
        actson::options::JsonParserOptionsBuilder::default().with_streaming(true).build(),
    )
}

/// `PushJsonFeeder::push_bytes` queues a prefix of `bytes` for the parser, as much as the queue
/// has room for, and returns the length of that prefix. The queue is made with room for 1024
/// bytes, so an empty queue takes at least one byte. Nothing is read or reported by this call;
/// what the parser makes of the longer byte sequence starts with what it made of the shorter.
#[verifier::external_body]
fn push_bytes(parser: &mut JsonParser<PushJsonFeeder>, bytes: &[u8]) -> (accepted: usize)
    ensures
        accepted <= bytes@.len(),
        unread(*old(parser)) + bytes@.len() <= QUEUE_ROOM ==> accepted == bytes@.len(),
        unread(*old(parser)) < QUEUE_ROOM && bytes@.len() > 0 ==> accepted > 0,
        fed(*final(parser)) == fed(*old(parser)) + bytes@.take(accepted as int),
        told(*final(parser)) == told(*old(parser)),
        held(*final(parser)) == held(*old(parser)),
        unread(*final(parser)) == unread(*old(parser)) + accepted,
        extends(scanned(fed(*final(parser))), scanned(fed(*old(parser)))),
{
    parser.feeder.push_bytes(bytes)
}

/// `JsonParser::next_event` reads queued bytes until it can report an event or an error. The
/// event is handed on as its number in `actson::JsonEvent` (0 for `NeedMoreInput`), the error
/// as the failure of the same kind. It must not be called again after an error, nor after an
/// event whose value could not be read.
#[verifier::external_body]
fn next_event(parser: &mut JsonParser<PushJsonFeeder>) -> (r: Result<Option<u8>, FrameError>)
    requires
        told(*old(parser)) <= scanned(fed(*old(parser))).tokens.len(),
    ensures
        fed(*final(parser)) == fed(*old(parser)),
        reported(*old(parser), *final(parser), r),
{
    match parser.next_event() {
        Ok(Some(event)) => Ok(Some(event as u8)),
        Ok(None) => Ok(None),
        Err(actson::parser::ParserError::IllegalInput(byte)) => Err(FrameError::IllegalInput(byte)),
        Err(actson::parser::ParserError::SyntaxError) => Err(FrameError::Syntax),
        Err(actson::parser::ParserError::NoMoreInput) => Err(FrameError::Truncated),
    }
}

/// `JsonParser::current_str` gives the member name or string value of the event that was
/// reported last, with its escapes resolved, or fails if its bytes are not UTF-8. It is to be
/// called while the parser holds that value.
#[verifier::external_body]
fn current_str(parser: &JsonParser<PushJsonFeeder>) -> (r: Option<String>)
    requires
        told(*parser) >= 1,
        held(*parser),
    ensures
        told(*parser) - 1 < scanned(fed(*parser)).tokens.len() && text_in(
            scanned(fed(*parser)).tokens[told(*parser) - 1],
        ) is Some ==> r is Some && r->0@ == text_in(
            scanned(fed(*parser)).tokens[told(*parser) - 1],
        )->0,
        told(*parser) - 1 == scanned(fed(*parser)).tokens.len() && scanned(fed(*parser)).failure
            == Some(FrameError::InvalidString) ==> r is None,
{
    match parser.current_str() {
        Ok(text) => Some(text.to_string()),
        Err(_) => None,
    }
}

/// `JsonParser::current_int` gives the integer of the event that was reported last, or fails
/// if it does not fit the type asked for, here `i64`.
#[verifier::external_body]
fn current_int(parser: &JsonParser<PushJsonFeeder>) -> (r: Option<i64>)
    requires
        told(*parser) >= 1,
        held(*parser),
    ensures
        told(*parser) - 1 < scanned(fed(*parser)).tokens.len() && scanned(
            fed(*parser),
        ).tokens[told(*parser) - 1] is Integer ==> r is Some && r->0 == scanned(
            fed(*parser),
        ).tokens[told(*parser) - 1]->Integer_0,
        told(*parser) - 1 == scanned(fed(*parser)).tokens.len() && scanned(fed(*parser)).failure
            == Some(FrameError::InvalidInteger) ==> r is None,
{
    match parser.current_int::<i64>() {
        Ok(value) => Some(value),
        Err(_) => None,
    }
}

/// `JsonParser::current_float` gives the number of the event that was reported last as a
/// float, or fails if it cannot be read as one. The float is handed on as the decimal text that
/// std prints for it.
#[verifier::external_body]
fn current_float(parser: &JsonParser<PushJsonFeeder>) -> (r: Option<String>)
    requires
        told(*parser) >= 1,
        held(*parser),
    ensures
        told(*parser) - 1 < scanned(fed(*parser)).tokens.len() && scanned(
            fed(*parser),
        ).tokens[told(*parser) - 1] is Float ==> r is Some && r->0@ == scanned(
            fed(*parser),
        ).tokens[told(*parser) - 1]->Float_0,
        told(*parser) - 1 == scanned(fed(*parser)).tokens.len() && scanned(fed(*parser)).failure
            == Some(FrameError::InvalidFloat) ==> r is None,
{
    match parser.current_float() {
        Ok(value) => Some(value.to_string()),
        Err(_) => None,
    }
}

/// The status of a tokenizer that has been handed the bytes of `scan`: failed with the
/// failure, if there is one, and active otherwise.
pub open spec fn status_of(scan: Scan) -> Status {
    match scan.failure {
        Some(failure) => Status::Failed(failure),
        None => Status::Active,
    }
}

/// What stretches over a longer byte sequence also stretches over what it stretched over.
proof fn lemma_extends_twice(a: Scan, b: Scan, c: Scan)
    requires
        extends(b, a),
        extends(c, b),
    ensures
        extends(c, a),
{
    assert(c.tokens.take(a.tokens.len() as int) == b.tokens.take(a.tokens.len() as int)) by {
        assert(c.tokens.take(b.tokens.len() as int).take(a.tokens.len() as int)
            == c.tokens.take(a.tokens.len() as int));
    }
}

/// The token of the event that was reported last, with its value read from the parser, or the
/// failure if the value cannot be read.
fn token_of(parser: &JsonParser<PushJsonFeeder>, code: u8) -> (r: Result<Token, FrameError>)
    requires
        told(*parser) >= 1,
        held(*parser),
        is_next(scanned(fed(*parser)), told(*parser) - 1, code),
    ensures
        match r {
            Ok(token) => told(*parser) - 1 < scanned(fed(*parser)).tokens.len() && token@
                == scanned(fed(*parser)).tokens[told(*parser) - 1],
            Err(failure) => told(*parser) - 1 == scanned(fed(*parser)).tokens.len() && scanned(
                fed(*parser),
            ).failure == Some(failure),
        },
{
    if code == 1 {
        Ok(Token::StartObject)
    } else if code == 2 {
        Ok(Token::EndObject)
    } else if code == 3 {
        Ok(Token::StartArray)
    } else if code == 4 {
        Ok(Token::EndArray)
    } else if code == 5 {
        match current_str(parser) {
            Some(name) => Ok(Token::FieldName(name)),
            None => Err(FrameError::InvalidString),
        }
    } else if code == 6 {
        match current_str(parser) {
            Some(value) => Ok(Token::Text(value)),
            None => Err(FrameError::InvalidString),
        }
    } else if code == 7 {
        match current_int(parser) {
            Some(value) => Ok(Token::Integer(value)),
            None => Err(FrameError::InvalidInteger),
        }
    } else if code == 8 {
        match current_float(parser) {
            Some(text) => Ok(Token::Float(text)),
            None => Err(FrameError::InvalidFloat),
        }
    } else if code == 9 {
        Ok(Token::True)
    } else if code == 10 {
        Ok(Token::False)
    } else {
        Ok(Token::Null)
    }
}

/// Reads a byte stream as tokens.
pub struct Tokenizer {
    parser: JsonParser<PushJsonFeeder>,
    status: Status,
}

impl Tokenizer {
    /// Whether the tokenizer is at work or has failed.
    pub closed spec fn state(&self) -> Status {
        self.status
    }

    /// The bytes of the stream that have been handed to the parser so far, in order.
    pub closed spec fn handed(&self) -> Seq<u8> {
        fed(self.parser)
    }

    /// How many tokens and failures the parser has reported so far.
    pub closed spec fn reports(&self) -> nat {
        told(self.parser)
    }

    /// How many of the bytes handed to the parser it has not read yet.
    pub closed spec fn waiting(&self) -> nat {
        unread(self.parser)
    }

    /// The tokenizer is in step with its parser: it has failed exactly if the parser fails on
    /// the bytes handed to it, and while it is active the parser has read all those bytes and
    /// every token of them has been taken.
    pub open spec fn wf(&self) -> bool {
        &&& self.state() == status_of(scanned(self.handed()))
        &&& self.state() == Status::Active ==> self.reports() == scanned(
            self.handed(),
        ).tokens.len() && self.waiting() == 0
    }

    /// A tokenizer at the start of its stream: active, with nothing handed to its parser.
    pub fn new() -> (r: Self)
        ensures
            r.wf(),
            r.state() == Status::Active,
            r.handed() == Seq::<u8>::empty(),
            scanned(r.handed()).tokens.len() == 0,
    {
        Tokenizer { parser: streaming_parser(), status: Status::Active }
    }

    /// Whether the tokenizer is at work or has failed.
    pub fn status(&self) -> (s: Status)
        ensures
            s == self.state(),
    {
        self.status
    }

    /// Takes the tokens that the parser reports for the bytes it holds, until it is at rest or
    /// fails, and adds them behind those that `tokens` holds.
    ///
    /// `from` is where the first of the tokens that `tokens` holds stands among those of the
    /// bytes handed over. Afterwards `tokens` holds all the tokens of those bytes from there
    /// on, and the tokenizer is in step with its parser again.
    fn drain(&mut self, tokens: &mut Vec<Token>, Ghost(from): Ghost<int>)
        requires
            old(self).state() == Status::Active,
            0 <= from <= old(self).reports() <= scanned(old(self).handed()).tokens.len(),
            views(old(tokens)@) == scanned(old(self).handed()).tokens.subrange(
                from,
                old(self).reports() as int,
            ),
        ensures
            final(self).wf(),
            final(self).handed() == old(self).handed(),
            views(final(tokens)@) == scanned(old(self).handed()).tokens.subrange(
                from,
                scanned(old(self).handed()).tokens.len() as int,
            ),
    {
        let ghost scan = scanned(self.handed());
        let mut done = false;
        while !done
            invariant
                self.handed() == old(self).handed(),
                scan == scanned(self.handed()),
                0 <= from <= scan.tokens.len(),
                !done ==> self.state() == Status::Active && from <= self.reports()
                    <= scan.tokens.len() && views(tokens@) == scan.tokens.subrange(
                    from,
                    self.reports() as int,
                ),
                done ==> self.wf() && views(tokens@) == scan.tokens.subrange(
                    from,
                    scan.tokens.len() as int,
                ),
            decreases 2 * (scan.tokens.len() + 1 - self.reports()) + (if done { 0int } else { 1int }),
        {
            let ghost at = self.reports() as int;
            let ghost earlier = views(tokens@);
            match next_event(&mut self.parser) {
                Err(failure) => {
                    self.status = Status::Failed(failure);
                    done = true;
                },
                Ok(None) => {
                    done = true;
                },
                Ok(Some(code)) => {
                    if code == 0 {
                        done = true;
                    } else {
                        match token_of(&self.parser, code) {
                            Ok(token) => {
                                tokens.push(token);
                                assert(views(tokens@) == earlier.push(token@));
                                assert(scan.tokens.subrange(from, at + 1) == scan.tokens.subrange(
                                    from,
                                    at,
                                ).push(scan.tokens[at]));
                            },
                            Err(failure) => {
                                self.status = Status::Failed(failure);
                                done = true;
                            },
                        }
                    }
                },
            }
        }
    }

    /// Takes the next bytes of the stream and returns the tokens that the parser reports for
    /// them, in order.
    ///
    /// The bytes of the chunk are handed to the parser in order, as many at a time as its
    /// queue takes, and after each handing the tokens that it reports are taken. The tokens
    /// returned are those that the bytes handed over add to what the parser made of the bytes
    /// before. A tokenizer that is still active afterwards has handed over the whole chunk;
    /// one that has failed, which it does exactly when the parser fails on the bytes handed
    /// over, has handed over a part from the start of the chunk and dropped the rest. A
    /// tokenizer that is not active, and an empty chunk, change nothing and give no token.
    pub fn feed(&mut self, chunk: &[u8]) -> (tokens: Vec<Token>)
        requires
            old(self).wf(),
        ensures
            final(self).wf(),
            old(self).state() != Status::Active || chunk@.len() == 0 ==> tokens@.len() == 0
                && *final(self) == *old(self),
            old(self).handed().len() <= final(self).handed().len() <= old(self).handed().len()
                + chunk@.len(),
            final(self).handed() == old(self).handed() + chunk@.take(
                final(self).handed().len() - old(self).handed().len(),
            ),
            final(self).state() == Status::Active ==> final(self).handed() == old(self).handed()
                + chunk@,
            scanned(final(self).handed()).tokens == scanned(old(self).handed()).tokens + views(
                tokens@,
            ),
            extends(scanned(final(self).handed()), scanned(old(self).handed())),
    {
        let mut tokens: Vec<Token> = Vec::new();
        let ghost start = self.handed();
        let ghost first = scanned(start);
        let ghost from = first.tokens.len() as int;
        proof {
            assert(chunk@.take(0) == Seq::<u8>::empty());
            assert(start + Seq::<u8>::empty() == start);
            assert(views(tokens@) == Seq::<TokenView>::empty());
            assert(first.tokens + Seq::<TokenView>::empty() == first.tokens);
            assert(first.tokens.take(from) == first.tokens);
        }
        if chunk.len() == 0 || self.status != Status::Active {
            return tokens;
        }
        let mut offset: usize = 0;
        while offset < chunk.len() && self.status == Status::Active
            invariant
                offset <= chunk@.len(),
                self.wf(),
                self.handed() == start + chunk@.take(offset as int),
                first == scanned(start),
                from == first.tokens.len(),
                extends(scanned(self.handed()), first),
                views(tokens@) == scanned(self.handed()).tokens.subrange(
                    from,
                    scanned(self.handed()).tokens.len() as int,
                ),
            decreases chunk@.len() - offset,
        {
            let ghost before = scanned(self.handed());
            let rest = slice_subrange(chunk, offset, chunk.len());
            let accepted = push_bytes(&mut self.parser, rest);
            proof {
                assert(chunk@.take(offset as int) + rest@.take(accepted as int) == chunk@.take(
                    offset + accepted,
                ));
                assert(start + chunk@.take(offset as int) + rest@.take(accepted as int) == start
                    + chunk@.take(offset + accepted));
                let now = scanned(self.handed());
                lemma_extends_twice(first, before, now);
                assert(now.tokens.subrange(from, before.tokens.len() as int)
                    == before.tokens.subrange(from, before.tokens.len() as int)) by {
                    assert(now.tokens.take(before.tokens.len() as int) == before.tokens);
                    assert(now.tokens.take(before.tokens.len() as int).subrange(
                        from,
                        before.tokens.len() as int,
                    ) == now.tokens.subrange(from, before.tokens.len() as int));
                }
            }
            offset = offset + accepted;
            self.drain(&mut tokens, Ghost(from));
        }
        proof {
            let last = scanned(self.handed());
            assert(last.tokens == last.tokens.take(from) + last.tokens.subrange(
                from,
                last.tokens.len() as int,
            ));
            if self.status == Status::Active {
                assert(chunk@.take(chunk@.len() as int) == chunk@);
            }
        }
        tokens
    }
}

/// True when the parser fails with `failure` on the start of `bytes`.
pub open spec fn fails_with(bytes: Seq<u8>, failure: FrameError) -> bool {
    exists|n: int| 0 <= n <= bytes.len() && (#[trigger] scanned(bytes.take(n))).failure == Some(failure)
}

/// Reads a whole text as tokens: all the tokens that the parser makes of it, or the failure
/// with which the parser fails on it. An empty text has no tokens.
pub fn tokenize(text: &[u8]) -> (r: Result<Vec<Token>, FrameError>)
    ensures
        match r {
            Ok(tokens) => scanned(text@).failure is None && views(tokens@) == scanned(
                text@,
            ).tokens,
            Err(failure) => fails_with(text@, failure),
        },
        text@.len() == 0 ==> (r matches Ok(tokens) && tokens@.len() == 0),
{
    let mut tokenizer = Tokenizer::new();
    let ghost first = scanned(tokenizer.handed());
    let tokens = tokenizer.feed(text);
    proof {
        assert(first.tokens == Seq::<TokenView>::empty());
        assert(first.tokens + views(tokens@) == views(tokens@));
        assert(Seq::<u8>::empty() + text@ == text@);
        let n = tokenizer.handed().len() as int;
        assert(Seq::<u8>::empty() + text@.take(n) == text@.take(n));
    }
    match tokenizer.status() {
        Status::Failed(failure) => Err(failure),
        Status::Active => Ok(tokens),
    }
}

/// What a [`FrameDecoder`] stands for in contracts: the state of its assembler, its status,
/// and the bytes of its stream that it has handed to the parser.
pub struct DecoderView {
    pub assembler: AssemblerState,
    pub status: Status,
    pub handed: Seq<u8>,
}

/// Whether the depth counter of an assembler in state `s` can take one more token.
pub open spec fn has_room(s: AssemblerState) -> bool {
    i64::MIN < s.depth < i64::MAX
}

/// How many of the tokens an assembler in state `s` takes before its depth counter is at the
/// end of its range: all of them, unless it runs out of room before one of them.
pub open spec fn taken(s: AssemblerState, tokens: Seq<TokenView>) -> int
    decreases tokens.len(),
{
    if tokens.len() == 0 {
        0
    } else {
        let earlier = taken(s, tokens.drop_last());
        if earlier == tokens.len() - 1 && has_room(state_after(s, tokens.drop_last())) {
            tokens.len() as int
        } else {
            earlier
        }
    }
}

/// The tokens that the bytes handed over between `before` and `after` add to what the parser
/// made of the bytes before.
pub open spec fn news(before: Seq<u8>, after: Seq<u8>) -> Seq<TokenView> {
    scanned(after).tokens.skip(scanned(before).tokens.len() as int)
}

/// The tokens that a decoder takes when the bytes handed to its parser grow from those of
/// `before` to `after`: the new tokens, as far as the depth counter has room.
pub open spec fn step_tokens(before: DecoderView, after: Seq<u8>) -> Seq<TokenView> {
    news(before.handed, after).take(taken(before.assembler, news(before.handed, after)))
}

/// The status of a decoder after such a step: out of room if it could not take all the new
/// tokens, and otherwise failed exactly if the parser fails on the bytes handed to it.
pub open spec fn step_status(before: DecoderView, after: Seq<u8>) -> Status {
    if taken(before.assembler, news(before.handed, after)) < news(before.handed, after).len() {
        Status::Failed(FrameError::DepthOverflow)
    } else {
        status_of(scanned(after))
    }
}

/// How a decoder stands after it was given `chunk`: the bytes handed to the parser have grown
/// by a part from the start of the chunk, by all of it if the decoder is still active; and a
/// decoder that was active has taken the new tokens and has the status of that step.
pub open spec fn stepped(before: DecoderView, after: DecoderView, chunk: Seq<u8>) -> bool {
    &&& before.handed.len() <= after.handed.len() <= before.handed.len() + chunk.len()
    &&& after.handed == before.handed + chunk.take(after.handed.len() - before.handed.len())
    &&& after.status == Status::Active ==> after.handed == before.handed + chunk
    &&& before.status == Status::Active ==> after.assembler == state_after(
        before.assembler,
        step_tokens(before, after.handed),
    ) && after.status == step_status(before, after.handed)
    &&& before.status != Status::Active ==> after == before
    &&& extends(scanned(after.handed), scanned(before.handed))
}

/// The number taken is at most the number of tokens.
proof fn lemma_taken_bound(s: AssemblerState, tokens: Seq<TokenView>)
    ensures
        0 <= taken(s, tokens) <= tokens.len(),
    decreases tokens.len(),
{
    if tokens.len() > 0 {
        lemma_taken_bound(s, tokens.drop_last());
    }
}

/// An assembler that takes all of one run of tokens, and then all of the next, takes all of
/// the two runs as one.
proof fn lemma_taken_concat(s: AssemblerState, a: Seq<TokenView>, b: Seq<TokenView>)
    requires
        taken(s, a) == a.len(),
        taken(state_after(s, a), b) == b.len(),
    ensures
        taken(s, a + b) == a.len() + b.len(),
    decreases b.len(),
{
    if b.len() == 0 {
        assert(a + b == a);
    } else {
        let shorter = b.drop_last();
        lemma_taken_bound(state_after(s, a), shorter);
        assert((a + b).drop_last() == a + shorter);
        lemma_taken_concat(s, a, shorter);
        lemma_run_concat(s, a, shorter);
    }
}

/// Where a stream is cut does not matter: a decoder that takes the bytes `a` and then the
/// bytes `b`, and is active after each, has taken the tokens, has handed out the frames and
/// stands in the state and status of a decoder that takes `a + b` at once.
pub proof fn lemma_cut_is_invisible(
    start: DecoderView,
    middle: DecoderView,
    end: DecoderView,
    a: Seq<u8>,
    b: Seq<u8>,
)
    requires
        start.status == Status::Active,
        stepped(start, middle, a),
        middle.status == Status::Active,
        stepped(middle, end, b),
        end.status == Status::Active,
    ensures
        end.handed == start.handed + (a + b),
        step_tokens(start, end.handed) == step_tokens(start, middle.handed) + step_tokens(
            middle,
            end.handed,
        ),
        step_status(start, end.handed) == end.status,
        state_after(start.assembler, step_tokens(start, end.handed)) == end.assembler,
        frames(start.assembler, step_tokens(start, end.handed)) == frames(
            start.assembler,
            step_tokens(start, middle.handed),
        ) + frames(middle.assembler, step_tokens(middle, end.handed)),
        stepped(start, end, a + b),
{
    let first = scanned(start.handed);
    let second = scanned(middle.handed);
    let third = scanned(end.handed);
    let t1 = news(start.handed, middle.handed);
    let t2 = news(middle.handed, end.handed);
    let t = news(start.handed, end.handed);
    assert(start.handed + a + b == start.handed + (a + b));
    lemma_extends_twice(first, second, third);
    assert(t == t1 + t2) by {
        assert(third.tokens.take(second.tokens.len() as int) == second.tokens);
        assert(t =~= t1 + t2);
    }
    lemma_taken_bound(start.assembler, t1);
    lemma_taken_bound(middle.assembler, t2);
    assert(t1.take(t1.len() as int) == t1);
    assert(t2.take(t2.len() as int) == t2);
    assert(t.take(t.len() as int) == t);
    lemma_taken_concat(start.assembler, t1, t2);
    lemma_run_concat(start.assembler, t1, t2);
    assert((a + b).take((a + b).len() as int) == a + b);
}

/// Once the assembler is out of room before a token, it takes none of the tokens behind it.
proof fn lemma_taken_stops(s: AssemblerState, tokens: Seq<TokenView>, at: int, upto: int)
    requires
        0 <= at < upto <= tokens.len(),
        taken(s, tokens.take(at)) == at,
        !has_room(state_after(s, tokens.take(at))),
    ensures
        taken(s, tokens.take(upto)) == at,
    decreases upto - at,
{
    let part = tokens.take(upto);
    assert(part.drop_last() == tokens.take(upto - 1));
    if upto - 1 > at {
        lemma_taken_stops(s, tokens, at, upto - 1);
    }
}

/// Decodes a byte stream into frames.
pub struct FrameDecoder {
    tokenizer: Tokenizer,
    assembler: FrameAssembler,
    status: Status,
}

impl View for FrameDecoder {
    type V = DecoderView;

    closed spec fn view(&self) -> DecoderView {
        DecoderView {
            assembler: self.assembler@,
            status: self.status,
            handed: self.tokenizer.handed(),
        }
    }
}

impl FrameDecoder {
    /// The decoder is in step with its tokenizer: unless it has run out of room, it has failed
    /// exactly if the parser fails on the bytes handed to it, and its assembler has taken all
    /// the tokens of those bytes.
    pub closed spec fn wf(&self) -> bool {
        &&& self.tokenizer.wf()
        &&& self.status != Status::Failed(FrameError::DepthOverflow) ==> self.status
            == self.tokenizer.state() && self.assembler@ == state_after(
            fresh(),
            scanned(self.tokenizer.handed()).tokens,
        )
    }

    /// What being in step means for the view: unless the decoder has run out of room, its
    /// status and the state of its assembler are those of the bytes handed over, however they
    /// were cut into chunks.
    pub open spec fn in_step(v: DecoderView) -> bool {
        v.status != Status::Failed(FrameError::DepthOverflow) ==> v.status == status_of(
            scanned(v.handed),
        ) && v.assembler == state_after(fresh(), scanned(v.handed).tokens)
    }

    /// A decoder that is in step with its tokenizer is so in its view.
    pub proof fn lemma_in_step(&self)
        requires
            self.wf(),
        ensures
            Self::in_step(self@),
    {
    }

    /// A decoder at the start of its stream: active, with no frame under construction and
    /// nothing handed to its parser.
    pub fn new() -> (r: Self)
        ensures
            r.wf(),
            r@.assembler == fresh(),
            r@.status == Status::Active,
            r@.handed == Seq::<u8>::empty(),
            scanned(r@.handed).tokens.len() == 0,
    {
        let tokenizer = Tokenizer::new();
        proof {
            assert(scanned(tokenizer.handed()).tokens == Seq::<TokenView>::empty());
        }
        FrameDecoder { tokenizer, assembler: FrameAssembler::new(), status: Status::Active }
    }

    /// Whether the decoder is at work or has failed.
    pub fn status(&self) -> (s: Status)
        ensures
            s == self@.status,
    {
        self.status
    }

    /// The text of the frame under construction. At the end of the stream it is dropped: a
    /// partial frame is never handed out.
    pub fn pending(&self) -> (text: &str)
        ensures
            text@ == self@.assembler.buffer,
    {
        self.assembler.pending()
    }

    /// The nesting depth of the frame under construction.
    pub fn depth(&self) -> (d: i64)
        ensures
            d == self@.assembler.depth,
    {
        self.assembler.depth()
    }

    /// Takes the next bytes of the stream and returns the frames that they complete, in order.
    ///
    /// The bytes go to the parser; every token that they add goes to the assembler, so the
    /// frames returned and the text left pending are those of [`state_after`] and [`frames`]
    /// on the new tokens: a frame is returned by the call that is given its last byte. A
    /// decoder that is still active afterwards has handed the whole chunk to the parser; one
    /// that has failed has handed over a part from the start of the chunk. It fails exactly
    /// when the parser fails on the bytes handed over, or when the nesting depth leaves the
    /// range of its counter. A decoder that is not active, and an empty chunk, change nothing.
    pub fn feed(&mut self, chunk: &[u8]) -> (completed: Vec<String>)
        requires
            old(self).wf(),
        ensures
            final(self).wf(),
            old(self)@.status != Status::Active || chunk@.len() == 0 ==> completed@.len() == 0
                && *final(self) == *old(self),
            old(self)@.handed.len() <= final(self)@.handed.len() <= old(self)@.handed.len()
                + chunk@.len(),
            final(self)@.handed == old(self)@.handed + chunk@.take(
                final(self)@.handed.len() - old(self)@.handed.len(),
            ),
            final(self)@.status == Status::Active ==> final(self)@.handed == old(self)@.handed
                + chunk@,
            old(self)@.status == Status::Active ==> {
                &&& final(self)@.assembler == state_after(
                    old(self)@.assembler,
                    step_tokens(old(self)@, final(self)@.handed),
                )
                &&& texts(completed@) == frames(
                    old(self)@.assembler,
                    step_tokens(old(self)@, final(self)@.handed),
                )
                &&& final(self)@.status == step_status(old(self)@, final(self)@.handed)
            },
            stepped(old(self)@, final(self)@, chunk@),
            Self::in_step(final(self)@),
    {
        let mut completed: Vec<String> = Vec::new();
        let ghost start = self@.assembler;
        let ghost first = scanned(self@.handed);
        proof {
            assert(chunk@.take(0) == Seq::<u8>::empty());
            assert(self@.handed + Seq::<u8>::empty() == self@.handed);
            assert(first.tokens.take(first.tokens.len() as int) == first.tokens);
        }
        if chunk.len() == 0 || self.status != Status::Active {
            return completed;
        }
        let tokens = self.tokenizer.feed(chunk);
        let ghost all = views(tokens@);
        let ghost fed_now = self.tokenizer;
        proof {
            let last = scanned(self.tokenizer.handed());
            assert(last.tokens.skip(first.tokens.len() as int) == all);
            assert(all == news(old(self)@.handed, self@.handed));
            assert(all.take(0) == Seq::<TokenView>::empty());
            assert(texts(completed@) == frames(start, all.take(0)));
        }
        let mut i: usize = 0;
        while i < tokens.len() && self.assembler.has_room()
            invariant
                i <= tokens@.len(),
                all == views(tokens@),
                self.tokenizer == fed_now,
                taken(start, all.take(i as int)) == i,
                self@.assembler == state_after(start, all.take(i as int)),
                texts(completed@) == frames(start, all.take(i as int)),
            decreases tokens@.len() - i,
        {
            let ghost earlier = completed@;
            let frame = self.assembler.push(&tokens[i]);
            proof {
                assert(all.take(i + 1).drop_last() == all.take(i as int));
                assert(all.take(i + 1).last() == tokens@[i as int]@);
            }
            match frame {
                Some(text) => {
                    completed.push(text);
                    assert(texts(completed@) == texts(earlier).push(text@));
                },
                None => {},
            }
            i = i + 1;
        }
        proof {
            assert(all.take(all.len() as int) == all);
            if i < tokens.len() {
                lemma_taken_stops(start, all, i as int, all.len() as int);
            } else {
                let last = scanned(self.tokenizer.handed());
                lemma_run_concat(fresh(), first.tokens, all);
            }
        }
        if i < tokens.len() {
            self.status = Status::Failed(FrameError::DepthOverflow);
        } else {
            self.status = self.tokenizer.status();
        }
        completed
    }
}

/// What decoding the start of `input`, `read` bytes of it, gives from a fresh decoder: the
/// frames and the status.
pub open spec fn decoding(input: Seq<u8>, read: int, frames_read: Seq<Seq<char>>, status: Status) -> bool {
    let before = DecoderView { assembler: fresh(), status: Status::Active, handed: Seq::empty() };
    &&& 0 <= read <= input.len()
    &&& frames_read == frames(fresh(), step_tokens(before, input.take(read)))
    &&& status == step_status(before, input.take(read))
}

/// Decodes a whole byte string: the frames that it holds, in order, and how the decoder was
/// left. A decoder that is still active has read the whole input, and the frames are those of
/// all its tokens; one that has failed has read a part from the start of the input. Bytes
/// behind the last complete frame are dropped.
pub fn decode_frames(input: &[u8]) -> (r: (Vec<String>, Status))
    ensures
        input@.len() == 0 ==> r.0@.len() == 0 && r.1 == Status::Active,
        r.1 == Status::Active ==> decoding(input@, input@.len() as int, texts(r.0@), r.1),
        exists|read: int| #[trigger] decoding(input@, read, texts(r.0@), r.1),
{
    let mut decoder = FrameDecoder::new();
    let ghost before = decoder@;
    let completed = decoder.feed(input);
    let status = decoder.status();
    proof {
        let read = decoder@.handed.len() as int;
        assert(Seq::<u8>::empty() + input@.take(read) == input@.take(read));
        assert(Seq::<u8>::empty() + input@ == input@);
        assert(input@.take(input@.len() as int) == input@);
        assert(before == DecoderView {
            assembler: fresh(),
            status: Status::Active,
            handed: Seq::empty(),
        });
        if input@.len() == 0 {
            assert(texts(completed@) == Seq::<Seq<char>>::empty());
            assert(input@.take(0) == Seq::<u8>::empty());
            assert(news(before.handed, input@.take(0)) == Seq::<TokenView>::empty());
        }
        assert(decoding(input@, read, texts(completed@), status));
        assert(exists|n: int| #[trigger] decoding(input@, n, texts(completed@), status));
    }
    let ghost got = texts(completed@);
    let ghost read = decoder@.handed.len() as int;
    let r = (completed, status);
    assert(texts(r.0@) == got);
    assert(decoding(input@, read, texts(r.0@), r.1));
    r
}

} // verus!
