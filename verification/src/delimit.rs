//! Frames on a byte stream that are told apart by a delimiter byte: a line feed behind every
//! message that is sent, or a NUL byte where payloads may hold line feeds.

use vstd::prelude::*;
use vstd::string::*;
use vstd::utf8::encode_utf8;

verus! {

/// The byte that ends a frame.
#[derive(Clone, Copy, Debug, PartialEq, Eq, Structural)]
pub enum Delimiter {
    /// A line feed.
    Newline,
    /// A NUL byte.
    Null,
}

impl Delimiter {
    /// The delimiter as a byte.
    pub open spec fn code(self) -> u8 {
        match self {
            Delimiter::Newline => 0x0a,
            Delimiter::Null => 0x00,
        }
    }

    /// The delimiter as a byte.
    pub fn byte(self) -> (b: u8)
        ensures
            b == self.code(),
    {
        match self {
            Delimiter::Newline => 0x0a,
            Delimiter::Null => 0x00,
        }
    }
}

/// The bytes behind the last delimiter, after `bytes` have followed `partial`.
pub open spec fn remainder(partial: Seq<u8>, bytes: Seq<u8>, delimiter: u8) -> Seq<u8>
    decreases bytes.len(),
{
    if bytes.len() == 0 {
        partial
    } else if bytes.last() == delimiter {
        Seq::empty()
    } else {
        remainder(partial, bytes.drop_last(), delimiter).push(bytes.last())
    }
}

/// The frames that `bytes` complete when they follow `partial`: what stands between one
/// delimiter and the next, the delimiter left off. An empty frame is a frame.
pub open spec fn segments(partial: Seq<u8>, bytes: Seq<u8>, delimiter: u8) -> Seq<Seq<u8>>
    decreases bytes.len(),
{
    if bytes.len() == 0 {
        Seq::empty()
    } else {
        let earlier = segments(partial, bytes.drop_last(), delimiter);
        if bytes.last() == delimiter {
            earlier.push(remainder(partial, bytes.drop_last(), delimiter))
        } else {
            earlier
        }
    }
}

/// The byte sequences that the vectors hold.
pub open spec fn contents(frames: Seq<Vec<u8>>) -> Seq<Seq<u8>> {
    frames.map_values(|f: Vec<u8>| f@)
}

/// True when no byte of `bytes` is `delimiter`.
pub open spec fn is_free_of(bytes: Seq<u8>, delimiter: u8) -> bool {
    forall|i: int| 0 <= i < bytes.len() ==> bytes[i] != delimiter
}

/// Reading two runs of bytes one after the other gives the frames and the remainder of reading
/// them as one run: where a stream is cut does not matter.
pub proof fn lemma_split_concat(partial: Seq<u8>, a: Seq<u8>, b: Seq<u8>, delimiter: u8)
    ensures
        remainder(partial, a + b, delimiter) == remainder(
            remainder(partial, a, delimiter),
            b,
            delimiter,
        ),
        segments(partial, a + b, delimiter) == segments(partial, a, delimiter) + segments(
            remainder(partial, a, delimiter),
            b,
            delimiter,
        ),
    decreases b.len(),
{
    if b.len() == 0 {
        assert(a + b == a);
    } else {
        assert((a + b).drop_last() == a + b.drop_last());
        assert((a + b).last() == b.last());
        lemma_split_concat(partial, a, b.drop_last(), delimiter);
    }
}

/// Bytes that hold no delimiter complete no frame and are all kept.
pub proof fn lemma_no_delimiter_no_frame(partial: Seq<u8>, bytes: Seq<u8>, delimiter: u8)
    requires
        is_free_of(bytes, delimiter),
    ensures
        segments(partial, bytes, delimiter) == Seq::<Seq<u8>>::empty(),
        remainder(partial, bytes, delimiter) == partial + bytes,
    decreases bytes.len(),
{
    if bytes.len() == 0 {
        assert(partial + bytes == partial);
    } else {
        lemma_no_delimiter_no_frame(partial, bytes.drop_last(), delimiter);
        assert(partial + bytes == (partial + bytes.drop_last()).push(bytes.last()));
    }
}

/// A frame that holds no delimiter, sent with the delimiter behind it, is received as exactly
/// that frame, with nothing left over.
pub proof fn lemma_sent_frame_is_received(frame: Seq<u8>, delimiter: u8)
    requires
        is_free_of(frame, delimiter),
    ensures
        segments(Seq::empty(), frame.push(delimiter), delimiter) == seq![frame],
        remainder(Seq::empty(), frame.push(delimiter), delimiter) == Seq::<u8>::empty(),
{
    let sent = frame.push(delimiter);
    assert(sent.drop_last() == frame);
    lemma_no_delimiter_no_frame(Seq::empty(), frame, delimiter);
    assert(Seq::<u8>::empty() + frame == frame);
    assert(Seq::<Seq<u8>>::empty().push(frame) == seq![frame]);
}

/// The bytes of `text` with the delimiter behind them: what is written to the stream for one
/// message.
pub fn terminate(text: &str, delimiter: Delimiter) -> (bytes: Vec<u8>)
    ensures
        bytes@ == encode_utf8(text@).push(delimiter.code()),
{
    let mut bytes = text.as_bytes_vec();
    bytes.push(delimiter.byte());
    bytes
}

/// Cuts a byte stream into frames at a delimiter.
pub struct DelimitedReader {
    delimiter: Delimiter,
    partial: Vec<u8>,
}

/// What a [`DelimitedReader`] stands for in contracts: its delimiter and the bytes of the
/// frame that is not yet complete.
pub struct ReaderView {
    pub delimiter: Delimiter,
    pub partial: Seq<u8>,
}

impl View for DelimitedReader {
    type V = ReaderView;

    closed spec fn view(&self) -> ReaderView {
        ReaderView { delimiter: self.delimiter, partial: self.partial@ }
    }
}

impl DelimitedReader {
    /// A reader at the start of its stream.
    pub fn new(delimiter: Delimiter) -> (r: Self)
        ensures
            r@.delimiter == delimiter,
            r@.partial == Seq::<u8>::empty(),
    {
        DelimitedReader { delimiter, partial: Vec::new() }
    }

    /// The bytes of the frame that is not yet complete.
    pub fn partial(&self) -> (bytes: &Vec<u8>)
        ensures
            bytes@ == self@.partial,
    {
        &self.partial
    }

    /// Takes the next bytes of the stream and returns the frames that they complete, in
    /// order, each without its delimiter.
    pub fn feed(&mut self, chunk: &[u8]) -> (completed: Vec<Vec<u8>>)
        ensures
            final(self)@.delimiter == old(self)@.delimiter,
            final(self)@.partial == remainder(
                old(self)@.partial,
                chunk@,
                old(self)@.delimiter.code(),
            ),
            contents(completed@) == segments(
                old(self)@.partial,
                chunk@,
                old(self)@.delimiter.code(),
            ),
    {
        let ghost start = self.partial@;
        let stop = self.delimiter.byte();
        let mut completed: Vec<Vec<u8>> = Vec::new();
        let mut i: usize = 0;
        assert(chunk@.take(0) == Seq::<u8>::empty());
        assert(contents(completed@) == Seq::<Seq<u8>>::empty());
        while i < chunk.len()
            invariant
                i <= chunk@.len(),
                stop == self.delimiter.code(),
                self.delimiter == old(self).delimiter,
                self.partial@ == remainder(start, chunk@.take(i as int), stop),
                contents(completed@) == segments(start, chunk@.take(i as int), stop),
            decreases chunk@.len() - i,
        {
            let byte = chunk[i];
            proof {
                assert(chunk@.take(i + 1).drop_last() == chunk@.take(i as int));
                assert(chunk@.take(i + 1).last() == byte);
            }
            if byte == stop {
                let ghost earlier = completed@;
                let mut frame: Vec<u8> = Vec::new();
                std::mem::swap(&mut self.partial, &mut frame);
                completed.push(frame);
                assert(contents(completed@) == contents(earlier).push(frame@));
            } else {
                self.partial.push(byte);
            }
            i = i + 1;
        }
        assert(chunk@.take(chunk@.len() as int) == chunk@);
        completed
    }
}

} // verus!
