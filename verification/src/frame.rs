//! Reassembling complete top-level JSON values ("frames") from a stream of tokens.
//!
//! The assembler keeps the text of the frame under construction and the nesting depth. Every
//! token appends its literal to the text; the token that brings the depth back to zero completes
//! a frame, which is handed out at once, and the assembler starts over.

use crate::text::{
    decimal, ends_with_char, is_clean, lemma_clean_concat, lemma_decimal_is_clean,
    lemma_escaped_is_clean, push_decimal, push_quoted, quoted,
};
use crate::token::{views, Token, TokenView};
use vstd::prelude::*;
use vstd::string::*;

verus! {

/// The state of a [`FrameAssembler`]: the text gathered so far and the nesting depth.
pub struct AssemblerState {
    pub buffer: Seq<char>,
    pub depth: int,
}

/// The state before any token: nothing gathered, depth zero.
pub open spec fn fresh() -> AssemblerState {
    AssemblerState { buffer: Seq::empty(), depth: 0 }
}

/// True when `buffer` is not empty and its last character is `c`.
pub open spec fn ends_with(buffer: Seq<char>, c: char) -> bool {
    buffer.len() > 0 && buffer.last() == c
}

/// Whether a scalar value appended to `buffer` is preceded by a comma: always, unless the
/// buffer ends with an opening brace, an opening bracket or the colon of a member name.
pub open spec fn value_needs_comma(buffer: Seq<char>) -> bool {
    !ends_with(buffer, '{') && !ends_with(buffer, '[') && !ends_with(buffer, ':')
}

/// `buffer` with `value` appended as a scalar value, behind a comma where one is due.
pub open spec fn with_value(buffer: Seq<char>, value: Seq<char>) -> Seq<char> {
    if value_needs_comma(buffer) {
        buffer.push(',') + value
    } else {
        buffer + value
    }
}

/// The text that a token contributes, without any separator.
pub open spec fn literal(t: TokenView) -> Seq<char> {
    match t {
        TokenView::StartObject => seq!['{'],
        TokenView::EndObject => seq!['}'],
        TokenView::StartArray => seq!['['],
        TokenView::EndArray => seq![']'],
        TokenView::FieldName(name) => quoted(name).push(':'),
        TokenView::Text(value) => quoted(value),
        TokenView::Integer(value) => decimal(value),
        TokenView::Float(text) => text,
        TokenView::True => seq!['t', 'r', 'u', 'e'],
        TokenView::False => seq!['f', 'a', 'l', 's', 'e'],
        TokenView::Null => seq!['n', 'u', 'l', 'l'],
    }
}

/// Whether a comma is written between `buffer` and the literal of `t`: before a member name
/// unless the buffer ends with an opening brace, before a scalar as `value_needs_comma` says,
/// before a token that opens a container likewise unless nothing has been written yet, and
/// never before a token that closes a container.
pub open spec fn comma_due(buffer: Seq<char>, t: TokenView) -> bool {
    if t is FieldName {
        !ends_with(buffer, '{')
    } else if t.opens() {
        buffer.len() > 0 && value_needs_comma(buffer)
    } else {
        t.is_scalar() && value_needs_comma(buffer)
    }
}

/// `buffer` after the token `t` has been written to it.
pub open spec fn appended(buffer: Seq<char>, t: TokenView) -> Seq<char> {
    if comma_due(buffer, t) {
        buffer.push(',') + literal(t)
    } else {
        buffer + literal(t)
    }
}

/// The nesting depth after `t`.
pub open spec fn depth_after(depth: int, t: TokenView) -> int {
    if t.opens() {
        depth + 1
    } else if t.closes() {
        depth - 1
    } else {
        depth
    }
}

/// Whether `t`, arriving at nesting depth `depth`, completes a frame: it closes a container and
/// the depth returns to exactly zero.
pub open spec fn completes(depth: int, t: TokenView) -> bool {
    t.closes() && depth - 1 == 0
}

/// The state after one token. A token that completes a frame leaves the assembler fresh.
pub open spec fn step(s: AssemblerState, t: TokenView) -> AssemblerState {
    if completes(s.depth, t) {
        fresh()
    } else {
        AssemblerState { buffer: appended(s.buffer, t), depth: depth_after(s.depth, t) }
    }
}

/// The frame that one token completes, if it completes one.
pub open spec fn emitted(s: AssemblerState, t: TokenView) -> Option<Seq<char>> {
    if completes(s.depth, t) {
        Some(appended(s.buffer, t))
    } else {
        None
    }
}

/// The state after a sequence of tokens.
pub open spec fn state_after(s: AssemblerState, tokens: Seq<TokenView>) -> AssemblerState
    decreases tokens.len(),
{
    if tokens.len() == 0 {
        s
    } else {
        step(state_after(s, tokens.drop_last()), tokens.last())
    }
}

/// The frames that a sequence of tokens completes, in order.
pub open spec fn frames(s: AssemblerState, tokens: Seq<TokenView>) -> Seq<Seq<char>>
    decreases tokens.len(),
{
    if tokens.len() == 0 {
        Seq::empty()
    } else {
        let earlier = frames(s, tokens.drop_last());
        match emitted(state_after(s, tokens.drop_last()), tokens.last()) {
            Some(frame) => earlier.push(frame),
            None => earlier,
        }
    }
}

/// `buffer` after the tokens have been written to it, one after the other.
pub open spec fn written(buffer: Seq<char>, tokens: Seq<TokenView>) -> Seq<char>
    decreases tokens.len(),
{
    if tokens.len() == 0 {
        buffer
    } else {
        appended(written(buffer, tokens.drop_last()), tokens.last())
    }
}

/// The text of a token sequence: its literals, with the commas that are due.
pub open spec fn rendered(tokens: Seq<TokenView>) -> Seq<char> {
    written(Seq::empty(), tokens)
}

/// All the tokens of the chunks, in order.
pub open spec fn joined(chunks: Seq<Seq<TokenView>>) -> Seq<TokenView>
    decreases chunks.len(),
{
    if chunks.len() == 0 {
        Seq::empty()
    } else {
        joined(chunks.drop_last()) + chunks.last()
    }
}

/// The state after the chunks have been handed in one after the other.
pub open spec fn state_after_chunks(s: AssemblerState, chunks: Seq<Seq<TokenView>>) -> AssemblerState
    decreases chunks.len(),
{
    if chunks.len() == 0 {
        s
    } else {
        state_after(state_after_chunks(s, chunks.drop_last()), chunks.last())
    }
}

/// The frames handed out while the chunks are handed in one after the other.
pub open spec fn frames_chunks(s: AssemblerState, chunks: Seq<Seq<TokenView>>) -> Seq<Seq<char>>
    decreases chunks.len(),
{
    if chunks.len() == 0 {
        Seq::empty()
    } else {
        frames_chunks(s, chunks.drop_last()) + frames(
            state_after_chunks(s, chunks.drop_last()),
            chunks.last(),
        )
    }
}

/// The texts of a sequence of strings.
pub open spec fn texts(strings: Seq<String>) -> Seq<Seq<char>> {
    strings.map_values(|s: String| s@)
}

/// True of a token whose literal is not empty and ends with a character that tells what kind
/// of token it was. Only a `Float` can fail this: its text is whatever its maker gave it.
pub open spec fn has_closed_literal(t: TokenView) -> bool {
    t matches TokenView::Float(text) ==> text.len() > 0 && text.last() != '{' && text.last() != '['
        && text.last() != ':'
}

/// Whether a comma stands between two tokens that follow each other inside a frame: before a
/// member name unless an object has just been opened, before a value unless a container has
/// just been opened or a member name has just been written, and never before a token that
/// closes a container.
pub open spec fn comma_between(previous: TokenView, t: TokenView) -> bool {
    if t is FieldName {
        !(previous is StartObject)
    } else {
        (t.is_scalar() || t.opens()) && !previous.opens() && !(previous is FieldName)
    }
}

/// True of the tokens behind which a value is complete: a scalar, and a token that closes a
/// container.
pub open spec fn ends_value(t: TokenView) -> bool {
    t.is_scalar() || t.closes()
}

/// Whether JSON asks for a comma between two tokens that follow each other: behind a complete
/// value, before a member name or the start of another value.
pub open spec fn separator_required(previous: TokenView, t: TokenView) -> bool {
    ends_value(previous) && (t is FieldName || t.is_scalar() || t.opens())
}

/// Feeding two runs of tokens one after the other gives the state and the frames of feeding
/// them as one run.
pub proof fn lemma_run_concat(s: AssemblerState, a: Seq<TokenView>, b: Seq<TokenView>)
    ensures
        state_after(s, a + b) == state_after(state_after(s, a), b),
        frames(s, a + b) == frames(s, a) + frames(state_after(s, a), b),
    decreases b.len(),
{
    if b.len() == 0 {
        assert(a + b == a);
    } else {
        assert((a + b).drop_last() == a + b.drop_last());
        assert((a + b).last() == b.last());
        lemma_run_concat(s, a, b.drop_last());
    }
}

/// However a stream of tokens is cut into chunks, down to one token at a time, the assembler
/// ends in the same state and hands out the same frames in the same order as for the whole
/// stream at once.
pub proof fn lemma_chunking_is_invisible(s: AssemblerState, chunks: Seq<Seq<TokenView>>)
    ensures
        state_after_chunks(s, chunks) == state_after(s, joined(chunks)),
        frames_chunks(s, chunks) == frames(s, joined(chunks)),
    decreases chunks.len(),
{
    if chunks.len() > 0 {
        lemma_chunking_is_invisible(s, chunks.drop_last());
        lemma_run_concat(s, joined(chunks.drop_last()), chunks.last());
    }
}

/// The last character of a token's literal tells whether a comma follows it: what the
/// assembler decides by looking at the end of its buffer is what `comma_between` says of the
/// two tokens. So no comma is written directly behind an opening brace or bracket, none before
/// a closing one, and one between a value and the member name or scalar behind it.
pub proof fn lemma_comma_rule(buffer: Seq<char>, previous: TokenView, t: TokenView)
    requires
        has_closed_literal(previous),
    ensures
        comma_due(appended(buffer, previous), t) == comma_between(previous, t),
        t.closes() ==> !comma_due(appended(buffer, previous), t),
{
    let after = appended(buffer, previous);
    let lit = literal(previous);
    lemma_literal_end(previous);
    assert(after.len() > 0 && after.last() == lit.last());
}

/// Commas stand where JSON asks for them and nowhere else: between a value and the member name
/// or value behind it, never directly behind an opening brace or bracket, never before a
/// closing one. This holds where a member name stands at the start of an object or behind a
/// value, as it does in every JSON text.
pub proof fn lemma_commas_separate(buffer: Seq<char>, previous: TokenView, t: TokenView)
    requires
        has_closed_literal(previous),
        t is FieldName ==> previous is StartObject || ends_value(previous),
    ensures
        comma_due(appended(buffer, previous), t) == separator_required(previous, t),
        previous.opens() ==> !comma_due(appended(buffer, previous), t),
        t.closes() ==> !comma_due(appended(buffer, previous), t),
{
    lemma_comma_rule(buffer, previous, t);
}

/// True of a token whose literal holds no control character. Only a `Float` can fail this: its
/// text is whatever its maker gave it.
pub open spec fn is_clean_token(t: TokenView) -> bool {
    t matches TokenView::Float(text) ==> is_clean(text)
}

/// True when every token is clean.
pub open spec fn all_clean(tokens: Seq<TokenView>) -> bool {
    forall|i: int| 0 <= i < tokens.len() ==> is_clean_token(#[trigger] tokens[i])
}

/// The literal of a clean token is clean.
proof fn lemma_literal_is_clean(t: TokenView)
    requires
        is_clean_token(t),
    ensures
        is_clean(literal(t)),
{
    match t {
        TokenView::FieldName(name) => {
            lemma_escaped_is_clean(name);
            lemma_clean_concat(quoted(name), seq![':']);
            assert(quoted(name).push(':') == quoted(name) + seq![':']);
        },
        TokenView::Text(value) => {
            lemma_escaped_is_clean(value);
        },
        TokenView::Integer(value) => {
            lemma_decimal_is_clean(value);
        },
        _ => {},
    }
}

/// Clean tokens are written as a clean text: strings are escaped, so whatever the strings of
/// a frame hold, its text holds no line feed and no NUL, and a delimiter behind it ends it.
pub proof fn lemma_written_is_clean(buffer: Seq<char>, tokens: Seq<TokenView>)
    requires
        is_clean(buffer),
        all_clean(tokens),
    ensures
        is_clean(written(buffer, tokens)),
    decreases tokens.len(),
{
    if tokens.len() > 0 {
        let earlier = tokens.drop_last();
        assert forall|i: int| 0 <= i < earlier.len() implies is_clean_token(
            #[trigger] earlier[i],
        ) by {
            assert(earlier[i] == tokens[i]);
        }
        lemma_written_is_clean(buffer, earlier);
        let before = written(buffer, earlier);
        assert(is_clean_token(tokens[tokens.len() - 1]));
        lemma_literal_is_clean(tokens.last());
        lemma_clean_concat(before, seq![',']);
        assert(before.push(',') == before + seq![',']);
        lemma_clean_concat(before.push(','), literal(tokens.last()));
        lemma_clean_concat(before, literal(tokens.last()));
    }
}

/// What the last character of a token's literal is.
proof fn lemma_literal_end(t: TokenView)
    requires
        has_closed_literal(t),
    ensures
        literal(t).len() > 0,
        (literal(t).last() == '{') == (t is StartObject),
        (literal(t).last() == '[') == (t is StartArray),
        (literal(t).last() == ':') == (t is FieldName),
{
    match t {
        TokenView::Integer(value) => {
            lemma_decimal_end(value);
        },
        _ => {},
    }
}

/// A decimal literal is not empty and ends with a digit.
proof fn lemma_decimal_end(i: int)
    ensures
        decimal(i).len() > 0,
        '0' <= decimal(i).last() <= '9',
{
    if i < 0 {
        lemma_digits_end((-i) as nat);
    } else {
        lemma_digits_end(i as nat);
    }
}

/// The digits of a number are not empty and end with a digit.
proof fn lemma_digits_end(n: nat)
    ensures
        crate::text::digits(n).len() > 0,
        '0' <= crate::text::digits(n).last() <= '9',
{
    reveal_with_fuel(crate::text::digits, 2);
}

/// Tells whether a scalar value appended to `json_string` must be preceded by a comma.
pub fn should_add_comma(json_string: &str) -> (r: bool)
    ensures
        r == value_needs_comma(json_string@),
{
    !ends_with_char(json_string, '{') && !ends_with_char(json_string, '[') && !ends_with_char(
        json_string,
        ':',
    )
}

/// Appends the literal `value` to `json_string`, behind a comma where one is due.
pub fn append_value(json_string: &mut String, value: &str)
    ensures
        final(json_string)@ == with_value(old(json_string)@, value@),
{
    if should_add_comma(json_string.as_str()) {
        json_string.push(',');
    }
    json_string.append(value);
}

/// Writes one token to `buffer`, behind a comma where one is due.
pub fn write_token(buffer: &mut String, token: &Token)
    ensures
        final(buffer)@ == appended(old(buffer)@, token@),
{
    match token {
        Token::StartObject => {
            if !buffer.as_str().is_empty() && should_add_comma(buffer.as_str()) {
                buffer.push(',');
            }
            buffer.push('{');
        },
        Token::EndObject => {
            buffer.push('}');
        },
        Token::StartArray => {
            if !buffer.as_str().is_empty() && should_add_comma(buffer.as_str()) {
                buffer.push(',');
            }
            buffer.push('[');
        },
        Token::EndArray => {
            buffer.push(']');
        },
        Token::FieldName(name) => {
            if !ends_with_char(buffer.as_str(), '{') {
                buffer.push(',');
            }
            push_quoted(buffer, name.as_str());
            buffer.push(':');
        },
        Token::Text(value) => {
            if should_add_comma(buffer.as_str()) {
                buffer.push(',');
            }
            push_quoted(buffer, value.as_str());
        },
        Token::Integer(value) => {
            if should_add_comma(buffer.as_str()) {
                buffer.push(',');
            }
            push_decimal(buffer, *value);
        },
        Token::Float(text) => {
            append_value(buffer, text.as_str());
        },
        Token::True => {
            proof {
                reveal_strlit("true");
            }
            append_value(buffer, "true");
            assert("true"@ == literal(TokenView::True));
        },
        Token::False => {
            proof {
                reveal_strlit("false");
            }
            append_value(buffer, "false");
            assert("false"@ == literal(TokenView::False));
        },
        Token::Null => {
            proof {
                reveal_strlit("null");
            }
            append_value(buffer, "null");
            assert("null"@ == literal(TokenView::Null));
        },
    }
}

/// Writes the tokens one after the other, with the commas that are due, and returns the text.
pub fn render(tokens: &Vec<Token>) -> (text: String)
    ensures
        text@ == rendered(views(tokens@)),
{
    let ghost all = views(tokens@);
    let mut text = String::new();
    let mut i: usize = 0;
    assert(all.take(0) == Seq::<TokenView>::empty());
    while i < tokens.len()
        invariant
            i <= tokens@.len(),
            all == views(tokens@),
            text@ == written(Seq::empty(), all.take(i as int)),
        decreases tokens@.len() - i,
    {
        write_token(&mut text, &tokens[i]);
        proof {
            assert(all.take(i + 1).drop_last() == all.take(i as int));
            assert(all.take(i + 1).last() == tokens@[i as int]@);
        }
        i = i + 1;
    }
    assert(all.take(tokens@.len() as int) == all);
    text
}

/// Gathers tokens into frames.
pub struct FrameAssembler {
    buffer: String,
    depth: i64,
}

impl View for FrameAssembler {
    type V = AssemblerState;

    closed spec fn view(&self) -> AssemblerState {
        AssemblerState { buffer: self.buffer@, depth: self.depth as int }
    }
}

impl FrameAssembler {
    /// An assembler that has seen no token.
    pub fn new() -> (r: Self)
        ensures
            r@ == fresh(),
    {
        FrameAssembler { buffer: String::new(), depth: 0 }
    }

    /// The nesting depth.
    pub fn depth(&self) -> (d: i64)
        ensures
            d == self@.depth,
    {
        self.depth
    }

    /// The text of the frame under construction.
    pub fn pending(&self) -> (text: &str)
        ensures
            text@ == self@.buffer,
    {
        self.buffer.as_str()
    }

    /// Whether one more token can be taken without the depth counter leaving its range.
    pub fn has_room(&self) -> (r: bool)
        ensures
            r == (i64::MIN < self@.depth < i64::MAX),
    {
        i64::MIN < self.depth && self.depth < i64::MAX
    }

    /// Takes one token: writes it to the frame under construction and, if it completes the
    /// frame, hands the frame out and starts over.
    pub fn push(&mut self, token: &Token) -> (frame: Option<String>)
        requires
            i64::MIN < old(self)@.depth < i64::MAX,
        ensures
            final(self)@ == step(old(self)@, token@),
            match frame {
                Some(text) => emitted(old(self)@, token@) == Some(text@),
                None => emitted(old(self)@, token@) is None,
            },
    {
        write_token(&mut self.buffer, token);
        let closes = match token {
            Token::StartObject => {
                self.depth = self.depth + 1;
                false
            },
            Token::StartArray => {
                self.depth = self.depth + 1;
                false
            },
            Token::EndObject => {
                self.depth = self.depth - 1;
                true
            },
            Token::EndArray => {
                self.depth = self.depth - 1;
                true
            },
            _ => false,
        };
        if closes && self.depth == 0 {
            let mut frame = String::new();
            std::mem::swap(&mut self.buffer, &mut frame);
            Some(frame)
        } else {
            None
        }
    }

    /// Takes the tokens in order and returns the frames they complete.
    pub fn push_all(&mut self, tokens: &Vec<Token>) -> (completed: Vec<String>)
        requires
            i64::MIN + tokens@.len() < old(self)@.depth < i64::MAX - tokens@.len(),
        ensures
            final(self)@ == state_after(old(self)@, views(tokens@)),
            texts(completed@) == frames(old(self)@, views(tokens@)),
    {
        let ghost start = self@;
        let ghost all = views(tokens@);
        let mut completed: Vec<String> = Vec::new();
        let mut i: usize = 0;
        assert(all.take(0) == Seq::<TokenView>::empty());
        assert(texts(completed@) == Seq::<Seq<char>>::empty());
        while i < tokens.len()
            invariant
                i <= tokens@.len(),
                all == views(tokens@),
                self@ == state_after(start, all.take(i as int)),
                texts(completed@) == frames(start, all.take(i as int)),
                start.depth - i <= self@.depth <= start.depth + i,
                i64::MIN + tokens@.len() < start.depth < i64::MAX - tokens@.len(),
            decreases tokens@.len() - i,
        {
            let ghost seen = completed@;
            let frame = self.push(&tokens[i]);
            proof {
                assert(all.take(i + 1).drop_last() == all.take(i as int));
                assert(all.take(i + 1).last() == tokens@[i as int]@);
            }
            match frame {
                Some(text) => {
                    completed.push(text);
                    assert(texts(completed@) == texts(seen).push(text@));
                },
                None => {},
            }
            i = i + 1;
        }
        assert(all.take(tokens@.len() as int) == all);
        completed
    }
}

} // verus!
