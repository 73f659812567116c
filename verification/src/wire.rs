//! JSON objects as token sequences: how the members of an object are laid out, and how they
//! are found again.

use crate::token::{views, Token, TokenView};
use vstd::prelude::*;
use vstd::slice::slice_subrange;

verus! {

/// `str::eq` compares two strings character by character.
#[verifier::external_body]
pub(crate) fn same_text(a: &str, b: &str) -> (r: bool)
    ensures
        r == (a@ == b@),
{
    a == b
}

/// One member of an object: its name and the tokens of its value.
pub struct Member {
    pub name: Seq<char>,
    pub value: Seq<TokenView>,
}

/// The tokens of one member: its name, then its value.
pub open spec fn member_tokens(m: Member) -> Seq<TokenView> {
    seq![TokenView::FieldName(m.name)] + m.value
}

/// The tokens of the members, in order.
pub open spec fn members_tokens(members: Seq<Member>) -> Seq<TokenView>
    decreases members.len(),
{
    if members.len() == 0 {
        Seq::empty()
    } else {
        member_tokens(members.first()) + members_tokens(members.drop_first())
    }
}

/// The tokens of the object with these members.
pub open spec fn object(members: Seq<Member>) -> Seq<TokenView> {
    seq![TokenView::StartObject] + members_tokens(members) + seq![TokenView::EndObject]
}

/// The index just behind the token that closes the container that is open `depth` levels deep
/// at index `from`.
pub open spec fn closing(tokens: Seq<TokenView>, from: int, depth: int) -> Option<int>
    decreases tokens.len() - from,
{
    if from < 0 || from >= tokens.len() || depth <= 0 {
        None
    } else if tokens[from].opens() {
        closing(tokens, from + 1, depth + 1)
    } else if tokens[from].closes() {
        if depth == 1 {
            Some(from + 1)
        } else {
            closing(tokens, from + 1, depth - 1)
        }
    } else {
        closing(tokens, from + 1, depth)
    }
}

/// The index just behind the value that starts at index `from`: behind the token itself for a
/// scalar, behind the matching closing token for a container. `None` where no value starts or
/// the container is not closed.
pub open spec fn value_end(tokens: Seq<TokenView>, from: int) -> Option<int> {
    if from < 0 || from >= tokens.len() {
        None
    } else if tokens[from].is_scalar() {
        Some(from + 1)
    } else if tokens[from].opens() {
        closing(tokens, from + 1, 1)
    } else {
        None
    }
}

/// True of the token sequences that are exactly one value.
pub open spec fn is_value(tokens: Seq<TokenView>) -> bool {
    value_end(tokens, 0) == Some(tokens.len() as int)
}

/// The members that start at index `from`, up to the closing brace, which must be the last
/// token.
pub open spec fn members_from(tokens: Seq<TokenView>, from: int) -> Option<Seq<Member>>
    decreases tokens.len() - from,
{
    if from < 0 || from >= tokens.len() {
        None
    } else {
        match tokens[from] {
            TokenView::EndObject => if from == tokens.len() - 1 {
                Some(Seq::empty())
            } else {
                None
            },
            TokenView::FieldName(name) => match value_end(tokens, from + 1) {
                Some(end) => if from < end <= tokens.len() {
                    match members_from(tokens, end) {
                        Some(rest) => Some(
                            seq![Member { name, value: tokens.subrange(from + 1, end) }] + rest,
                        ),
                        None => None,
                    }
                } else {
                    None
                },
                None => None,
            },
            _ => None,
        }
    }
}

/// The members of the object that the tokens are, or `None` if they are not exactly one
/// object.
pub open spec fn parse_object(tokens: Seq<TokenView>) -> Option<Seq<Member>> {
    if tokens.len() > 0 && tokens[0] is StartObject {
        members_from(tokens, 1)
    } else {
        None
    }
}

/// The index of the first member at or behind `from` that is called `name`.
pub open spec fn first_index(members: Seq<Member>, name: Seq<char>, from: int) -> Option<int>
    decreases members.len() - from,
{
    if from < 0 || from >= members.len() {
        None
    } else if members[from].name == name {
        Some(from)
    } else {
        first_index(members, name, from + 1)
    }
}

/// Where a name was found among the members of an object.
pub enum Found {
    /// No member has the name.
    Absent,
    /// Exactly one member has the name: the one at this index.
    Once(int),
    /// More than one member has the name.
    Repeated,
}

/// Where `name` is found among `members`.
pub open spec fn find(members: Seq<Member>, name: Seq<char>) -> Found {
    match first_index(members, name, 0) {
        None => Found::Absent,
        Some(i) => if first_index(members, name, i + 1) is None {
            Found::Once(i)
        } else {
            Found::Repeated
        },
    }
}

/// Where a member stands in a token sequence: the index of its name, and the range of its
/// value.
#[derive(Clone, Copy, Debug)]
pub struct Span {
    pub name: usize,
    pub start: usize,
    pub end: usize,
}

impl Span {
    /// The span lies inside `tokens` and starts with a member name.
    pub open spec fn fits(self, tokens: Seq<TokenView>) -> bool {
        &&& self.name + 1 == self.start
        &&& self.start < self.end <= tokens.len()
        &&& tokens[self.name as int] is FieldName
    }

    /// The member that the span marks in `tokens`.
    pub open spec fn member(self, tokens: Seq<TokenView>) -> Member {
        Member {
            name: tokens[self.name as int]->FieldName_0,
            value: tokens.subrange(self.start as int, self.end as int),
        }
    }
}

/// The members that the spans mark in `tokens`.
pub open spec fn marked(tokens: Seq<TokenView>, spans: Seq<Span>) -> Seq<Member> {
    Seq::new(spans.len(), |i: int| spans[i].member(tokens))
}

/// All the spans lie inside `tokens`.
pub open spec fn all_fit(tokens: Seq<TokenView>, spans: Seq<Span>) -> bool {
    forall|i: int| 0 <= i < spans.len() ==> (#[trigger] spans[i]).fits(tokens)
}

/// The views of a part of a token sequence are that part of its views.
pub proof fn lemma_views_subrange(tokens: Seq<Token>, start: int, end: int)
    requires
        0 <= start <= end <= tokens.len(),
    ensures
        views(tokens.subrange(start, end)) == views(tokens).subrange(start, end),
{
    assert(views(tokens.subrange(start, end)) =~= views(tokens).subrange(start, end));
}

/// A container that closes inside a token sequence closes at the same place when tokens stand
/// in front of and behind the sequence.
proof fn lemma_closing_in_context(
    before: Seq<TokenView>,
    inner: Seq<TokenView>,
    after: Seq<TokenView>,
    from: int,
    depth: int,
)
    requires
        closing(inner, from, depth) is Some,
    ensures
        closing(before + inner + after, before.len() + from, depth) == Some(
            before.len() + closing(inner, from, depth)->0,
        ),
    decreases inner.len() - from,
{
    let all = before + inner + after;
    assert(0 <= from < inner.len());
    assert(all[before.len() + from] == inner[from]);
    if inner[from].opens() {
        lemma_closing_in_context(before, inner, after, from + 1, depth + 1);
    } else if inner[from].closes() {
        if depth != 1 {
            lemma_closing_in_context(before, inner, after, from + 1, depth - 1);
        }
    } else {
        lemma_closing_in_context(before, inner, after, from + 1, depth);
    }
}

/// A value is found again, whole, when tokens stand in front of and behind it.
pub proof fn lemma_value_in_context(
    before: Seq<TokenView>,
    value: Seq<TokenView>,
    after: Seq<TokenView>,
)
    requires
        is_value(value),
    ensures
        value_end(before + value + after, before.len() as int) == Some(
            (before.len() + value.len()) as int,
        ),
        (before + value + after).subrange(
            before.len() as int,
            (before.len() + value.len()) as int,
        ) == value,
{
    let all = before + value + after;
    assert(value.len() > 0);
    assert(all[before.len() as int] == value[0]);
    if value[0].opens() {
        lemma_closing_in_context(before, value, after, 1, 1);
    }
    assert(all.subrange(before.len() as int, (before.len() + value.len()) as int) =~= value);
}

/// The members written behind any tokens, and closed by a brace, are read back as they were.
proof fn lemma_members_read_back(before: Seq<TokenView>, members: Seq<Member>)
    requires
        forall|i: int| 0 <= i < members.len() ==> is_value(#[trigger] members[i].value),
    ensures
        members_from(
            before + members_tokens(members) + seq![TokenView::EndObject],
            before.len() as int,
        ) == Some(members),
    decreases members.len(),
{
    let close = seq![TokenView::EndObject];
    let all = before + members_tokens(members) + close;
    if members.len() == 0 {
        assert(all =~= before + close);
        assert(members =~= Seq::<Member>::empty());
    } else {
        let m = members.first();
        let rest = members.drop_first();
        let name = seq![TokenView::FieldName(m.name)];
        let tail = members_tokens(rest) + close;
        assert(is_value(members[0].value));
        assert(all =~= (before + name) + m.value + tail);
        lemma_value_in_context(before + name, m.value, tail);
        assert(all[before.len() as int] == TokenView::FieldName(m.name));
        assert forall|i: int| 0 <= i < rest.len() implies is_value(#[trigger] rest[i].value) by {
            assert(rest[i] == members[i + 1]);
        }
        lemma_members_read_back(before + name + m.value, rest);
        assert(all =~= (before + name + m.value) + members_tokens(rest) + close);
        assert(seq![m] + rest =~= members);
    }
}

/// An object whose member values are each one value is read back as it was written.
pub proof fn lemma_object_read_back(members: Seq<Member>)
    requires
        forall|i: int| 0 <= i < members.len() ==> is_value(#[trigger] members[i].value),
    ensures
        parse_object(object(members)) == Some(members),
        is_value(object(members)),
{
    let open = seq![TokenView::StartObject];
    lemma_members_read_back(open, members);
    assert(object(members)[0] == TokenView::StartObject);
    lemma_object_closes(members);
}

/// Behind the members of an object, each one value, the brace closes the object.
proof fn lemma_object_closes(members: Seq<Member>)
    requires
        forall|i: int| 0 <= i < members.len() ==> is_value(#[trigger] members[i].value),
    ensures
        is_value(object(members)),
{
    lemma_members_balance(seq![TokenView::StartObject], members, 1);
}

/// Scanning over the members of an object, each one value, leaves the depth as it was, so the
/// brace behind them closes what was open before them.
proof fn lemma_members_balance(before: Seq<TokenView>, members: Seq<Member>, depth: int)
    requires
        depth >= 1,
        forall|i: int| 0 <= i < members.len() ==> is_value(#[trigger] members[i].value),
    ensures
        closing(
            before + members_tokens(members) + seq![TokenView::EndObject],
            before.len() as int,
            depth,
        ) == if depth == 1 {
            Some((before.len() + members_tokens(members).len() + 1) as int)
        } else {
            closing(
                before + members_tokens(members) + seq![TokenView::EndObject],
                (before.len() + members_tokens(members).len() + 1) as int,
                depth - 1,
            )
        },
    decreases members.len(),
{
    let close = seq![TokenView::EndObject];
    let all = before + members_tokens(members) + close;
    if members.len() == 0 {
        assert(all[before.len() as int] == TokenView::EndObject);
    } else {
        let m = members.first();
        let rest = members.drop_first();
        let name = seq![TokenView::FieldName(m.name)];
        assert(is_value(members[0].value));
        assert(all =~= (before + name + m.value) + members_tokens(rest) + close);
        assert(all[before.len() as int] == TokenView::FieldName(m.name));
        lemma_value_balance(before + name, m.value, members_tokens(rest) + close, depth);
        assert(all =~= (before + name) + m.value + (members_tokens(rest) + close));
        assert forall|i: int| 0 <= i < rest.len() implies is_value(#[trigger] rest[i].value) by {
            assert(rest[i] == members[i + 1]);
        }
        lemma_members_balance(before + name + m.value, rest, depth);
        assert(members_tokens(members).len() == 1 + m.value.len() + members_tokens(rest).len());
    }
}

/// Scanning over one value leaves the depth as it was.
proof fn lemma_value_balance(
    before: Seq<TokenView>,
    value: Seq<TokenView>,
    after: Seq<TokenView>,
    depth: int,
)
    requires
        depth >= 1,
        is_value(value),
    ensures
        closing(before + value + after, before.len() as int, depth) == closing(
            before + value + after,
            (before.len() + value.len()) as int,
            depth,
        ),
{
    let all = before + value + after;
    assert(all[before.len() as int] == value[0]);
    if value[0].opens() {
        lemma_closing_deeper(before, value, after, 1, 1, depth);
    }
}

/// A scan that would close a container at depth `inner` goes on at depth `outer` behind it
/// when it started `outer` levels deeper.
proof fn lemma_closing_deeper(
    before: Seq<TokenView>,
    value: Seq<TokenView>,
    after: Seq<TokenView>,
    from: int,
    inner: int,
    outer: int,
)
    requires
        outer >= 1,
        closing(value, from, inner) == Some(value.len() as int),
    ensures
        closing(before + value + after, before.len() + from, inner + outer) == closing(
            before + value + after,
            (before.len() + value.len()) as int,
            outer,
        ),
    decreases value.len() - from,
{
    let all = before + value + after;
    assert(0 <= from < value.len());
    assert(all[before.len() + from] == value[from]);
    if value[from].opens() {
        lemma_closing_deeper(before, value, after, from + 1, inner + 1, outer);
    } else if value[from].closes() {
        if inner != 1 {
            lemma_closing_deeper(before, value, after, from + 1, inner - 1, outer);
        }
    } else {
        lemma_closing_deeper(before, value, after, from + 1, inner, outer);
    }
}

/// Finds the end of the container that is open `depth` levels deep at `from`.
fn find_closing(tokens: &[Token], from: usize) -> (r: Option<usize>)
    requires
        from >= 1,
    ensures
        match r {
            Some(end) => closing(views(tokens@), from as int, 1) == Some(end as int) && from < end
                <= tokens@.len(),
            None => closing(views(tokens@), from as int, 1) is None,
        },
{
    let ghost all = views(tokens@);
    let mut at: usize = from;
    let mut level: usize = 1;
    while at < tokens.len()
        invariant
            all == views(tokens@),
            1 <= from <= at,
            level >= 1,
            level <= 1 + (at - from),
            closing(all, from as int, 1) == closing(all, at as int, level as int),
        decreases tokens@.len() - at,
    {
        assert(all[at as int] == tokens@[at as int]@);
        match &tokens[at] {
            Token::StartObject => {
                level = level + 1;
            },
            Token::StartArray => {
                level = level + 1;
            },
            Token::EndObject => {
                if level == 1 {
                    return Some(at + 1);
                }
                level = level - 1;
            },
            Token::EndArray => {
                if level == 1 {
                    return Some(at + 1);
                }
                level = level - 1;
            },
            _ => {},
        }
        at = at + 1;
    }
    None
}

/// Finds the end of the value that starts at `from`.
pub fn find_value_end(tokens: &[Token], from: usize) -> (r: Option<usize>)
    ensures
        match r {
            Some(end) => value_end(views(tokens@), from as int) == Some(end as int) && from < end
                <= tokens@.len(),
            None => value_end(views(tokens@), from as int) is None,
        },
{
    if from >= tokens.len() {
        return None;
    }
    assert(views(tokens@)[from as int] == tokens@[from as int]@);
    match &tokens[from] {
        Token::StartObject => find_closing(tokens, from + 1),
        Token::StartArray => find_closing(tokens, from + 1),
        Token::EndObject => None,
        Token::EndArray => None,
        Token::FieldName(_) => None,
        _ => Some(from + 1),
    }
}

/// Reads the members of the object that `tokens` is.
pub fn read_object(tokens: &[Token]) -> (r: Option<Vec<Span>>)
    ensures
        match r {
            Some(spans) => parse_object(views(tokens@)) == Some(marked(views(tokens@), spans@))
                && all_fit(views(tokens@), spans@),
            None => parse_object(views(tokens@)) is None,
        },
{
    let ghost all = views(tokens@);
    if tokens.len() == 0 {
        return None;
    }
    assert(all[0] == tokens@[0]@);
    match &tokens[0] {
        Token::StartObject => {},
        _ => {
            return None;
        },
    }
    let mut spans: Vec<Span> = Vec::new();
    let mut at: usize = 1;
    assert(marked(all, spans@) =~= Seq::<Member>::empty());
    while at < tokens.len()
        invariant
            all == views(tokens@),
            1 <= at,
            all_fit(all, spans@),
            parse_object(all) == match members_from(all, at as int) {
                Some(rest) => Some(marked(all, spans@) + rest),
                None => None,
            },
        decreases tokens@.len() - at,
    {
        assert(all[at as int] == tokens@[at as int]@);
        match &tokens[at] {
            Token::EndObject => {
                if at + 1 == tokens.len() {
                    assert(marked(all, spans@) + Seq::<Member>::empty() =~= marked(all, spans@));
                    return Some(spans);
                } else {
                    return None;
                }
            },
            Token::FieldName(_) => {
                match find_value_end(tokens, at + 1) {
                    Some(end) => {
                        let span = Span { name: at, start: at + 1, end };
                        let ghost earlier = spans@;
                        spans.push(span);
                        proof {
                            assert(span.fits(all));
                            assert forall|i: int| 0 <= i < spans@.len() implies (
                            #[trigger] spans@[i]).fits(all) by {
                                if i < earlier.len() {
                                    assert(spans@[i] == earlier[i]);
                                }
                            }
                            assert(marked(all, spans@) =~= marked(all, earlier) + seq![
                                span.member(all),
                            ]);
                            match members_from(all, end as int) {
                                Some(rest) => {
                                    assert(marked(all, earlier) + (seq![span.member(all)] + rest)
                                        =~= marked(all, spans@) + rest);
                                },
                                None => {},
                            }
                        }
                        at = end;
                    },
                    None => {
                        return None;
                    },
                }
            },
            _ => {
                return None;
            },
        }
    }
    None
}

/// Where a name was found among the spans of an object.
#[derive(Clone, Copy, Debug)]
pub enum Place {
    Absent,
    Once(usize),
    Repeated,
}

impl Place {
    /// What the place stands for in contracts.
    pub open spec fn found(self) -> Found {
        match self {
            Place::Absent => Found::Absent,
            Place::Once(i) => Found::Once(i as int),
            Place::Repeated => Found::Repeated,
        }
    }
}

/// The index of the first span at or behind `from` whose member is called `name`.
fn first_named(tokens: &[Token], spans: &Vec<Span>, name: &str, from: usize) -> (r: Option<usize>)
    requires
        all_fit(views(tokens@), spans@),
    ensures
        match r {
            Some(i) => first_index(marked(views(tokens@), spans@), name@, from as int) == Some(
                i as int,
            ) && from <= i < spans@.len(),
            None => first_index(marked(views(tokens@), spans@), name@, from as int) is None,
        },
{
    let ghost all = views(tokens@);
    let ghost members = marked(all, spans@);
    let mut at: usize = from;
    while at < spans.len()
        invariant
            all == views(tokens@),
            members == marked(all, spans@),
            all_fit(all, spans@),
            from <= at,
            first_index(members, name@, from as int) == first_index(members, name@, at as int),
        decreases spans@.len() - at,
    {
        let span = spans[at];
        assert(span.fits(all));
        assert(all[span.name as int] == tokens@[span.name as int]@);
        assert(members[at as int] == span.member(all));
        match &tokens[span.name] {
            Token::FieldName(text) => {
                if same_text(text.as_str(), name) {
                    return Some(at);
                }
            },
            _ => {},
        }
        at = at + 1;
    }
    None
}

/// Finds the member called `name`.
pub fn locate(tokens: &[Token], spans: &Vec<Span>, name: &str) -> (r: Place)
    requires
        all_fit(views(tokens@), spans@),
    ensures
        r.found() == find(marked(views(tokens@), spans@), name@),
        r matches Place::Once(i) ==> i < spans@.len(),
{
    let count = spans.len();
    match first_named(tokens, spans, name, 0) {
        None => Place::Absent,
        Some(i) => match first_named(tokens, spans, name, i + 1) {
            None => Place::Once(i),
            Some(_) => Place::Repeated,
        },
    }
}

/// The tokens of the value that a span marks.
pub fn value_at<'a>(tokens: &'a [Token], span: Span) -> (r: &'a [Token])
    requires
        span.fits(views(tokens@)),
    ensures
        views(r@) == span.member(views(tokens@)).value,
{
    proof {
        lemma_views_subrange(tokens@, span.start as int, span.end as int);
    }
    slice_subrange(tokens, span.start, span.end)
}

} // verus!
