//! Reading requests from the tokens of a frame.
//!
//! A request is an object. Its member `$type` names the operation, its member `id` holds the
//! correlation id, and the other members hold what the operation needs. Members may come in any
//! order; members that the operation does not know are passed over; a member that it knows
//! must not come twice.

use crate::decoder::FrameError;
use crate::names::{operation_of, Key, Operation};
use crate::number::{is_number, Number};
use crate::protocol::{
    header_views, Header, HeaderView, Id, IdView, Request, RequestView, Size, SizeView,
};
use crate::text::decimal;
use crate::token::{views, Token, TokenView};
use crate::wire::{
    all_fit, find, locate, marked, parse_object, read_object, value_at, Found, Member, Place, Span,
};
use vstd::prelude::*;

verus! {

/// Why a frame is not a request.
#[derive(Clone, Copy, Debug, PartialEq, Eq, Structural)]
pub enum DecodeError {
    /// The frame is not JSON.
    Malformed(FrameError),
    /// The frame is not exactly one object.
    NotAnObject,
    /// The object has no member `$type`.
    MissingType,
    /// The member `$type` names no operation.
    UnknownType,
    /// A member that the operation needs is not there.
    MissingField,
    /// A member holds a value of the wrong kind, or comes twice.
    InvalidField,
}

/// What an object holds under a name.
pub enum Slot {
    /// No member has the name.
    Missing,
    /// More than one member has the name.
    Duplicate,
    /// The tokens of the value of the one member that has the name.
    Value(Seq<TokenView>),
}

/// What `members` hold under `key`.
pub open spec fn slot(members: Seq<Member>, key: Key) -> Slot {
    match find(members, key.text()) {
        Found::Absent => Slot::Missing,
        Found::Repeated => Slot::Duplicate,
        Found::Once(i) => Slot::Value(members[i].value),
    }
}

/// The string that the value is, if it is one.
pub open spec fn text_of(value: Seq<TokenView>) -> Option<Seq<char>> {
    if value.len() == 1 && value[0] is Text {
        Some(value[0]->Text_0)
    } else {
        None
    }
}

/// The boolean that the value is, if it is one.
pub open spec fn bool_of(value: Seq<TokenView>) -> Option<bool> {
    if value.len() == 1 && value[0] is True {
        Some(true)
    } else if value.len() == 1 && value[0] is False {
        Some(false)
    } else {
        None
    }
}

/// The id that the value is, if it is an integer or a string.
pub open spec fn id_of(value: Seq<TokenView>) -> Option<IdView> {
    if value.len() == 1 && value[0] is Integer {
        Some(IdView::Integer(value[0]->Integer_0))
    } else if value.len() == 1 && value[0] is Text {
        Some(IdView::Text(value[0]->Text_0))
    } else {
        None
    }
}

/// The literal of the number that the value is, if it is a number.
pub open spec fn number_of(value: Seq<TokenView>) -> Option<Seq<char>> {
    if value.len() == 1 && value[0] is Integer {
        Some(decimal(value[0]->Integer_0))
    } else if value.len() == 1 && value[0] is Float && is_number(value[0]->Float_0) {
        Some(value[0]->Float_0)
    } else {
        None
    }
}

/// True of the value `null`.
pub open spec fn is_null(value: Seq<TokenView>) -> bool {
    value.len() == 1 && value[0] is Null
}

/// What a member that must be there holds, read by `read`.
pub open spec fn required<T>(
    members: Seq<Member>,
    key: Key,
    read: spec_fn(Seq<TokenView>) -> Option<T>,
) -> Result<T, DecodeError> {
    match slot(members, key) {
        Slot::Missing => Err(DecodeError::MissingField),
        Slot::Duplicate => Err(DecodeError::InvalidField),
        Slot::Value(value) => match read(value) {
            Some(v) => Ok(v),
            None => Err(DecodeError::InvalidField),
        },
    }
}

/// What a member that may be left out holds, read by `read`: nothing where it is left out or
/// holds `null`.
pub open spec fn optional<T>(
    members: Seq<Member>,
    key: Key,
    read: spec_fn(Seq<TokenView>) -> Option<T>,
) -> Result<Option<T>, DecodeError> {
    match slot(members, key) {
        Slot::Missing => Ok(None),
        Slot::Duplicate => Err(DecodeError::InvalidField),
        Slot::Value(value) => if is_null(value) {
            Ok(None)
        } else {
            match read(value) {
                Some(v) => Ok(Some(v)),
                None => Err(DecodeError::InvalidField),
            }
        },
    }
}

/// The size that the value is: an object with the numbers `width` and `height`.
pub open spec fn size_of(value: Seq<TokenView>) -> Option<SizeView> {
    match parse_object(value) {
        None => None,
        Some(members) => match (
            required(members, Key::Width, |v| number_of(v)),
            required(members, Key::Height, |v| number_of(v)),
        ) {
            (Ok(width), Ok(height)) => Some(SizeView { width, height }),
            _ => None,
        },
    }
}

/// True when every member holds a string.
pub open spec fn all_text(members: Seq<Member>) -> bool {
    forall|i: int| 0 <= i < members.len() ==> text_of(#[trigger] members[i].value) is Some
}

/// The headers that the members are, each name with its string.
pub open spec fn headers_from(members: Seq<Member>) -> Seq<HeaderView> {
    Seq::new(
        members.len(),
        |i: int| HeaderView { name: members[i].name, value: members[i].value[0]->Text_0 },
    )
}

/// The headers that the value is: an object whose members all hold strings, in the order in
/// which they are written.
pub open spec fn headers_of(value: Seq<TokenView>) -> Option<Seq<HeaderView>> {
    match parse_object(value) {
        Some(members) => if all_text(members) {
            Some(headers_from(members))
        } else {
            None
        },
        None => None,
    }
}

/// The operation that the member `$type` names.
pub open spec fn operation_in(members: Seq<Member>) -> Result<Operation, DecodeError> {
    match slot(members, Key::Type) {
        Slot::Missing => Err(DecodeError::MissingType),
        Slot::Duplicate => Err(DecodeError::InvalidField),
        Slot::Value(value) => match text_of(value) {
            None => Err(DecodeError::InvalidField),
            Some(tag) => match operation_of(tag) {
                None => Err(DecodeError::UnknownType),
                Some(operation) => Ok(operation),
            },
        },
    }
}

/// The request for `operation` with the id `id`, with what the operation needs taken from
/// `members`.
pub open spec fn request_with(operation: Operation, id: IdView, members: Seq<Member>) -> Result<
    RequestView,
    DecodeError,
> {
    match operation {
        Operation::GetVersion => Ok(RequestView::GetVersion { id }),
        Operation::Eval => match required(members, Key::Js, |v| text_of(v)) {
            Ok(js) => Ok(RequestView::Eval { id, js }),
            Err(e) => Err(e),
        },
        Operation::SetTitle => match required(members, Key::Title, |v| text_of(v)) {
            Ok(title) => Ok(RequestView::SetTitle { id, title }),
            Err(e) => Err(e),
        },
        Operation::GetTitle => Ok(RequestView::GetTitle { id }),
        Operation::SetVisibility => match required(members, Key::Visible, |v| bool_of(v)) {
            Ok(visible) => Ok(RequestView::SetVisibility { id, visible }),
            Err(e) => Err(e),
        },
        Operation::IsVisible => Ok(RequestView::IsVisible { id }),
        Operation::OpenDevTools => Ok(RequestView::OpenDevTools { id }),
        Operation::GetSize => match optional(members, Key::IncludeDecorations, |v| bool_of(v)) {
            Ok(include_decorations) => Ok(RequestView::GetSize { id, include_decorations }),
            Err(e) => Err(e),
        },
        Operation::SetSize => match required(members, Key::Size, |v| size_of(v)) {
            Ok(size) => Ok(RequestView::SetSize { id, size }),
            Err(e) => Err(e),
        },
        Operation::Fullscreen => match optional(members, Key::Fullscreen, |v| bool_of(v)) {
            Ok(fullscreen) => Ok(RequestView::Fullscreen { id, fullscreen }),
            Err(e) => Err(e),
        },
        Operation::Maximize => match optional(members, Key::Maximized, |v| bool_of(v)) {
            Ok(maximized) => Ok(RequestView::Maximize { id, maximized }),
            Err(e) => Err(e),
        },
        Operation::Minimize => match optional(members, Key::Minimized, |v| bool_of(v)) {
            Ok(minimized) => Ok(RequestView::Minimize { id, minimized }),
            Err(e) => Err(e),
        },
        Operation::LoadHtml => match required(members, Key::Html, |v| text_of(v)) {
            Ok(html) => match optional(members, Key::Origin, |v| text_of(v)) {
                Ok(origin) => Ok(RequestView::LoadHtml { id, html, origin }),
                Err(e) => Err(e),
            },
            Err(e) => Err(e),
        },
        Operation::LoadUrl => match required(members, Key::Url, |v| text_of(v)) {
            Ok(url) => match optional(members, Key::Headers, |v| headers_of(v)) {
                Ok(headers) => Ok(RequestView::LoadUrl { id, url, headers }),
                Err(e) => Err(e),
            },
            Err(e) => Err(e),
        },
    }
}

/// The request that the members of an object are.
pub open spec fn request_from(members: Seq<Member>) -> Result<RequestView, DecodeError> {
    match operation_in(members) {
        Err(e) => Err(e),
        Ok(operation) => match required(members, Key::Id, |v| id_of(v)) {
            Err(e) => Err(e),
            Ok(id) => request_with(operation, id, members),
        },
    }
}

/// The request that the tokens of a frame are, or why they are none.
pub open spec fn request_of(tokens: Seq<TokenView>) -> Result<RequestView, DecodeError> {
    match parse_object(tokens) {
        None => Err(DecodeError::NotAnObject),
        Some(members) => request_from(members),
    }
}

/// A request that was read holds only numbers that are number literals, so it can be written
/// again.
pub proof fn lemma_read_request_is_well_formed(tokens: Seq<TokenView>)
    ensures
        request_of(tokens) matches Ok(request) ==> request.wf(),
{
    assert forall|i: int| is_number(#[trigger] decimal(i)) by {
        crate::number::lemma_decimal_is_number(i);
    }
}

/// The view of what was read, or the error.
pub open spec fn viewed<T: View>(r: Result<T, DecodeError>) -> Result<T::V, DecodeError> {
    match r {
        Ok(value) => Ok(value@),
        Err(e) => Err(e),
    }
}

/// The view of what was read, if anything was.
pub open spec fn seen<T: View>(r: Option<T>) -> Option<T::V> {
    match r {
        Some(value) => Some(value@),
        None => None,
    }
}

/// What the members of an object hold under a name.
enum Fetched<'a> {
    Missing,
    Duplicate,
    Value(&'a [Token]),
}

impl<'a> Fetched<'a> {
    spec fn slot(self) -> Slot {
        match self {
            Fetched::Missing => Slot::Missing,
            Fetched::Duplicate => Slot::Duplicate,
            Fetched::Value(value) => Slot::Value(views(value@)),
        }
    }
}

/// Looks up what the object holds under `key`.
fn fetch<'a>(tokens: &'a [Token], spans: &Vec<Span>, key: Key) -> (r: Fetched<'a>)
    requires
        all_fit(views(tokens@), spans@),
    ensures
        r.slot() == slot(marked(views(tokens@), spans@), key),
{
    match locate(tokens, spans, key.as_str()) {
        Place::Absent => Fetched::Missing,
        Place::Repeated => Fetched::Duplicate,
        Place::Once(i) => {
            let span = spans[i];
            assert(span.fits(views(tokens@)));
            Fetched::Value(value_at(tokens, span))
        },
    }
}

fn read_text(value: &[Token]) -> (r: Option<String>)
    ensures
        seen(r) == text_of(views(value@)),
{
    if value.len() != 1 {
        return None;
    }
    assert(views(value@)[0] == value@[0]@);
    match &value[0] {
        Token::Text(text) => Some(text.clone()),
        _ => None,
    }
}

fn read_bool(value: &[Token]) -> (r: Option<bool>)
    ensures
        r == bool_of(views(value@)),
{
    if value.len() != 1 {
        return None;
    }
    assert(views(value@)[0] == value@[0]@);
    match &value[0] {
        Token::True => Some(true),
        Token::False => Some(false),
        _ => None,
    }
}

fn read_id(value: &[Token]) -> (r: Option<Id>)
    ensures
        seen(r) == id_of(views(value@)),
{
    if value.len() != 1 {
        return None;
    }
    assert(views(value@)[0] == value@[0]@);
    match &value[0] {
        Token::Integer(number) => Some(Id::Integer(*number)),
        Token::Text(text) => Some(Id::Text(text.clone())),
        _ => None,
    }
}

fn read_number(value: &[Token]) -> (r: Option<Number>)
    ensures
        seen(r) == number_of(views(value@)),
{
    if value.len() != 1 {
        return None;
    }
    assert(views(value@)[0] == value@[0]@);
    match &value[0] {
        Token::Integer(number) => Some(Number::from_integer(*number)),
        Token::Float(text) => Number::parse(text.as_str()),
        _ => None,
    }
}

fn is_null_value(value: &[Token]) -> (r: bool)
    ensures
        r == is_null(views(value@)),
{
    if value.len() != 1 {
        return false;
    }
    assert(views(value@)[0] == value@[0]@);
    match &value[0] {
        Token::Null => true,
        _ => false,
    }
}

fn required_text(tokens: &[Token], spans: &Vec<Span>, key: Key) -> (r: Result<String, DecodeError>)
    requires
        all_fit(views(tokens@), spans@),
    ensures
        viewed(r) == required(marked(views(tokens@), spans@), key, |v| text_of(v)),
{
    match fetch(tokens, spans, key) {
        Fetched::Missing => Err(DecodeError::MissingField),
        Fetched::Duplicate => Err(DecodeError::InvalidField),
        Fetched::Value(value) => match read_text(value) {
            Some(text) => Ok(text),
            None => Err(DecodeError::InvalidField),
        },
    }
}

fn required_bool(tokens: &[Token], spans: &Vec<Span>, key: Key) -> (r: Result<bool, DecodeError>)
    requires
        all_fit(views(tokens@), spans@),
    ensures
        r == required(marked(views(tokens@), spans@), key, |v| bool_of(v)),
{
    match fetch(tokens, spans, key) {
        Fetched::Missing => Err(DecodeError::MissingField),
        Fetched::Duplicate => Err(DecodeError::InvalidField),
        Fetched::Value(value) => match read_bool(value) {
            Some(flag) => Ok(flag),
            None => Err(DecodeError::InvalidField),
        },
    }
}

fn required_id(tokens: &[Token], spans: &Vec<Span>, key: Key) -> (r: Result<Id, DecodeError>)
    requires
        all_fit(views(tokens@), spans@),
    ensures
        viewed(r) == required(marked(views(tokens@), spans@), key, |v| id_of(v)),
{
    match fetch(tokens, spans, key) {
        Fetched::Missing => Err(DecodeError::MissingField),
        Fetched::Duplicate => Err(DecodeError::InvalidField),
        Fetched::Value(value) => match read_id(value) {
            Some(id) => Ok(id),
            None => Err(DecodeError::InvalidField),
        },
    }
}

fn required_number(tokens: &[Token], spans: &Vec<Span>, key: Key) -> (r: Result<
    Number,
    DecodeError,
>)
    requires
        all_fit(views(tokens@), spans@),
    ensures
        viewed(r) == required(marked(views(tokens@), spans@), key, |v| number_of(v)),
{
    match fetch(tokens, spans, key) {
        Fetched::Missing => Err(DecodeError::MissingField),
        Fetched::Duplicate => Err(DecodeError::InvalidField),
        Fetched::Value(value) => match read_number(value) {
            Some(number) => Ok(number),
            None => Err(DecodeError::InvalidField),
        },
    }
}

fn optional_bool(tokens: &[Token], spans: &Vec<Span>, key: Key) -> (r: Result<
    Option<bool>,
    DecodeError,
>)
    requires
        all_fit(views(tokens@), spans@),
    ensures
        r == optional(marked(views(tokens@), spans@), key, |v| bool_of(v)),
{
    match fetch(tokens, spans, key) {
        Fetched::Missing => Ok(None),
        Fetched::Duplicate => Err(DecodeError::InvalidField),
        Fetched::Value(value) => if is_null_value(value) {
            Ok(None)
        } else {
            match read_bool(value) {
                Some(flag) => Ok(Some(flag)),
                None => Err(DecodeError::InvalidField),
            }
        },
    }
}

fn optional_text(tokens: &[Token], spans: &Vec<Span>, key: Key) -> (r: Result<
    Option<String>,
    DecodeError,
>)
    requires
        all_fit(views(tokens@), spans@),
    ensures
        match r {
            Ok(text) => optional(marked(views(tokens@), spans@), key, |v| text_of(v)) == Ok::<
                Option<Seq<char>>,
                DecodeError,
            >(seen(text)),
            Err(e) => optional(marked(views(tokens@), spans@), key, |v| text_of(v)) == Err::<
                Option<Seq<char>>,
                DecodeError,
            >(e),
        },
{
    match fetch(tokens, spans, key) {
        Fetched::Missing => Ok(None),
        Fetched::Duplicate => Err(DecodeError::InvalidField),
        Fetched::Value(value) => if is_null_value(value) {
            Ok(None)
        } else {
            match read_text(value) {
                Some(text) => Ok(Some(text)),
                None => Err(DecodeError::InvalidField),
            }
        },
    }
}

fn read_size(value: &[Token]) -> (r: Option<Size>)
    ensures
        seen(r) == size_of(views(value@)),
{
    match read_object(value) {
        None => None,
        Some(spans) => {
            let width = required_number(value, &spans, Key::Width);
            let height = required_number(value, &spans, Key::Height);
            match (width, height) {
                (Ok(width), Ok(height)) => Some(Size { width, height }),
                _ => None,
            }
        },
    }
}

fn required_size(tokens: &[Token], spans: &Vec<Span>, key: Key) -> (r: Result<Size, DecodeError>)
    requires
        all_fit(views(tokens@), spans@),
    ensures
        viewed(r) == required(marked(views(tokens@), spans@), key, |v| size_of(v)),
{
    match fetch(tokens, spans, key) {
        Fetched::Missing => Err(DecodeError::MissingField),
        Fetched::Duplicate => Err(DecodeError::InvalidField),
        Fetched::Value(value) => match read_size(value) {
            Some(size) => Ok(size),
            None => Err(DecodeError::InvalidField),
        },
    }
}

/// The views of the headers read, if any were.
pub open spec fn seen_headers(r: Option<Vec<Header>>) -> Option<Seq<HeaderView>> {
    match r {
        Some(list) => Some(header_views(list@)),
        None => None,
    }
}

fn read_headers(value: &[Token]) -> (r: Option<Vec<Header>>)
    ensures
        seen_headers(r) == headers_of(views(value@)),
{
    let ghost all = views(value@);
    match read_object(value) {
        None => None,
        Some(spans) => {
            let ghost members = marked(all, spans@);
            let mut headers: Vec<Header> = Vec::new();
            let mut at: usize = 0;
            while at < spans.len()
                invariant
                    all == views(value@),
                    members == marked(all, spans@),
                    parse_object(all) == Some(members),
                    all_fit(all, spans@),
                    at <= spans@.len(),
                    headers@.len() == at,
                    forall|i: int| 0 <= i < at ==> text_of(#[trigger] members[i].value) is Some,
                    forall|i: int|
                        0 <= i < at ==> (#[trigger] headers@[i])@ == headers_from(members)[i],
                decreases spans@.len() - at,
            {
                let span = spans[at];
                assert(span.fits(all));
                assert(members[at as int] == span.member(all));
                assert(all[span.name as int] == value@[span.name as int]@);
                let name = match &value[span.name] {
                    Token::FieldName(name) => name.clone(),
                    _ => {
                        return None;
                    },
                };
                match read_text(value_at(value, span)) {
                    Some(text) => {
                        headers.push(Header { name, value: text });
                    },
                    None => {
                        assert(text_of(members[at as int].value) is None);
                        return None;
                    },
                }
                at = at + 1;
            }
            assert(all_text(members));
            assert(header_views(headers@) =~= headers_from(members));
            Some(headers)
        },
    }
}

fn optional_headers(tokens: &[Token], spans: &Vec<Span>, key: Key) -> (r: Result<
    Option<Vec<Header>>,
    DecodeError,
>)
    requires
        all_fit(views(tokens@), spans@),
    ensures
        match r {
            Ok(headers) => optional(marked(views(tokens@), spans@), key, |v| headers_of(v)) == Ok::<
                Option<Seq<HeaderView>>,
                DecodeError,
            >(seen_headers(headers)),
            Err(e) => optional(marked(views(tokens@), spans@), key, |v| headers_of(v)) == Err::<
                Option<Seq<HeaderView>>,
                DecodeError,
            >(e),
        },
{
    match fetch(tokens, spans, key) {
        Fetched::Missing => Ok(None),
        Fetched::Duplicate => Err(DecodeError::InvalidField),
        Fetched::Value(value) => if is_null_value(value) {
            Ok(None)
        } else {
            match read_headers(value) {
                Some(headers) => Ok(Some(headers)),
                None => Err(DecodeError::InvalidField),
            }
        },
    }
}

fn read_operation(tokens: &[Token], spans: &Vec<Span>) -> (r: Result<Operation, DecodeError>)
    requires
        all_fit(views(tokens@), spans@),
    ensures
        r == operation_in(marked(views(tokens@), spans@)),
{
    match fetch(tokens, spans, Key::Type) {
        Fetched::Missing => Err(DecodeError::MissingType),
        Fetched::Duplicate => Err(DecodeError::InvalidField),
        Fetched::Value(value) => match read_text(value) {
            None => Err(DecodeError::InvalidField),
            Some(tag) => match Operation::parse(tag.as_str()) {
                None => Err(DecodeError::UnknownType),
                Some(operation) => Ok(operation),
            },
        },
    }
}

fn read_request(operation: Operation, id: Id, tokens: &[Token], spans: &Vec<Span>) -> (r: Result<
    Request,
    DecodeError,
>)
    requires
        all_fit(views(tokens@), spans@),
    ensures
        viewed(r) == request_with(operation, id@, marked(views(tokens@), spans@)),
{
    match operation {
        Operation::GetVersion => Ok(Request::GetVersion { id }),
        Operation::Eval => match required_text(tokens, spans, Key::Js) {
            Ok(js) => Ok(Request::Eval { id, js }),
            Err(e) => Err(e),
        },
        Operation::SetTitle => match required_text(tokens, spans, Key::Title) {
            Ok(title) => Ok(Request::SetTitle { id, title }),
            Err(e) => Err(e),
        },
        Operation::GetTitle => Ok(Request::GetTitle { id }),
        Operation::SetVisibility => match required_bool(tokens, spans, Key::Visible) {
            Ok(visible) => Ok(Request::SetVisibility { id, visible }),
            Err(e) => Err(e),
        },
        Operation::IsVisible => Ok(Request::IsVisible { id }),
        Operation::OpenDevTools => Ok(Request::OpenDevTools { id }),
        Operation::GetSize => match optional_bool(tokens, spans, Key::IncludeDecorations) {
            Ok(include_decorations) => Ok(Request::GetSize { id, include_decorations }),
            Err(e) => Err(e),
        },
        Operation::SetSize => match required_size(tokens, spans, Key::Size) {
            Ok(size) => Ok(Request::SetSize { id, size }),
            Err(e) => Err(e),
        },
        Operation::Fullscreen => match optional_bool(tokens, spans, Key::Fullscreen) {
            Ok(fullscreen) => Ok(Request::Fullscreen { id, fullscreen }),
            Err(e) => Err(e),
        },
        Operation::Maximize => match optional_bool(tokens, spans, Key::Maximized) {
            Ok(maximized) => Ok(Request::Maximize { id, maximized }),
            Err(e) => Err(e),
        },
        Operation::Minimize => match optional_bool(tokens, spans, Key::Minimized) {
            Ok(minimized) => Ok(Request::Minimize { id, minimized }),
            Err(e) => Err(e),
        },
        Operation::LoadHtml => match required_text(tokens, spans, Key::Html) {
            Ok(html) => match optional_text(tokens, spans, Key::Origin) {
                Ok(origin) => Ok(Request::LoadHtml { id, html, origin }),
                Err(e) => Err(e),
            },
            Err(e) => Err(e),
        },
        Operation::LoadUrl => match required_text(tokens, spans, Key::Url) {
            Ok(url) => match optional_headers(tokens, spans, Key::Headers) {
                Ok(headers) => Ok(Request::LoadUrl { id, url, headers }),
                Err(e) => Err(e),
            },
            Err(e) => Err(e),
        },
    }
}

/// Reads the request that the tokens of a frame are.
///
/// Returns the request exactly when the tokens are one object that names an operation, holds
/// an id and holds what the operation needs, each member of the right kind and none of them
/// twice; otherwise the error that [`request_of`] gives.
pub fn decode_tokens(tokens: &[Token]) -> (r: Result<Request, DecodeError>)
    ensures
        viewed(r) == request_of(views(tokens@)),
        r matches Ok(request) ==> request@.wf(),
{
    proof {
        lemma_read_request_is_well_formed(views(tokens@));
    }
    match read_object(tokens) {
        None => Err(DecodeError::NotAnObject),
        Some(spans) => match read_operation(tokens, &spans) {
            Err(e) => Err(e),
            Ok(operation) => match required_id(tokens, &spans, Key::Id) {
                Err(e) => Err(e),
                Ok(id) => read_request(operation, id, tokens, &spans),
            },
        },
    }
}

} // verus!
