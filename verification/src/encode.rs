//! Writing messages and requests as tokens and as text.
//!
//! Every value of the protocol is written as an object whose first member, `$type`, names the
//! variant. A message wraps a notification or a response in its member `data`; a result wraps
//! its payload in its member `value`.

use crate::frame::{render, rendered};
use crate::names::{Key, Operation};
use crate::number::Number;
use crate::protocol::{
    header_views, Header, HeaderView, Id, IdView, Message, MessageView, Notification,
    NotificationView, Request, RequestView, Response, ResponseView, ResultType, ResultTypeView,
    Size, SizeView, SizeWithScale, SizeWithScaleView,
};
use crate::token::{views, Token, TokenView};
use crate::wire::{member_tokens, members_tokens, object, Member};
use vstd::prelude::*;

verus! {

/// Why a message cannot be written.
#[derive(Clone, Copy, Debug, PartialEq, Eq, Structural)]
pub enum EncodeError {
    /// The message holds a number that is no number literal, such as one that is not finite.
    NotANumber,
}

/// The member `key` with the one token `token` as its value.
pub open spec fn scalar(key: Key, token: TokenView) -> Member {
    Member { name: key.text(), value: seq![token] }
}

/// The member `key` with the object of `members` as its value.
pub open spec fn nested(key: Key, members: Seq<Member>) -> Member {
    Member { name: key.text(), value: object(members) }
}

/// The member `$type` with the tag `text`.
pub open spec fn tagged(text: Seq<char>) -> Member {
    scalar(Key::Type, TokenView::Text(text))
}

/// The token of a boolean.
pub open spec fn flag(value: bool) -> TokenView {
    if value {
        TokenView::True
    } else {
        TokenView::False
    }
}

/// The token of a boolean that may be left out: `null` where it is.
pub open spec fn optional_flag(value: Option<bool>) -> TokenView {
    match value {
        Some(v) => flag(v),
        None => TokenView::Null,
    }
}

/// The token of a string that may be left out: `null` where it is.
pub open spec fn optional_string(value: Option<Seq<char>>) -> TokenView {
    match value {
        Some(v) => TokenView::Text(v),
        None => TokenView::Null,
    }
}

/// The token of an id.
pub open spec fn id_token(id: IdView) -> TokenView {
    match id {
        IdView::Integer(value) => TokenView::Integer(value),
        IdView::Text(value) => TokenView::Text(value),
    }
}

/// The members of a size.
pub open spec fn size_members(size: SizeView) -> Seq<Member> {
    seq![
        scalar(Key::Width, TokenView::Float(size.width)),
        scalar(Key::Height, TokenView::Float(size.height)),
    ]
}

/// The members of a size with its scale factor.
pub open spec fn scaled_size_members(size: SizeWithScaleView) -> Seq<Member> {
    seq![
        scalar(Key::Width, TokenView::Float(size.width)),
        scalar(Key::Height, TokenView::Float(size.height)),
        scalar(Key::ScaleFactor, TokenView::Float(size.scale_factor)),
    ]
}

/// The members of a list of headers: each name with its string, in order.
pub open spec fn header_members(headers: Seq<HeaderView>) -> Seq<Member> {
    Seq::new(
        headers.len(),
        |i: int| Member { name: headers[i].name, value: seq![TokenView::Text(headers[i].value)] },
    )
}

/// The member `headers`: `null` where the headers are left out.
pub open spec fn headers_member(headers: Option<Seq<HeaderView>>) -> Member {
    match headers {
        Some(list) => nested(Key::Headers, header_members(list)),
        None => scalar(Key::Headers, TokenView::Null),
    }
}

/// The operation that a request asks for.
pub open spec fn operation(request: RequestView) -> Operation {
    match request {
        RequestView::GetVersion { .. } => Operation::GetVersion,
        RequestView::Eval { .. } => Operation::Eval,
        RequestView::SetTitle { .. } => Operation::SetTitle,
        RequestView::GetTitle { .. } => Operation::GetTitle,
        RequestView::SetVisibility { .. } => Operation::SetVisibility,
        RequestView::IsVisible { .. } => Operation::IsVisible,
        RequestView::OpenDevTools { .. } => Operation::OpenDevTools,
        RequestView::GetSize { .. } => Operation::GetSize,
        RequestView::SetSize { .. } => Operation::SetSize,
        RequestView::Fullscreen { .. } => Operation::Fullscreen,
        RequestView::Maximize { .. } => Operation::Maximize,
        RequestView::Minimize { .. } => Operation::Minimize,
        RequestView::LoadHtml { .. } => Operation::LoadHtml,
        RequestView::LoadUrl { .. } => Operation::LoadUrl,
    }
}

/// The members of a request behind its tag and its id.
pub open spec fn request_fields(request: RequestView) -> Seq<Member> {
    match request {
        RequestView::GetVersion { .. } => seq![],
        RequestView::Eval { js, .. } => seq![scalar(Key::Js, TokenView::Text(js))],
        RequestView::SetTitle { title, .. } => seq![scalar(Key::Title, TokenView::Text(title))],
        RequestView::GetTitle { .. } => seq![],
        RequestView::SetVisibility { visible, .. } => seq![scalar(Key::Visible, flag(visible))],
        RequestView::IsVisible { .. } => seq![],
        RequestView::OpenDevTools { .. } => seq![],
        RequestView::GetSize { include_decorations, .. } => seq![
            scalar(Key::IncludeDecorations, optional_flag(include_decorations)),
        ],
        RequestView::SetSize { size, .. } => seq![nested(Key::Size, size_members(size))],
        RequestView::Fullscreen { fullscreen, .. } => seq![
            scalar(Key::Fullscreen, optional_flag(fullscreen)),
        ],
        RequestView::Maximize { maximized, .. } => seq![
            scalar(Key::Maximized, optional_flag(maximized)),
        ],
        RequestView::Minimize { minimized, .. } => seq![
            scalar(Key::Minimized, optional_flag(minimized)),
        ],
        RequestView::LoadHtml { html, origin, .. } => seq![
            scalar(Key::Html, TokenView::Text(html)),
            scalar(Key::Origin, optional_string(origin)),
        ],
        RequestView::LoadUrl { url, headers, .. } => seq![
            scalar(Key::Url, TokenView::Text(url)),
            headers_member(headers),
        ],
    }
}

/// The members of a request: its tag, its id, and what the operation needs.
pub open spec fn request_members(request: RequestView) -> Seq<Member> {
    seq![tagged(operation(request).tag()), scalar(Key::Id, id_token(request.id()))]
        + request_fields(request)
}

/// The tokens of a request.
pub open spec fn request_tokens(request: RequestView) -> Seq<TokenView> {
    object(request_members(request))
}

/// The members of a result: the tag of its kind and its payload under `value`.
pub open spec fn result_members(result: ResultTypeView) -> Seq<Member> {
    match result {
        ResultTypeView::String(value) => seq![
            tagged("string"@),
            scalar(Key::Value, TokenView::Text(value)),
        ],
        ResultTypeView::Boolean(value) => seq![tagged("boolean"@), scalar(Key::Value, flag(value))],
        ResultTypeView::Float(value) => seq![
            tagged("float"@),
            scalar(Key::Value, TokenView::Float(value)),
        ],
        ResultTypeView::Size(size) => seq![
            tagged("size"@),
            nested(Key::Value, scaled_size_members(size)),
        ],
    }
}

/// The members of a response.
pub open spec fn response_members(response: ResponseView) -> Seq<Member> {
    match response {
        ResponseView::Ack { id } => seq![tagged("ack"@), scalar(Key::Id, id_token(id))],
        ResponseView::Result { id, result } => seq![
            tagged("result"@),
            scalar(Key::Id, id_token(id)),
            nested(Key::Result, result_members(result)),
        ],
        ResponseView::Error { id, message } => seq![
            tagged("err"@),
            scalar(Key::Id, id_token(id)),
            scalar(Key::Message, TokenView::Text(message)),
        ],
    }
}

/// The members of a notification.
pub open spec fn notification_members(notification: NotificationView) -> Seq<Member> {
    match notification {
        NotificationView::Started { version } => seq![
            tagged("started"@),
            scalar(Key::Version, TokenView::Text(version)),
        ],
        NotificationView::Ipc { message } => seq![
            tagged("ipc"@),
            scalar(Key::Message, TokenView::Text(message)),
        ],
        NotificationView::Closed => seq![tagged("closed"@)],
    }
}

/// The members of a message: the tag of its kind, and the notification or response under
/// `data`.
pub open spec fn message_members(message: MessageView) -> Seq<Member> {
    match message {
        MessageView::Notification(notification) => seq![
            tagged("notification"@),
            nested(Key::Data, notification_members(notification)),
        ],
        MessageView::Response(response) => seq![
            tagged("response"@),
            nested(Key::Data, response_members(response)),
        ],
    }
}

/// The tokens of a message.
pub open spec fn message_tokens(message: MessageView) -> Seq<TokenView> {
    object(message_members(message))
}

/// Where a writer stands inside an object: the tokens in front of the object's members, and
/// the members written so far.
pub struct Layout {
    pub prefix: Seq<TokenView>,
    pub members: Seq<Member>,
}

impl Layout {
    /// The tokens written are the prefix and the members.
    pub open spec fn holds(self, out: Seq<Token>) -> bool {
        views(out) == self.prefix + members_tokens(self.members)
    }
}

/// Writing one more member writes its tokens behind those of the others.
pub proof fn lemma_members_tokens_push(members: Seq<Member>, m: Member)
    ensures
        members_tokens(members.push(m)) == members_tokens(members) + member_tokens(m),
    decreases members.len(),
{
    let all = members.push(m);
    if members.len() == 0 {
        assert(all.drop_first() =~= Seq::<Member>::empty());
        assert(all.first() == m);
        assert(members_tokens(all.drop_first()) =~= Seq::<TokenView>::empty());
        assert(members_tokens(all) =~= member_tokens(m));
        assert(members_tokens(members) + member_tokens(m) =~= member_tokens(m));
    } else {
        assert(all.drop_first() =~= members.drop_first().push(m));
        lemma_members_tokens_push(members.drop_first(), m);
        assert(members_tokens(all) =~= members_tokens(members) + member_tokens(m));
    }
}

fn put(out: &mut Vec<Token>, token: Token)
    ensures
        views(final(out)@) == views(old(out)@).push(token@),
{
    out.push(token);
    assert(views(out@) =~= views(old(out)@).push(token@));
}

/// Opens an object.
fn start(out: &mut Vec<Token>) -> (layout: Ghost<Layout>)
    ensures
        layout@.prefix == views(old(out)@).push(TokenView::StartObject),
        layout@.members == Seq::<Member>::empty(),
        layout@.holds(final(out)@),
{
    put(out, Token::StartObject);
    let ghost layout = Layout { prefix: views(out@), members: Seq::empty() };
    assert(layout.prefix + members_tokens(layout.members) =~= layout.prefix);
    Ghost(layout)
}

/// Closes the object that was opened behind `base`.
fn finish(out: &mut Vec<Token>, Ghost(base): Ghost<Seq<TokenView>>, Ghost(layout): Ghost<Layout>)
    requires
        layout.holds(old(out)@),
        layout.prefix == base.push(TokenView::StartObject),
    ensures
        views(final(out)@) == base + object(layout.members),
{
    put(out, Token::EndObject);
    assert(views(out@) =~= base + object(layout.members));
}

/// Writes a member whose value is one token.
fn member(out: &mut Vec<Token>, Ghost(layout): Ghost<Layout>, key: Key, token: Token) -> (next:
    Ghost<Layout>)
    requires
        layout.holds(old(out)@),
    ensures
        next@.prefix == layout.prefix,
        next@.members == layout.members.push(scalar(key, token@)),
        next@.holds(final(out)@),
{
    put(out, Token::FieldName(key.as_str().to_owned()));
    put(out, token);
    let ghost next = Layout {
        prefix: layout.prefix,
        members: layout.members.push(scalar(key, token@)),
    };
    proof {
        lemma_members_tokens_push(layout.members, scalar(key, token@));
        assert(views(out@) =~= next.prefix + members_tokens(next.members));
    }
    Ghost(next)
}

/// Opens the object that is the value of the member `key`.
fn start_nested(out: &mut Vec<Token>, Ghost(layout): Ghost<Layout>, key: Key) -> (inner: Ghost<
    Layout,
>)
    requires
        layout.holds(old(out)@),
    ensures
        inner@.prefix == (layout.prefix + members_tokens(layout.members)).push(
            TokenView::FieldName(key.text()),
        ).push(TokenView::StartObject),
        inner@.members == Seq::<Member>::empty(),
        inner@.holds(final(out)@),
{
    put(out, Token::FieldName(key.as_str().to_owned()));
    put(out, Token::StartObject);
    let ghost inner = Layout { prefix: views(out@), members: Seq::empty() };
    assert(inner.prefix + members_tokens(inner.members) =~= inner.prefix);
    Ghost(inner)
}

/// Closes the object that is the value of the member `key`.
fn finish_nested(
    out: &mut Vec<Token>,
    Ghost(layout): Ghost<Layout>,
    key: Key,
    Ghost(inner): Ghost<Layout>,
) -> (next: Ghost<Layout>)
    requires
        inner.holds(old(out)@),
        inner.prefix == (layout.prefix + members_tokens(layout.members)).push(
            TokenView::FieldName(key.text()),
        ).push(TokenView::StartObject),
    ensures
        next@.prefix == layout.prefix,
        next@.members == layout.members.push(nested(key, inner.members)),
        next@.holds(final(out)@),
{
    put(out, Token::EndObject);
    let ghost next = Layout {
        prefix: layout.prefix,
        members: layout.members.push(nested(key, inner.members)),
    };
    proof {
        lemma_members_tokens_push(layout.members, nested(key, inner.members));
        assert(views(out@) =~= next.prefix + members_tokens(next.members));
    }
    Ghost(next)
}

fn text_token(text: &String) -> (token: Token)
    ensures
        token@ == TokenView::Text(text@),
{
    Token::Text(text.clone())
}

fn literal_token(text: &str) -> (token: Token)
    ensures
        token@ == TokenView::Text(text@),
{
    Token::Text(text.to_owned())
}

fn number_token(number: &Number) -> (token: Token)
    ensures
        token@ == TokenView::Float(number@),
{
    Token::Float(number.text.clone())
}

fn flag_token(value: bool) -> (token: Token)
    ensures
        token@ == flag(value),
{
    if value {
        Token::True
    } else {
        Token::False
    }
}

fn optional_flag_token(value: Option<bool>) -> (token: Token)
    ensures
        token@ == optional_flag(value),
{
    match value {
        Some(v) => flag_token(v),
        None => Token::Null,
    }
}

fn optional_string_token(value: &Option<String>) -> (token: Token)
    ensures
        token@ == optional_string(crate::protocol::optional_text(*value)),
{
    match value {
        Some(v) => text_token(v),
        None => Token::Null,
    }
}

fn token_of_id(id: &Id) -> (token: Token)
    ensures
        token@ == id_token(id@),
{
    match id {
        Id::Integer(value) => Token::Integer(*value),
        Id::Text(value) => text_token(value),
    }
}

/// Writes the member `headers`.
fn write_headers(out: &mut Vec<Token>, Ghost(layout): Ghost<Layout>, headers: &Option<Vec<Header>>) -> (next:
    Ghost<Layout>)
    requires
        layout.holds(old(out)@),
    ensures
        next@.prefix == layout.prefix,
        next@.members == layout.members.push(
            headers_member(crate::protocol::optional_header_views(*headers)),
        ),
        next@.holds(final(out)@),
{
    match headers {
        None => member(out, Ghost(layout), Key::Headers, Token::Null),
        Some(list) => {
            let Ghost(start) = start_nested(out, Ghost(layout), Key::Headers);
            let ghost mut inner = start;
            let ghost wanted = header_members(header_views(list@));
            let mut i: usize = 0;
            while i < list.len()
                invariant
                    i <= list@.len(),
                    wanted == header_members(header_views(list@)),
                    inner.prefix == start.prefix,
                    inner.members == wanted.take(i as int),
                    inner.holds(out@),
                decreases list@.len() - i,
            {
                let header = &list[i];
                put(out, Token::FieldName(header.name.clone()));
                put(out, text_token(&header.value));
                proof {
                    let m = wanted[i as int];
                    assert(m == Member {
                        name: header.name@,
                        value: seq![TokenView::Text(header.value@)],
                    });
                    lemma_members_tokens_push(inner.members, m);
                    assert(wanted.take(i + 1) =~= wanted.take(i as int).push(m));
                    let next = Layout { prefix: inner.prefix, members: wanted.take(i + 1) };
                    assert(views(out@) =~= next.prefix + members_tokens(next.members));
                    inner = next;
                }
                i = i + 1;
            }
            assert(wanted.take(list@.len() as int) =~= wanted);
            finish_nested(out, Ghost(layout), Key::Headers, Ghost(inner))
        },
    }
}

/// Writes the tokens of a request behind those that `out` holds.
pub fn write_request(out: &mut Vec<Token>, request: &Request)
    ensures
        views(final(out)@) == views(old(out)@) + request_tokens(request@),
{
    let ghost base = views(out@);
    let layout = start(out);
    let operation = match request {
        Request::GetVersion { .. } => Operation::GetVersion,
        Request::Eval { .. } => Operation::Eval,
        Request::SetTitle { .. } => Operation::SetTitle,
        Request::GetTitle { .. } => Operation::GetTitle,
        Request::SetVisibility { .. } => Operation::SetVisibility,
        Request::IsVisible { .. } => Operation::IsVisible,
        Request::OpenDevTools { .. } => Operation::OpenDevTools,
        Request::GetSize { .. } => Operation::GetSize,
        Request::SetSize { .. } => Operation::SetSize,
        Request::Fullscreen { .. } => Operation::Fullscreen,
        Request::Maximize { .. } => Operation::Maximize,
        Request::Minimize { .. } => Operation::Minimize,
        Request::LoadHtml { .. } => Operation::LoadHtml,
        Request::LoadUrl { .. } => Operation::LoadUrl,
    };
    let layout = member(out, layout, Key::Type, literal_token(operation.as_str()));
    let layout = member(out, layout, Key::Id, token_of_id(request.id()));
    let layout = match request {
        Request::GetVersion { .. } => layout,
        Request::Eval { js, .. } => member(out, layout, Key::Js, text_token(js)),
        Request::SetTitle { title, .. } => member(out, layout, Key::Title, text_token(title)),
        Request::GetTitle { .. } => layout,
        Request::SetVisibility { visible, .. } => member(
            out,
            layout,
            Key::Visible,
            flag_token(*visible),
        ),
        Request::IsVisible { .. } => layout,
        Request::OpenDevTools { .. } => layout,
        Request::GetSize { include_decorations, .. } => member(
            out,
            layout,
            Key::IncludeDecorations,
            optional_flag_token(*include_decorations),
        ),
        Request::SetSize { size, .. } => {
            let inner = start_nested(out, layout, Key::Size);
            let inner = member(out, inner, Key::Width, number_token(&size.width));
            let inner = member(out, inner, Key::Height, number_token(&size.height));
            assert(inner@.members =~= size_members(size@));
            finish_nested(out, layout, Key::Size, inner)
        },
        Request::Fullscreen { fullscreen, .. } => member(
            out,
            layout,
            Key::Fullscreen,
            optional_flag_token(*fullscreen),
        ),
        Request::Maximize { maximized, .. } => member(
            out,
            layout,
            Key::Maximized,
            optional_flag_token(*maximized),
        ),
        Request::Minimize { minimized, .. } => member(
            out,
            layout,
            Key::Minimized,
            optional_flag_token(*minimized),
        ),
        Request::LoadHtml { html, origin, .. } => {
            let layout = member(out, layout, Key::Html, text_token(html));
            member(out, layout, Key::Origin, optional_string_token(origin))
        },
        Request::LoadUrl { url, headers, .. } => {
            let layout = member(out, layout, Key::Url, text_token(url));
            write_headers(out, layout, headers)
        },
    };
    assert(layout@.members =~= request_members(request@));
    finish(out, Ghost(base), layout);
}

/// Writes the members of a result.
fn write_result(out: &mut Vec<Token>, layout: Ghost<Layout>, result: &ResultType) -> (next: Ghost<
    Layout,
>)
    requires
        layout@.holds(old(out)@),
        layout@.members == Seq::<Member>::empty(),
    ensures
        next@.prefix == layout@.prefix,
        next@.members == result_members(result@),
        next@.holds(final(out)@),
{
    let next = match result {
        ResultType::String(value) => {
            let layout = member(out, layout, Key::Type, literal_token("string"));
            member(out, layout, Key::Value, text_token(value))
        },
        ResultType::Boolean(value) => {
            let layout = member(out, layout, Key::Type, literal_token("boolean"));
            member(out, layout, Key::Value, flag_token(*value))
        },
        ResultType::Float(value) => {
            let layout = member(out, layout, Key::Type, literal_token("float"));
            member(out, layout, Key::Value, number_token(value))
        },
        ResultType::Size(size) => {
            let layout = member(out, layout, Key::Type, literal_token("size"));
            let inner = start_nested(out, layout, Key::Value);
            let inner = member(out, inner, Key::Width, number_token(&size.width));
            let inner = member(out, inner, Key::Height, number_token(&size.height));
            let inner = member(out, inner, Key::ScaleFactor, number_token(&size.scale_factor));
            assert(inner@.members =~= scaled_size_members(size@));
            finish_nested(out, layout, Key::Value, inner)
        },
    };
    assert(next@.members =~= result_members(result@));
    next
}

/// Writes the members of a response.
fn write_response(out: &mut Vec<Token>, layout: Ghost<Layout>, response: &Response) -> (next:
    Ghost<Layout>)
    requires
        layout@.holds(old(out)@),
        layout@.members == Seq::<Member>::empty(),
    ensures
        next@.prefix == layout@.prefix,
        next@.members == response_members(response@),
        next@.holds(final(out)@),
{
    let next = match response {
        Response::Ack { id } => {
            let layout = member(out, layout, Key::Type, literal_token("ack"));
            member(out, layout, Key::Id, token_of_id(id))
        },
        Response::Result { id, result } => {
            let layout = member(out, layout, Key::Type, literal_token("result"));
            let layout = member(out, layout, Key::Id, token_of_id(id));
            let inner = start_nested(out, layout, Key::Result);
            let inner = write_result(out, inner, result);
            finish_nested(out, layout, Key::Result, inner)
        },
        Response::Error { id, message } => {
            let layout = member(out, layout, Key::Type, literal_token("err"));
            let layout = member(out, layout, Key::Id, token_of_id(id));
            member(out, layout, Key::Message, text_token(message))
        },
    };
    assert(next@.members =~= response_members(response@));
    next
}

/// Writes the members of a notification.
fn write_notification(out: &mut Vec<Token>, layout: Ghost<Layout>, notification: &Notification) -> (next:
    Ghost<Layout>)
    requires
        layout@.holds(old(out)@),
        layout@.members == Seq::<Member>::empty(),
    ensures
        next@.prefix == layout@.prefix,
        next@.members == notification_members(notification@),
        next@.holds(final(out)@),
{
    let next = match notification {
        Notification::Started { version } => {
            let layout = member(out, layout, Key::Type, literal_token("started"));
            member(out, layout, Key::Version, text_token(version))
        },
        Notification::Ipc { message } => {
            let layout = member(out, layout, Key::Type, literal_token("ipc"));
            member(out, layout, Key::Message, text_token(message))
        },
        Notification::Closed => member(out, layout, Key::Type, literal_token("closed")),
    };
    assert(next@.members =~= notification_members(notification@));
    next
}

/// Writes the tokens of a message behind those that `out` holds.
pub fn write_message(out: &mut Vec<Token>, message: &Message)
    ensures
        views(final(out)@) == views(old(out)@) + message_tokens(message@),
{
    let ghost base = views(out@);
    let layout = start(out);
    let layout = match message {
        Message::Notification(notification) => {
            let layout = member(out, layout, Key::Type, literal_token("notification"));
            let inner = start_nested(out, layout, Key::Data);
            let inner = write_notification(out, inner, notification);
            finish_nested(out, layout, Key::Data, inner)
        },
        Message::Response(response) => {
            let layout = member(out, layout, Key::Type, literal_token("response"));
            let inner = start_nested(out, layout, Key::Data);
            let inner = write_response(out, inner, response);
            finish_nested(out, layout, Key::Data, inner)
        },
    };
    assert(layout@.members =~= message_members(message@));
    finish(out, Ghost(base), layout);
}

/// Whether every number of a size is a number literal.
fn scaled_size_is_valid(size: &SizeWithScale) -> (r: bool)
    ensures
        r == size@.wf(),
{
    size.width.is_valid() && size.height.is_valid() && size.scale_factor.is_valid()
}

/// Whether every number that the message holds is a number literal.
pub fn message_is_valid(message: &Message) -> (r: bool)
    ensures
        r == message@.wf(),
{
    match message {
        Message::Notification(_) => true,
        Message::Response(response) => match response {
            Response::Result { result, .. } => match result {
                ResultType::Float(value) => value.is_valid(),
                ResultType::Size(size) => scaled_size_is_valid(size),
                _ => true,
            },
            _ => true,
        },
    }
}

/// Whether every number that the request holds is a number literal.
pub fn request_is_valid(request: &Request) -> (r: bool)
    ensures
        r == request@.wf(),
{
    match request {
        Request::SetSize { size, .. } => size.width.is_valid() && size.height.is_valid(),
        _ => true,
    }
}

/// The text of a message, if every number that it holds is a number literal.
pub fn encode(message: &Message) -> (r: Result<String, EncodeError>)
    ensures
        match r {
            Ok(text) => message@.wf() && text@ == rendered(message_tokens(message@)),
            Err(e) => !message@.wf() && e == EncodeError::NotANumber,
        },
{
    if !message_is_valid(message) {
        return Err(EncodeError::NotANumber);
    }
    let mut tokens: Vec<Token> = Vec::new();
    write_message(&mut tokens, message);
    assert(views(tokens@) =~= message_tokens(message@));
    Ok(render(&tokens))
}

/// The text of a request, if every number that it holds is a number literal.
pub fn encode_request(request: &Request) -> (r: Result<String, EncodeError>)
    ensures
        match r {
            Ok(text) => request@.wf() && text@ == rendered(request_tokens(request@)),
            Err(e) => !request@.wf() && e == EncodeError::NotANumber,
        },
{
    if !request_is_valid(request) {
        return Err(EncodeError::NotANumber);
    }
    let mut tokens: Vec<Token> = Vec::new();
    write_request(&mut tokens, request);
    assert(views(tokens@) =~= request_tokens(request@));
    Ok(render(&tokens))
}

} // verus!
