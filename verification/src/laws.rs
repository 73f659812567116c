//! What holds of the codec as a whole: what is written is read back, every message is one
//! frame, and the text of a message never holds the delimiter that ends it.

use crate::decode::{
    all_text, headers_from, headers_of, id_of, is_null, operation_in, request_of, request_with,
    required, size_of, slot, DecodeError, Slot,
};
use crate::encode::{
    header_members, id_token, message_members, message_tokens, notification_members, operation,
    request_fields, request_members, request_tokens, response_members, result_members,
    scaled_size_members, size_members,
};
use crate::frame::{
    all_clean, depth_after, frames, fresh, joined, lemma_run_concat, is_clean_token, lemma_written_is_clean, rendered, state_after,
    AssemblerState,
};
use crate::names::{lemma_keys_differ, lemma_tag_names_operation, Key, Operation};
use crate::number::lemma_number_is_clean;
use crate::text::is_clean;
use crate::protocol::{
    HeaderView, IdView, MessageView, RequestView, ResponseView, ResultTypeView, SizeView,
};
use crate::token::TokenView;
use crate::wire::{
    closing, first_index, is_value, lemma_object_read_back, member_tokens, members_tokens, object,
    Member,
};
use vstd::prelude::*;

verus! {

/// No member from `from` on has the name: the search from there finds nothing.
proof fn lemma_not_found(members: Seq<Member>, name: Seq<char>, from: int)
    requires
        0 <= from,
        forall|j: int| from <= j < members.len() ==> (#[trigger] members[j]).name != name,
    ensures
        first_index(members, name, from) is None,
    decreases members.len() - from,
{
    if from < members.len() {
        lemma_not_found(members, name, from + 1);
    }
}

/// The member at `at` is the first from `from` on that has the name: the search from there
/// finds it.
proof fn lemma_found_first(members: Seq<Member>, name: Seq<char>, from: int, at: int)
    requires
        0 <= from <= at < members.len(),
        members[at].name == name,
        forall|j: int| from <= j < at ==> (#[trigger] members[j]).name != name,
    ensures
        first_index(members, name, from) == Some(at),
    decreases at - from,
{
    if from < at {
        lemma_found_first(members, name, from + 1, at);
    }
}

/// When exactly the member at `at` has the name of `key`, the object holds that member's
/// value under `key`.
pub proof fn lemma_slot_holds(members: Seq<Member>, key: Key, at: int)
    requires
        0 <= at < members.len(),
        members[at].name == key.text(),
        forall|j: int|
            0 <= j < members.len() && j != at ==> (#[trigger] members[j]).name != key.text(),
    ensures
        slot(members, key) == Slot::Value(members[at].value),
{
    lemma_found_first(members, key.text(), 0, at);
    lemma_not_found(members, key.text(), at + 1);
}

/// One scalar token is one value.
proof fn lemma_scalar_is_value(token: TokenView)
    requires
        token.is_scalar(),
    ensures
        is_value(seq![token]),
{
}

/// The headers written as an object are read back as they were.
proof fn lemma_headers_round_trip(headers: Seq<HeaderView>)
    ensures
        headers_of(object(header_members(headers))) == Some(headers),
        is_value(object(header_members(headers))),
        !is_null(object(header_members(headers))),
{
    let members = header_members(headers);
    assert forall|i: int| 0 <= i < members.len() implies is_value(#[trigger] members[i].value) by {
        lemma_scalar_is_value(TokenView::Text(headers[i].value));
    }
    lemma_object_read_back(members);
    assert(all_text(members));
    assert(headers_from(members) =~= headers);
    assert(object(members)[0] == TokenView::StartObject);
}

/// A size written as an object is read back as it was, if its numbers are number literals.
proof fn lemma_size_round_trip(size: SizeView)
    requires
        size.wf(),
    ensures
        size_of(object(size_members(size))) == Some(size),
        is_value(object(size_members(size))),
{
    let members = size_members(size);
    assert forall|i: int| 0 <= i < members.len() implies is_value(#[trigger] members[i].value) by {
        if i == 0 {
            lemma_scalar_is_value(TokenView::Float(size.width));
        } else {
            lemma_scalar_is_value(TokenView::Float(size.height));
        }
    }
    lemma_object_read_back(members);
    lemma_keys_differ(Key::Width, Key::Height);
    lemma_slot_holds(members, Key::Width, 0);
    lemma_slot_holds(members, Key::Height, 1);
}

/// Every member of a request holds one value.
proof fn lemma_request_members_are_values(request: RequestView)
    requires
        request.wf(),
    ensures
        forall|i: int|
            0 <= i < request_members(request).len() ==> is_value(
                #[trigger] request_members(request)[i].value,
            ),
{
    let members = request_members(request);
    assert forall|i: int| 0 <= i < members.len() implies is_value(#[trigger] members[i].value) by {
        match request {
            RequestView::SetSize { size, .. } => {
                lemma_size_round_trip(size);
            },
            RequestView::LoadUrl { headers, .. } => {
                if headers is Some {
                    lemma_headers_round_trip(headers->0);
                }
            },
            _ => {},
        }
    }
}

/// The names of the members of a request are the keys `$type` and `id` and then those of the
/// operation, each once.
proof fn lemma_request_slots(request: RequestView)
    ensures
        slot(request_members(request), Key::Type) == Slot::Value(
            seq![TokenView::Text(operation(request).tag())],
        ),
        slot(request_members(request), Key::Id) == Slot::Value(seq![id_token(request.id())]),
        forall|i: int|
            0 <= i < request_fields(request).len() ==> slot(
                request_members(request),
                field_key(request, i),
            ) == Slot::Value(#[trigger] request_fields(request)[i].value),
{
    let members = request_members(request);
    let fields = request_fields(request);
    assert forall|a: Key, b: Key| a != b implies #[trigger] a.text() != #[trigger] b.text() by {
        lemma_keys_differ(a, b);
    }
    assert(members.len() == 2 + fields.len());
    assert(members[0].name == Key::Type.text());
    assert(members[1].name == Key::Id.text());
    assert forall|i: int| 0 <= i < fields.len() implies (#[trigger] members[i + 2]) == fields[i]
        && fields[i].name == field_key(request, i).text() by {}
    assert(fields.len() <= 2);
    if fields.len() >= 1 {
        assert(members[2] == fields[0]);
    }
    if fields.len() >= 2 {
        assert(members[3] == fields[1]);
    }
    lemma_slot_holds(members, Key::Type, 0);
    lemma_slot_holds(members, Key::Id, 1);
    assert forall|i: int| 0 <= i < fields.len() implies slot(members, field_key(request, i))
        == Slot::Value(#[trigger] fields[i].value) by {
        lemma_slot_holds(members, field_key(request, i), i + 2);
    }
}

/// The key of the member at `i` among those that a request holds behind its tag and its id.
pub open spec fn field_key(request: RequestView, i: int) -> Key {
    match request {
        RequestView::Eval { .. } => Key::Js,
        RequestView::SetTitle { .. } => Key::Title,
        RequestView::SetVisibility { .. } => Key::Visible,
        RequestView::GetSize { .. } => Key::IncludeDecorations,
        RequestView::SetSize { .. } => Key::Size,
        RequestView::Fullscreen { .. } => Key::Fullscreen,
        RequestView::Maximize { .. } => Key::Maximized,
        RequestView::Minimize { .. } => Key::Minimized,
        RequestView::LoadHtml { .. } => if i == 0 {
            Key::Html
        } else {
            Key::Origin
        },
        RequestView::LoadUrl { .. } => if i == 0 {
            Key::Url
        } else {
            Key::Headers
        },
        _ => Key::Type,
    }
}

/// Reading what was written gives the request back: for every request whose numbers are number
/// literals, whatever its operation and whether or not its optional members are set, the
/// tokens that it is written as are read as that request.
pub proof fn lemma_request_round_trip(request: RequestView)
    requires
        request.wf(),
    ensures
        request_of(request_tokens(request)) == Ok::<RequestView, DecodeError>(request),
{
    let members = request_members(request);
    let fields = request_fields(request);
    lemma_request_members_are_values(request);
    lemma_object_read_back(members);
    lemma_request_slots(request);
    lemma_tag_names_operation(operation(request));
    assert(operation_in(members) == Ok::<Operation, DecodeError>(operation(request)));
    assert(required(members, Key::Id, |v| id_of(v)) == Ok::<IdView, DecodeError>(request.id()));
    match request {
        RequestView::Eval { .. } => {
            assert(slot(members, Key::Js) == Slot::Value(fields[0].value));
        },
        RequestView::SetTitle { .. } => {
            assert(slot(members, Key::Title) == Slot::Value(fields[0].value));
        },
        RequestView::SetVisibility { .. } => {
            assert(slot(members, Key::Visible) == Slot::Value(fields[0].value));
        },
        RequestView::GetSize { .. } => {
            assert(slot(members, Key::IncludeDecorations) == Slot::Value(fields[0].value));
        },
        RequestView::SetSize { size, .. } => {
            assert(slot(members, Key::Size) == Slot::Value(fields[0].value));
            lemma_size_round_trip(size);
        },
        RequestView::Fullscreen { .. } => {
            assert(slot(members, Key::Fullscreen) == Slot::Value(fields[0].value));
        },
        RequestView::Maximize { .. } => {
            assert(slot(members, Key::Maximized) == Slot::Value(fields[0].value));
        },
        RequestView::Minimize { .. } => {
            assert(slot(members, Key::Minimized) == Slot::Value(fields[0].value));
        },
        RequestView::LoadHtml { .. } => {
            assert(slot(members, Key::Html) == Slot::Value(fields[0].value));
            assert(slot(members, Key::Origin) == Slot::Value(fields[1].value));
        },
        RequestView::LoadUrl { headers, .. } => {
            assert(slot(members, Key::Url) == Slot::Value(fields[0].value));
            assert(slot(members, Key::Headers) == Slot::Value(fields[1].value));
            if headers is Some {
                lemma_headers_round_trip(headers->0);
            }
        },
        _ => {},
    }
    assert(request_with(operation(request), request.id(), members) == Ok::<
        RequestView,
        DecodeError,
    >(request));
}

/// Inside a container that closes at the end of the tokens, the assembler has handed out
/// nothing yet, and it hands out the whole text with the last token.
proof fn lemma_frame_closes_at_the_end(tokens: Seq<TokenView>, at: int, depth: int)
    requires
        1 <= at <= tokens.len(),
        depth >= 1,
        state_after(fresh(), tokens.take(at)) == (AssemblerState {
            buffer: rendered(tokens.take(at)),
            depth,
        }),
        frames(fresh(), tokens.take(at)) == Seq::<Seq<char>>::empty(),
        closing(tokens, at, depth) == Some(tokens.len() as int),
    ensures
        frames(fresh(), tokens) == seq![rendered(tokens)],
        state_after(fresh(), tokens) == fresh(),
    decreases tokens.len() - at,
{
    let t = tokens[at];
    let next = tokens.take(at + 1);
    assert(next.drop_last() == tokens.take(at));
    assert(next.last() == t);
    if t.closes() && depth == 1 {
        assert(next == tokens);
        assert(Seq::<Seq<char>>::empty().push(rendered(tokens)) == seq![rendered(tokens)]);
    } else {
        lemma_frame_closes_at_the_end(tokens, at + 1, depth_after(depth, t));
    }
}

/// The tokens of one object or array are exactly one frame: the assembler hands out their
/// text when it has taken the last of them, not before, and is then as it was at the start.
/// The nesting depth returns to zero only once, at the end.
pub proof fn lemma_container_is_one_frame(tokens: Seq<TokenView>)
    requires
        is_value(tokens),
        tokens[0].opens(),
    ensures
        frames(fresh(), tokens) == seq![rendered(tokens)],
        state_after(fresh(), tokens) == fresh(),
{
    let first = tokens.take(1);
    assert(first.drop_last() == Seq::<TokenView>::empty());
    assert(first.last() == tokens[0]);
    assert(state_after(fresh(), first.drop_last()) == fresh());
    assert(rendered(first.drop_last()) == Seq::<char>::empty());
    assert(frames(fresh(), first.drop_last()) == Seq::<Seq<char>>::empty());
    lemma_frame_closes_at_the_end(tokens, 1, 1);
}

/// The texts of the values, in order.
pub open spec fn rendered_each(values: Seq<Seq<TokenView>>) -> Seq<Seq<char>> {
    Seq::new(values.len(), |i: int| rendered(values[i]))
}

/// The tokens of any number of objects and arrays, one behind the other and nested to any
/// depth, are exactly as many frames: each value is handed out as its own text when its last
/// token has been taken, no frame is handed out at an inner closing token, and behind the last
/// value the assembler is as it was at the start.
pub proof fn lemma_containers_are_frames(values: Seq<Seq<TokenView>>)
    requires
        forall|i: int| 0 <= i < values.len() ==> is_value(#[trigger] values[i]) && values[i][0].opens(),
    ensures
        frames(fresh(), joined(values)) == rendered_each(values),
        state_after(fresh(), joined(values)) == fresh(),
    decreases values.len(),
{
    if values.len() > 0 {
        let earlier = values.drop_last();
        assert forall|i: int| 0 <= i < earlier.len() implies is_value(#[trigger] earlier[i])
            && earlier[i][0].opens() by {
            assert(earlier[i] == values[i]);
        }
        lemma_containers_are_frames(earlier);
        lemma_container_is_one_frame(values.last());
        lemma_run_concat(fresh(), joined(earlier), values.last());
        assert(rendered_each(values) =~= rendered_each(earlier) + seq![rendered(values.last())]);
    } else {
        assert(rendered_each(values) =~= Seq::<Seq<char>>::empty());
    }
}

/// The text that a request is written as is exactly one frame for the assembler.
pub proof fn lemma_request_is_one_frame(request: RequestView)
    requires
        request.wf(),
    ensures
        frames(fresh(), request_tokens(request)) == seq![rendered(request_tokens(request))],
        state_after(fresh(), request_tokens(request)) == fresh(),
{
    lemma_request_members_are_values(request);
    lemma_object_read_back(request_members(request));
    lemma_container_is_one_frame(request_tokens(request));
}

/// True when every member holds one value.
pub open spec fn all_values(members: Seq<Member>) -> bool {
    forall|i: int| 0 <= i < members.len() ==> is_value(#[trigger] members[i].value)
}

/// Every member of a result holds one value.
proof fn lemma_result_members_are_values(result: ResultTypeView)
    ensures
        all_values(result_members(result)),
{
    if let ResultTypeView::Size(size) = result {
        let inner = scaled_size_members(size);
        assert(all_values(inner));
        lemma_object_read_back(inner);
    }
}

/// Every member of a response holds one value.
proof fn lemma_response_members_are_values(response: ResponseView)
    ensures
        all_values(response_members(response)),
{
    if let ResponseView::Result { result, .. } = response {
        lemma_result_members_are_values(result);
        lemma_object_read_back(result_members(result));
    }
}

/// Every member of a message holds one value.
proof fn lemma_message_members_are_values(message: MessageView)
    ensures
        all_values(message_members(message)),
{
    match message {
        MessageView::Notification(notification) => {
            assert(all_values(notification_members(notification)));
            lemma_object_read_back(notification_members(notification));
        },
        MessageView::Response(response) => {
            lemma_response_members_are_values(response);
            lemma_object_read_back(response_members(response));
        },
    }
}

/// The text that a message is written as is exactly one frame for the assembler: a reader
/// that gathers frames by depth hands out every message that was sent as one frame.
pub proof fn lemma_message_is_one_frame(message: MessageView)
    ensures
        frames(fresh(), message_tokens(message)) == seq![rendered(message_tokens(message))],
        state_after(fresh(), message_tokens(message)) == fresh(),
{
    lemma_message_members_are_values(message);
    lemma_object_read_back(message_members(message));
    lemma_container_is_one_frame(message_tokens(message));
}

/// Clean tokens behind clean tokens are clean tokens.
proof fn lemma_all_clean_concat(a: Seq<TokenView>, b: Seq<TokenView>)
    requires
        all_clean(a),
        all_clean(b),
    ensures
        all_clean(a + b),
{
    assert forall|i: int| 0 <= i < (a + b).len() implies is_clean_token(#[trigger] (a + b)[i]) by {
        if i < a.len() {
            assert((a + b)[i] == a[i]);
        } else {
            assert((a + b)[i] == b[i - a.len()]);
        }
    }
}

/// True when the value of every member is made of clean tokens.
pub open spec fn all_clean_values(members: Seq<Member>) -> bool {
    forall|i: int| 0 <= i < members.len() ==> all_clean(#[trigger] members[i].value)
}

/// Members whose values are clean are written as clean tokens, and so is their object.
proof fn lemma_members_are_clean(members: Seq<Member>)
    requires
        all_clean_values(members),
    ensures
        all_clean(members_tokens(members)),
        all_clean(object(members)),
    decreases members.len(),
{
    if members.len() > 0 {
        let rest = members.drop_first();
        assert forall|i: int| 0 <= i < rest.len() implies all_clean(#[trigger] rest[i].value) by {
            assert(rest[i] == members[i + 1]);
        }
        lemma_members_are_clean(rest);
        assert(all_clean(members[0].value));
        lemma_all_clean_concat(seq![TokenView::FieldName(members[0].name)], members[0].value);
        lemma_all_clean_concat(member_tokens(members.first()), members_tokens(rest));
    }
    lemma_all_clean_concat(seq![TokenView::StartObject], members_tokens(members));
    lemma_all_clean_concat(
        seq![TokenView::StartObject] + members_tokens(members),
        seq![TokenView::EndObject],
    );
}

/// The tokens of a request whose numbers are number literals are clean.
proof fn lemma_request_tokens_are_clean(request: RequestView)
    requires
        request.wf(),
    ensures
        all_clean(request_tokens(request)),
{
    let members = request_members(request);
    assert forall|i: int| 0 <= i < members.len() implies all_clean(#[trigger] members[i].value) by {
        match request {
            RequestView::SetSize { size, .. } => {
                lemma_number_is_clean(size.width);
                lemma_number_is_clean(size.height);
                lemma_members_are_clean(size_members(size));
            },
            RequestView::LoadUrl { headers, .. } => {
                if headers is Some {
                    lemma_members_are_clean(header_members(headers->0));
                }
            },
            _ => {},
        }
    }
    lemma_members_are_clean(members);
}

/// The tokens of a message whose numbers are number literals are clean.
proof fn lemma_message_tokens_are_clean(message: MessageView)
    requires
        message.wf(),
    ensures
        all_clean(message_tokens(message)),
{
    match message {
        MessageView::Notification(notification) => {
            lemma_members_are_clean(notification_members(notification));
        },
        MessageView::Response(response) => {
            if let ResponseView::Result { result, .. } = response {
                match result {
                    ResultTypeView::Float(value) => {
                        lemma_number_is_clean(value);
                    },
                    ResultTypeView::Size(size) => {
                        lemma_number_is_clean(size.width);
                        lemma_number_is_clean(size.height);
                        lemma_number_is_clean(size.scale_factor);
                        lemma_members_are_clean(scaled_size_members(size));
                    },
                    _ => {},
                }
                assert(all_clean_values(result_members(result)));
                lemma_members_are_clean(result_members(result));
            }
            assert(all_clean_values(response_members(response)));
            lemma_members_are_clean(response_members(response));
        },
    }
    assert(all_clean_values(message_members(message)));
    lemma_members_are_clean(message_members(message));
}

/// The text of a message holds no control character, whatever its strings hold: no line feed
/// and no NUL stands in it, so the delimiter that is written behind it is the first one that a
/// reader meets.
pub proof fn lemma_message_text_is_clean(message: MessageView)
    requires
        message.wf(),
    ensures
        is_clean(rendered(message_tokens(message))),
        !rendered(message_tokens(message)).contains('\n'),
        !rendered(message_tokens(message)).contains('\0'),
{
    lemma_message_tokens_are_clean(message);
    lemma_written_is_clean(Seq::empty(), message_tokens(message));
}

/// The text of a request holds no control character, whatever its strings hold.
pub proof fn lemma_request_text_is_clean(request: RequestView)
    requires
        request.wf(),
    ensures
        is_clean(rendered(request_tokens(request))),
        !rendered(request_tokens(request)).contains('\n'),
        !rendered(request_tokens(request)).contains('\0'),
{
    lemma_request_tokens_are_clean(request);
    lemma_written_is_clean(Seq::empty(), request_tokens(request));
}

} // verus!
