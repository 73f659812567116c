use webview::bridge::{process_input, process_output};
use webview::control::{
    complete, html_url_for, merge_if_any, resolve_toggle, start_content, Command, ContentSlots,
    ControlLoop, LoopEvent, Navigation, Outcome, Phase, Step, WindowState,
};
use webview::decoder::FrameDecoder;
use webview::headers::merge_headers;
use webview::number::Number;
use webview::protocol::{
    default_origin, default_true, Content, Header, Id, Message, Notification, Request, Response,
    ResultType, Size, SizeWithScale, WindowSize, WindowSizeStates,
};

fn window() -> WindowState {
    WindowState { fullscreen: false, maximized: true, minimized: false }
}

fn running() -> ControlLoop {
    ControlLoop::new("1.2.3".to_string(), true)
}

fn number(text: &str) -> Number {
    Number::parse(text).unwrap()
}

#[test]
fn end_to_end_two_requests_two_responses_in_order() {
    let input = "{\"$type\":\"getVersion\",\"id\":\"1\"}{\"$type\":\"setTitle\",\"id\":\"2\",\"title\":\"X\"}";
    let mut decoder = FrameDecoder::new();
    let inbound = process_input(&mut decoder, input.as_bytes());
    assert!(inbound.rejected.is_empty());
    let control = running();
    let mut slots = ContentSlots::new();
    let mut output = Vec::new();
    let mut titles = Vec::new();
    for request in inbound.requests {
        let response = match control.plan(request, window(), &mut slots) {
            Step::Reply(response) => response,
            Step::Call { id, command } => {
                match command {
                    Command::SetTitle { title } => titles.push(title),
                    other => panic!("Unexpected command: {:?}", other),
                }
                complete(id, Outcome::Done)
            }
        };
        output.extend(process_output(&Message::Response(response)).unwrap());
    }
    assert_eq!(titles, vec!["X".to_string()]);
    assert_eq!(
        String::from_utf8(output).unwrap(),
        "{\"$type\":\"response\",\"data\":{\"$type\":\"result\",\"id\":\"1\",\"result\":{\"$type\":\"string\",\"value\":\"1.2.3\"}}}\n\
         {\"$type\":\"response\",\"data\":{\"$type\":\"ack\",\"id\":\"2\"}}\n"
    );
}

#[test]
fn every_request_is_answered_once_with_its_own_id() {
    let requests = vec![
        Request::GetVersion { id: Id::Integer(1) },
        Request::Eval { id: Id::Integer(2), js: "1".to_string() },
        Request::SetTitle { id: Id::Integer(3), title: "t".to_string() },
        Request::GetTitle { id: Id::Integer(4) },
        Request::SetVisibility { id: Id::Integer(5), visible: false },
        Request::IsVisible { id: Id::Integer(6) },
        Request::OpenDevTools { id: Id::Integer(7) },
        Request::GetSize { id: Id::Integer(8), include_decorations: None },
        Request::SetSize {
            id: Id::Integer(9),
            size: Size { width: number("1"), height: number("2") },
        },
        Request::Fullscreen { id: Id::Integer(10), fullscreen: None },
        Request::Maximize { id: Id::Text("eleven".to_string()), maximized: None },
        Request::Minimize { id: Id::Integer(12), minimized: Some(true) },
        Request::LoadHtml { id: Id::Integer(13), html: "h".to_string(), origin: None },
        Request::LoadUrl { id: Id::Integer(14), url: "u".to_string(), headers: None },
    ];
    let outcomes = [
        Outcome::Done,
        Outcome::Value(ResultType::Boolean(true)),
        Outcome::Failed("it broke".to_string()),
    ];
    for devtools in [true, false] {
        let control = ControlLoop::new("v".to_string(), devtools);
        let mut slots = ContentSlots::new();
        let mut answered = Vec::new();
        for (turn, request) in requests.iter().enumerate() {
            let outcome = outcomes[turn % outcomes.len()].clone();
            let response = match control.plan(request.clone(), window(), &mut slots) {
                Step::Reply(response) => response,
                Step::Call { id, .. } => complete(id, outcome),
            };
            assert_eq!(response.id(), request.id());
            answered.push(response.id().clone());
        }
        assert_eq!(answered.len(), requests.len());
        for (i, id) in answered.iter().enumerate() {
            assert_eq!(answered.iter().filter(|other| *other == id).count(), 1, "{}", i);
        }
    }
}

#[test]
fn outcome_decides_the_kind_of_response() {
    assert_eq!(complete(Id::Integer(1), Outcome::Done), Response::Ack { id: Id::Integer(1) });
    assert_eq!(
        complete(Id::Integer(2), Outcome::Value(ResultType::String("t".to_string()))),
        Response::Result { id: Id::Integer(2), result: ResultType::String("t".to_string()) }
    );
    assert_eq!(
        complete(Id::Text("3".to_string()), Outcome::Failed("bad header".to_string())),
        Response::Error { id: Id::Text("3".to_string()), message: "bad header".to_string() }
    );
}

#[test]
fn requests_become_commands() {
    let control = running();
    let mut slots = ContentSlots::new();
    let id = Id::Integer(1);
    let plan = |request: Request, slots: &mut ContentSlots| control.plan(request, window(), slots);
    assert_eq!(
        plan(Request::GetVersion { id: id.clone() }, &mut slots),
        Step::Reply(Response::Result {
            id: id.clone(),
            result: ResultType::String("1.2.3".to_string())
        })
    );
    assert_eq!(
        plan(Request::Eval { id: id.clone(), js: "x()".to_string() }, &mut slots),
        Step::Call { id: id.clone(), command: Command::Eval { js: "x()".to_string() } }
    );
    assert_eq!(
        plan(Request::GetTitle { id: id.clone() }, &mut slots),
        Step::Call { id: id.clone(), command: Command::GetTitle }
    );
    assert_eq!(
        plan(Request::IsVisible { id: id.clone() }, &mut slots),
        Step::Call { id: id.clone(), command: Command::IsVisible }
    );
    assert_eq!(
        plan(Request::SetVisibility { id: id.clone(), visible: true }, &mut slots),
        Step::Call { id: id.clone(), command: Command::SetVisibility { visible: true } }
    );
    assert_eq!(
        plan(Request::GetSize { id: id.clone(), include_decorations: None }, &mut slots),
        Step::Call { id: id.clone(), command: Command::GetSize { include_decorations: false } }
    );
    assert_eq!(
        plan(Request::GetSize { id: id.clone(), include_decorations: Some(true) }, &mut slots),
        Step::Call { id: id.clone(), command: Command::GetSize { include_decorations: true } }
    );
    assert_eq!(
        plan(Request::OpenDevTools { id: id.clone() }, &mut slots),
        Step::Call { id: id.clone(), command: Command::OpenDevTools }
    );
    let size = Size { width: number("640"), height: number("480") };
    assert_eq!(
        plan(Request::SetSize { id: id.clone(), size: size.clone() }, &mut slots),
        Step::Call { id: id.clone(), command: Command::SetSize { size } }
    );
    let headers = Some(vec![Header { name: "A".to_string(), value: "b".to_string() }]);
    assert_eq!(
        plan(
            Request::LoadUrl { id: id.clone(), url: "u".to_string(), headers: headers.clone() },
            &mut slots
        ),
        Step::Call { id: id.clone(), command: Command::LoadUrl { url: "u".to_string(), headers } }
    );
    assert_eq!(slots, ContentSlots::new());
}

#[test]
fn devtools_that_are_not_built_in_are_refused() {
    let control = ControlLoop::new("v".to_string(), false);
    let mut slots = ContentSlots::new();
    assert_eq!(
        control.plan(Request::OpenDevTools { id: Id::Integer(9) }, window(), &mut slots),
        Step::Reply(Response::Error {
            id: Id::Integer(9),
            message: "DevTools not enabled".to_string()
        })
    );
}

#[test]
fn switches_are_set_or_toggled() {
    assert!(resolve_toggle(Some(true), true));
    assert!(!resolve_toggle(Some(false), true));
    assert!(!resolve_toggle(None, true));
    assert!(resolve_toggle(None, false));
    let control = running();
    let mut slots = ContentSlots::new();
    let id = Id::Integer(1);
    // The window is maximized, not fullscreen and not minimized.
    assert_eq!(
        control.plan(Request::Fullscreen { id: id.clone(), fullscreen: None }, window(), &mut slots),
        Step::Call { id: id.clone(), command: Command::SetFullscreen { fullscreen: true } }
    );
    assert_eq!(
        control.plan(Request::Maximize { id: id.clone(), maximized: None }, window(), &mut slots),
        Step::Call { id: id.clone(), command: Command::SetMaximized { maximized: false } }
    );
    assert_eq!(
        control.plan(Request::Minimize { id: id.clone(), minimized: None }, window(), &mut slots),
        Step::Call { id: id.clone(), command: Command::SetMinimized { minimized: true } }
    );
    assert_eq!(
        control.plan(
            Request::Minimize { id: id.clone(), minimized: Some(false) },
            window(),
            &mut slots
        ),
        Step::Call { id: id.clone(), command: Command::SetMinimized { minimized: false } }
    );
}

#[test]
fn load_html_stores_html_and_origin() {
    let control = running();
    let mut slots = ContentSlots::new();
    assert_eq!(slots.origin, "init");
    assert_eq!(slots.html, "");
    let first = control.plan(
        Request::LoadHtml { id: Id::Integer(5), html: "<b>1</b>".to_string(), origin: None },
        window(),
        &mut slots,
    );
    assert_eq!(
        first,
        Step::Call {
            id: Id::Integer(5),
            command: Command::LoadUrl { url: "load-html://init?5".to_string(), headers: None }
        }
    );
    assert_eq!(slots.html, "<b>1</b>");
    assert_eq!(slots.origin, "init");
    let second = control.plan(
        Request::LoadHtml {
            id: Id::Text("six".to_string()),
            html: "<b>2</b>".to_string(),
            origin: Some("example.com".to_string()),
        },
        window(),
        &mut slots,
    );
    assert_eq!(
        second,
        Step::Call {
            id: Id::Text("six".to_string()),
            command: Command::LoadUrl {
                url: "load-html://example.com?six".to_string(),
                headers: None
            }
        }
    );
    assert_eq!(slots.html, "<b>2</b>");
    assert_eq!(slots.origin, "example.com");
    // The origin that was set stays for the next request that names none.
    let third = control.plan(
        Request::LoadHtml { id: Id::Integer(-7), html: String::new(), origin: None },
        window(),
        &mut slots,
    );
    assert_eq!(
        third,
        Step::Call {
            id: Id::Integer(-7),
            command: Command::LoadUrl {
                url: "load-html://example.com?-7".to_string(),
                headers: None
            }
        }
    );
    assert_eq!(slots.html, "");
}

fn header(name: &str, value: &str) -> Header {
    Header { name: name.to_string(), value: value.to_string() }
}

#[test]
fn header_given_twice_counts_with_its_last_value() {
    assert_eq!(merge_headers(Vec::new()), Vec::new());
    assert_eq!(
        merge_headers(vec![header("A", "1"), header("B", "2")]),
        vec![header("A", "1"), header("B", "2")]
    );
    assert_eq!(
        merge_headers(vec![
            header("A", "1"),
            header("B", "2"),
            header("A", "3"),
            header("a", "4"),
            header("B", "5"),
            header("A", "6"),
        ]),
        vec![header("A", "6"), header("B", "5"), header("a", "4")]
    );
    assert_eq!(merge_if_any(None), None);
    assert_eq!(
        merge_if_any(Some(vec![header("X", "1"), header("X", "2")])),
        Some(vec![header("X", "2")])
    );
    let control = running();
    let mut slots = ContentSlots::new();
    assert_eq!(
        control.plan(
            Request::LoadUrl {
                id: Id::Integer(1),
                url: "u".to_string(),
                headers: Some(vec![header("A", "1"), header("A", "2")]),
            },
            window(),
            &mut slots
        ),
        Step::Call {
            id: Id::Integer(1),
            command: Command::LoadUrl {
                url: "u".to_string(),
                headers: Some(vec![header("A", "2")])
            }
        }
    );
    assert_eq!(
        start_content(
            Some(Content::Url {
                url: "u".to_string(),
                headers: Some(vec![header("A", "1"), header("B", "2"), header("A", "3")]),
            }),
            &mut slots
        ),
        Some(Navigation {
            url: "u".to_string(),
            headers: Some(vec![header("A", "3"), header("B", "2")])
        })
    );
}

#[test]
fn html_url_names_origin_and_id() {
    assert_eq!(html_url_for("init", &Id::Integer(0)), "load-html://init?0");
    assert_eq!(html_url_for("", &Id::Text("a b".to_string())), "load-html://?a b");
    assert_eq!(
        html_url_for("o", &Id::Integer(i64::MIN)),
        "load-html://o?-9223372036854775808"
    );
}

#[test]
fn content_decides_the_first_navigation() {
    let mut slots = ContentSlots::new();
    assert_eq!(start_content(None, &mut slots), None);
    assert_eq!(slots, ContentSlots::new());
    let headers = Some(vec![Header { name: "A".to_string(), value: "b".to_string() }]);
    assert_eq!(
        start_content(
            Some(Content::Url { url: "https://x".to_string(), headers: headers.clone() }),
            &mut slots
        ),
        Some(Navigation { url: "https://x".to_string(), headers })
    );
    assert_eq!(slots, ContentSlots::new());
    assert_eq!(
        start_content(
            Some(Content::Html { html: "<p>".to_string(), origin: "app".to_string() }),
            &mut slots
        ),
        Some(Navigation { url: "load-html://app".to_string(), headers: None })
    );
    assert_eq!(slots, ContentSlots { html: "<p>".to_string(), origin: "app".to_string() });
}

#[test]
fn loop_notifies_of_start_and_close() {
    let mut control = running();
    assert_eq!(control.phase(), Phase::Running);
    assert_eq!(
        control.on_event(LoopEvent::Init),
        Some(Notification::Started { version: "1.2.3".to_string() })
    );
    assert_eq!(control.on_event(LoopEvent::Other), None);
    assert_eq!(control.phase(), Phase::Running);
    assert_eq!(control.on_event(LoopEvent::CloseRequested), Some(Notification::Closed));
    assert_eq!(control.phase(), Phase::Exiting);
    // A loop that is ending notifies of nothing more.
    assert_eq!(control.on_event(LoopEvent::CloseRequested), None);
    assert_eq!(control.on_event(LoopEvent::Init), None);
    assert_eq!(control.phase(), Phase::Exiting);
}

#[test]
fn defaults_are_true_and_init() {
    assert!(default_true());
    assert_eq!(default_origin(), "init");
}

#[test]
fn results_are_made_from_strings_and_booleans() {
    assert_eq!(ResultType::from("t".to_string()), ResultType::String("t".to_string()));
    assert_eq!(ResultType::from(false), ResultType::Boolean(false));
    let title: ResultType = "x".to_string().into();
    assert_eq!(title, ResultType::String("x".to_string()));
}

#[test]
fn window_sizes_are_states_or_sizes() {
    let states = [WindowSizeStates::Maximized, WindowSizeStates::Fullscreen];
    assert_ne!(WindowSize::States(states[0]), WindowSize::States(states[1]));
    let size = WindowSize::Size(Size { width: number("1"), height: number("2") });
    assert_ne!(size, WindowSize::States(WindowSizeStates::Maximized));
    let scaled = SizeWithScale {
        width: number("1"),
        height: number("2"),
        scale_factor: number("1.5"),
    };
    assert_eq!(scaled.scale_factor.text, "1.5");
}
