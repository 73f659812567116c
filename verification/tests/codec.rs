use webview::bridge::{
    decode, frame_message, process_and_forward_json, process_delimited_input, process_input,
    process_output, Rejected,
};
use webview::decode::{decode_tokens, DecodeError};
use webview::decoder::{FrameDecoder, FrameError, Status};
use webview::delimit::{DelimitedReader, Delimiter};
use webview::encode::{encode, encode_request, EncodeError};
use webview::names::Operation;
use webview::number::Number;
use webview::protocol::{
    Header, Id, Message, Notification, Request, Response, ResultType, Size, SizeWithScale,
};
use webview::token::Token;

fn number(text: &str) -> Number {
    Number::parse(text).unwrap()
}

fn text_of(request: &Request) -> String {
    encode_request(request).unwrap()
}

fn every_request() -> Vec<Request> {
    let ids = vec![Id::Integer(0), Id::Integer(-42), Id::Text("a\"b".to_string())];
    let mut all = Vec::new();
    for id in ids {
        all.push(Request::GetVersion { id: id.clone() });
        all.push(Request::Eval { id: id.clone(), js: "alert(\"hi\\n\")\n".to_string() });
        all.push(Request::SetTitle { id: id.clone(), title: "Titel \u{e9}\u{1f600}".to_string() });
        all.push(Request::GetTitle { id: id.clone() });
        all.push(Request::SetVisibility { id: id.clone(), visible: true });
        all.push(Request::SetVisibility { id: id.clone(), visible: false });
        all.push(Request::IsVisible { id: id.clone() });
        all.push(Request::OpenDevTools { id: id.clone() });
        all.push(Request::GetSize { id: id.clone(), include_decorations: None });
        all.push(Request::GetSize { id: id.clone(), include_decorations: Some(true) });
        all.push(Request::SetSize {
            id: id.clone(),
            size: Size { width: number("800"), height: number("600.5") },
        });
        all.push(Request::Fullscreen { id: id.clone(), fullscreen: None });
        all.push(Request::Fullscreen { id: id.clone(), fullscreen: Some(false) });
        all.push(Request::Maximize { id: id.clone(), maximized: None });
        all.push(Request::Maximize { id: id.clone(), maximized: Some(true) });
        all.push(Request::Minimize { id: id.clone(), minimized: None });
        all.push(Request::Minimize { id: id.clone(), minimized: Some(true) });
        all.push(Request::LoadHtml {
            id: id.clone(),
            html: "<p class=\"x\">\t</p>".to_string(),
            origin: None,
        });
        all.push(Request::LoadHtml {
            id: id.clone(),
            html: String::new(),
            origin: Some("example.com".to_string()),
        });
        all.push(Request::LoadUrl {
            id: id.clone(),
            url: "https://example.com".to_string(),
            headers: None,
        });
        all.push(Request::LoadUrl {
            id: id.clone(),
            url: "https://example.com".to_string(),
            headers: Some(Vec::new()),
        });
        all.push(Request::LoadUrl {
            id: id.clone(),
            url: "https://example.com".to_string(),
            headers: Some(vec![
                Header { name: "User-Agent".to_string(), value: "test-agent".to_string() },
                Header { name: "Accept".to_string(), value: "text/html".to_string() },
            ]),
        });
    }
    all
}

#[test]
fn every_request_is_read_back_as_it_was_written() {
    for request in every_request() {
        let text = text_of(&request);
        assert_eq!(decode(text.as_bytes()), Ok(request.clone()), "{}", text);
        // The text is one frame for the frame decoder, and that frame is the text.
        let mut decoder = FrameDecoder::new();
        let inbound = process_input(&mut decoder, text.as_bytes());
        assert_eq!(inbound.requests, vec![request]);
        assert!(inbound.rejected.is_empty());
    }
}

#[test]
fn requests_are_written_with_tag_id_and_members() {
    assert_eq!(
        text_of(&Request::GetVersion { id: Id::Integer(0) }),
        "{\"$type\":\"getVersion\",\"id\":0}"
    );
    assert_eq!(
        text_of(&Request::SetTitle { id: Id::Text("2".to_string()), title: "X".to_string() }),
        "{\"$type\":\"setTitle\",\"id\":\"2\",\"title\":\"X\"}"
    );
    assert_eq!(
        text_of(&Request::GetSize { id: Id::Integer(7), include_decorations: None }),
        "{\"$type\":\"getSize\",\"id\":7,\"includeDecorations\":null}"
    );
    assert_eq!(
        text_of(&Request::SetSize {
            id: Id::Integer(1),
            size: Size { width: number("800"), height: number("600") },
        }),
        "{\"$type\":\"setSize\",\"id\":1,\"size\":{\"width\":800,\"height\":600}}"
    );
    assert_eq!(
        text_of(&Request::LoadUrl {
            id: Id::Integer(3),
            url: "u".to_string(),
            headers: Some(vec![Header { name: "A".to_string(), value: "b".to_string() }]),
        }),
        "{\"$type\":\"loadUrl\",\"id\":3,\"url\":\"u\",\"headers\":{\"A\":\"b\"}}"
    );
}

#[test]
fn test_process_input_simple() {
    let request = Request::GetVersion { id: Id::Integer(0) };
    let json = text_of(&request).into_bytes();
    let mut decoder = FrameDecoder::new();
    let inbound = process_input(&mut decoder, &json);
    assert!(matches!(
        inbound.requests.as_slice(),
        [Request::GetVersion { id: Id::Integer(0) }]
    ));
}

#[test]
fn test_process_input_complex() {
    let json = b"{\"$type\":\"setSize\",\"id\":0,\"size\":{\"width\":800.0,\"height\":600.0}}".to_vec();
    let mut decoder = FrameDecoder::new();
    let inbound = process_input(&mut decoder, &json);
    assert_eq!(inbound.requests.len(), 1);
    match &inbound.requests[0] {
        Request::SetSize { id, size } => {
            assert_eq!(*id, Id::Integer(0));
            assert_eq!(size.width.text.parse::<f64>().unwrap(), 800.0);
            assert_eq!(size.height.text.parse::<f64>().unwrap(), 600.0);
        }
        other => panic!("Unexpected request type: {:?}", other),
    }
}

#[test]
fn test_process_input_multiple() {
    let requests = vec![
        Request::GetVersion { id: Id::Integer(0) },
        Request::SetSize {
            id: Id::Integer(0),
            size: Size { width: number("1024"), height: number("768") },
        },
        Request::LoadUrl {
            id: Id::Integer(0),
            url: "https://example.com".to_string(),
            headers: Some(vec![
                Header { name: "User-Agent".to_string(), value: "test-agent".to_string() },
                Header { name: "Accept".to_string(), value: "text/html".to_string() },
            ]),
        },
    ];
    let mut json = Vec::new();
    json.extend(text_of(&requests[0]).into_bytes());
    json.extend(b"{\"$type\":\"setSize\",\"id\":0,\"size\":{\"width\":1024.0,\"height\":768.0}}".to_vec());
    json.extend(text_of(&requests[2]).into_bytes());
    let mut decoder = FrameDecoder::new();
    let inbound = process_input(&mut decoder, &json);
    assert_eq!(inbound.requests.len(), requests.len());
    for (received, expected) in inbound.requests.iter().zip(requests.iter()) {
        match (received, expected) {
            (Request::GetVersion { id: rid }, Request::GetVersion { id: eid }) => {
                assert_eq!(rid, eid);
            }
            (
                Request::SetSize { id: rid, size: rsize },
                Request::SetSize { id: eid, size: esize },
            ) => {
                assert_eq!(rid, eid);
                assert_eq!(rsize.width, esize.width);
                assert_eq!(rsize.height, esize.height);
            }
            (
                Request::LoadUrl { id: rid, url: rurl, headers: rheaders },
                Request::LoadUrl { id: eid, url: eurl, headers: eheaders },
            ) => {
                assert_eq!(rid, eid);
                assert_eq!(rurl, eurl);
                assert_eq!(rheaders, eheaders);
            }
            _ => panic!("Unexpected request type mismatch"),
        }
    }
    assert!(inbound.rejected.is_empty(), "Should not have any more messages");
    assert!(process_input(&mut decoder, b"").requests.is_empty());
}

#[test]
fn test_process_output() {
    let message = Message::Response(Response::Ack { id: Id::Integer(0) });
    let output = process_output(&message).unwrap();
    let output_str = String::from_utf8(output).unwrap();
    let expected_str = "{\"$type\":\"response\",\"data\":{\"$type\":\"ack\",\"id\":0}}\n";
    assert_eq!(output_str, expected_str);
}

#[test]
fn test_process_output_multiple() {
    let messages = vec![
        Message::Response(Response::Ack { id: Id::Integer(0) }),
        Message::Notification(Notification::Started { version: "1.0.0".to_string() }),
        Message::Response(Response::Result {
            id: Id::Integer(0),
            result: ResultType::Size(SizeWithScale {
                width: number("800"),
                height: number("600"),
                scale_factor: number("1"),
            }),
        }),
    ];
    let mut output = Vec::new();
    for message in &messages {
        output.extend(process_output(message).unwrap());
    }
    let output_str = String::from_utf8(output).unwrap();
    let lines: Vec<&str> = output_str.lines().collect();
    assert_eq!(lines.len(), messages.len());
    assert_eq!(lines[0], "{\"$type\":\"response\",\"data\":{\"$type\":\"ack\",\"id\":0}}");
    assert_eq!(
        lines[1],
        "{\"$type\":\"notification\",\"data\":{\"$type\":\"started\",\"version\":\"1.0.0\"}}"
    );
    assert_eq!(
        lines[2],
        "{\"$type\":\"response\",\"data\":{\"$type\":\"result\",\"id\":0,\"result\":{\"$type\":\"size\",\"value\":{\"width\":800,\"height\":600,\"scaleFactor\":1}}}}"
    );
    // Each line is valid JSON with the members it was written with.
    for line in lines {
        let value: serde_json::Value = serde_json::from_str(line).unwrap();
        assert!(value.get("$type").is_some());
        assert!(value.get("data").is_some());
    }
    let size: serde_json::Value = serde_json::from_str(output_str.lines().nth(2).unwrap()).unwrap();
    let scaled = &size["data"]["result"]["value"];
    assert_eq!(scaled["width"].as_f64(), Some(800.0));
    assert_eq!(scaled["height"].as_f64(), Some(600.0));
    assert_eq!(scaled["scaleFactor"].as_f64(), Some(1.0));
}

#[test]
fn every_message_is_written_as_its_kind_says() {
    let cases = vec![
        (
            Message::Notification(Notification::Closed),
            "{\"$type\":\"notification\",\"data\":{\"$type\":\"closed\"}}",
        ),
        (
            Message::Notification(Notification::Ipc { message: "a\nb".to_string() }),
            "{\"$type\":\"notification\",\"data\":{\"$type\":\"ipc\",\"message\":\"a\\nb\"}}",
        ),
        (
            Message::Response(Response::Error {
                id: Id::Text("x".to_string()),
                message: "no \"way\"".to_string(),
            }),
            "{\"$type\":\"response\",\"data\":{\"$type\":\"err\",\"id\":\"x\",\"message\":\"no \\\"way\\\"\"}}",
        ),
        (
            Message::Response(Response::Result {
                id: Id::Text("1".to_string()),
                result: ResultType::String("0.1.0".to_string()),
            }),
            "{\"$type\":\"response\",\"data\":{\"$type\":\"result\",\"id\":\"1\",\"result\":{\"$type\":\"string\",\"value\":\"0.1.0\"}}}",
        ),
        (
            Message::Response(Response::Result {
                id: Id::Integer(5),
                result: ResultType::Boolean(true),
            }),
            "{\"$type\":\"response\",\"data\":{\"$type\":\"result\",\"id\":5,\"result\":{\"$type\":\"boolean\",\"value\":true}}}",
        ),
        (
            Message::Response(Response::Result {
                id: Id::Integer(5),
                result: ResultType::Float(number("-1.25")),
            }),
            "{\"$type\":\"response\",\"data\":{\"$type\":\"result\",\"id\":5,\"result\":{\"$type\":\"float\",\"value\":-1.25}}}",
        ),
    ];
    for (message, expected) in cases {
        assert_eq!(encode(&message).unwrap(), expected);
        let value: Result<serde_json::Value, serde_json::Error> = serde_json::from_str(expected);
        assert!(value.is_ok());
    }
}

#[test]
fn message_with_a_number_that_is_none_is_not_written() {
    let nan = Message::Response(Response::Result {
        id: Id::Integer(1),
        result: ResultType::Float(Number { text: "NaN".to_string() }),
    });
    assert_eq!(encode(&nan), Err(EncodeError::NotANumber));
    assert_eq!(process_output(&nan), Err(EncodeError::NotANumber));
    let infinite = Message::Response(Response::Result {
        id: Id::Integer(1),
        result: ResultType::Size(SizeWithScale {
            width: number("1"),
            height: Number { text: "inf".to_string() },
            scale_factor: number("1"),
        }),
    });
    assert_eq!(frame_message(&infinite, Delimiter::Null), Err(EncodeError::NotANumber));
    let request = Request::SetSize {
        id: Id::Integer(1),
        size: Size { width: Number { text: String::new() }, height: number("1") },
    };
    assert_eq!(encode_request(&request), Err(EncodeError::NotANumber));
}

#[test]
fn message_can_be_ended_by_a_nul_byte() {
    let message = Message::Notification(Notification::Closed);
    let bytes = frame_message(&message, Delimiter::Null).unwrap();
    assert_eq!(bytes, b"{\"$type\":\"notification\",\"data\":{\"$type\":\"closed\"}}\0".to_vec());
}

#[test]
fn members_may_come_in_any_order_and_unknown_ones_are_passed_over() {
    let text = "{\"extra\":[1,[2,3],{\"id\":9}],\"title\":\"T\",\"id\":\"7\",\"more\":{\"$type\":\"eval\"},\"$type\":\"setTitle\"}";
    assert_eq!(
        decode(text.as_bytes()),
        Ok(Request::SetTitle { id: Id::Text("7".to_string()), title: "T".to_string() })
    );
}

#[test]
fn optional_members_may_be_left_out() {
    assert_eq!(
        decode(b"{\"$type\":\"fullscreen\",\"id\":1}"),
        Ok(Request::Fullscreen { id: Id::Integer(1), fullscreen: None })
    );
    assert_eq!(
        decode(b"{\"$type\":\"loadUrl\",\"id\":1,\"url\":\"u\"}"),
        Ok(Request::LoadUrl { id: Id::Integer(1), url: "u".to_string(), headers: None })
    );
    assert_eq!(
        decode(b"{\"$type\":\"loadHtml\",\"id\":1,\"html\":\"h\"}"),
        Ok(Request::LoadHtml { id: Id::Integer(1), html: "h".to_string(), origin: None })
    );
    assert_eq!(
        decode(b"{\"$type\":\"setSize\",\"id\":1,\"size\":{\"height\":2.5,\"width\":3}}"),
        Ok(Request::SetSize {
            id: Id::Integer(1),
            size: Size { width: number("3"), height: number("2.5") },
        })
    );
}

#[test]
fn each_decode_error_has_its_frames() {
    assert_eq!(decode(b""), Err(DecodeError::NotAnObject));
    assert_eq!(decode(b"[1,2]"), Err(DecodeError::NotAnObject));
    assert_eq!(decode(b"{\"id\":1}{\"id\":2}"), Err(DecodeError::NotAnObject));
    assert_eq!(decode(b"{\"id\":1"), Err(DecodeError::NotAnObject));
    assert_eq!(decode(b"{\"id\":1}"), Err(DecodeError::MissingType));
    assert_eq!(decode(b"{\"$type\":\"reboot\",\"id\":1}"), Err(DecodeError::UnknownType));
    assert_eq!(decode(b"{\"$type\":\"eval\",\"id\":1}"), Err(DecodeError::MissingField));
    assert_eq!(decode(b"{\"$type\":\"getTitle\"}"), Err(DecodeError::MissingField));
    assert_eq!(decode(b"{\"$type\":\"eval\",\"id\":1,\"js\":5}"), Err(DecodeError::InvalidField));
    assert_eq!(decode(b"{\"$type\":5,\"id\":1}"), Err(DecodeError::InvalidField));
    assert_eq!(decode(b"{\"$type\":\"getTitle\",\"id\":true}"), Err(DecodeError::InvalidField));
    assert_eq!(
        decode(b"{\"$type\":\"getTitle\",\"id\":1,\"id\":2}"),
        Err(DecodeError::InvalidField)
    );
    assert_eq!(
        decode(b"{\"$type\":\"setVisibility\",\"id\":1,\"visible\":null}"),
        Err(DecodeError::InvalidField)
    );
    assert_eq!(
        decode(b"{\"$type\":\"setSize\",\"id\":1,\"size\":{\"width\":1}}"),
        Err(DecodeError::InvalidField)
    );
    assert_eq!(
        decode(b"{\"$type\":\"setSize\",\"id\":1,\"size\":{\"width\":1,\"height\":1e999}}"),
        Err(DecodeError::InvalidField)
    );
    assert_eq!(
        decode(b"{\"$type\":\"loadUrl\",\"id\":1,\"url\":\"u\",\"headers\":{\"a\":1}}"),
        Err(DecodeError::InvalidField)
    );
    assert_eq!(
        decode(b"{\"$type\":\"getTitle\",\"id\":}"),
        Err(DecodeError::Malformed(FrameError::Syntax))
    );
}

#[test]
fn tokens_are_read_without_a_parser() {
    let tokens = vec![
        Token::StartObject,
        Token::FieldName("id".to_string()),
        Token::Integer(3),
        Token::FieldName("$type".to_string()),
        Token::Text("minimize".to_string()),
        Token::FieldName("minimized".to_string()),
        Token::True,
        Token::EndObject,
    ];
    assert_eq!(
        decode_tokens(&tokens),
        Ok(Request::Minimize { id: Id::Integer(3), minimized: Some(true) })
    );
    assert_eq!(decode_tokens(&tokens[..7]), Err(DecodeError::NotAnObject));
    assert_eq!(decode_tokens(&[]), Err(DecodeError::NotAnObject));
}

#[test]
fn operations_are_named_by_their_tags() {
    let all = [
        (Operation::GetVersion, "getVersion"),
        (Operation::Eval, "eval"),
        (Operation::SetTitle, "setTitle"),
        (Operation::GetTitle, "getTitle"),
        (Operation::SetVisibility, "setVisibility"),
        (Operation::IsVisible, "isVisible"),
        (Operation::OpenDevTools, "openDevTools"),
        (Operation::GetSize, "getSize"),
        (Operation::SetSize, "setSize"),
        (Operation::Fullscreen, "fullscreen"),
        (Operation::Maximize, "maximize"),
        (Operation::Minimize, "minimize"),
        (Operation::LoadHtml, "loadHtml"),
        (Operation::LoadUrl, "loadUrl"),
    ];
    for (operation, tag) in all {
        assert_eq!(operation.as_str(), tag);
        assert_eq!(Operation::parse(tag), Some(operation));
    }
    assert_eq!(Operation::parse("GetVersion"), None);
    assert_eq!(Operation::parse(""), None);
}

#[test]
fn frame_that_is_no_request_is_reported_and_passed_over() {
    let stream = b"{\"$type\":\"getTitle\",\"id\":1}{\"$type\":\"unknown\",\"id\":2}{\"$type\":\"isVisible\",\"id\":3}";
    let mut decoder = FrameDecoder::new();
    let inbound = process_input(&mut decoder, stream);
    assert_eq!(
        inbound.requests,
        vec![
            Request::GetTitle { id: Id::Integer(1) },
            Request::IsVisible { id: Id::Integer(3) },
        ]
    );
    assert_eq!(inbound.rejected.len(), 1);
    assert_eq!(inbound.rejected[0].error, DecodeError::UnknownType);
    assert_eq!(inbound.rejected[0].frame, b"{\"$type\":\"unknown\",\"id\":2}".to_vec());
    assert_eq!(decoder.status(), Status::Active);
    // The stream goes on behind the frame that was passed over.
    let more = process_input(&mut decoder, b"{\"$type\":\"getVersion\",\"id\":4}");
    assert_eq!(more.requests, vec![Request::GetVersion { id: Id::Integer(4) }]);
}

#[test]
fn relay_passes_every_frame_on_as_one_line() {
    let mut decoder = FrameDecoder::new();
    let first = process_and_forward_json(&mut decoder, b"{\"a\": 1}\n\n{\"b\":\n[true, \"x\"]} {\"c\"");
    assert_eq!(first, vec![b"{\"a\":1}\n".to_vec(), b"{\"b\":[true,\"x\"]}\n".to_vec()]);
    let second = process_and_forward_json(&mut decoder, b":null}");
    assert_eq!(second, vec![b"{\"c\":null}\n".to_vec()]);
    assert!(process_and_forward_json(&mut decoder, b"").is_empty());
    assert!(process_and_forward_json(&mut decoder, b"}").is_empty());
    assert_eq!(decoder.status(), Status::Failed(FrameError::Syntax));
    assert!(process_and_forward_json(&mut decoder, b"{\"d\":1}").is_empty());
}

#[test]
fn frames_ended_by_a_nul_byte_are_decoded_one_by_one() {
    let mut reader = DelimitedReader::new(Delimiter::Null);
    let first = process_delimited_input(&mut reader, b"{\"$type\":\"getTitle\",\n\"id\":1}\0{\"$ty");
    assert_eq!(first.requests, vec![Request::GetTitle { id: Id::Integer(1) }]);
    assert!(first.rejected.is_empty());
    assert_eq!(reader.partial(), &b"{\"$ty".to_vec());
    let second = process_delimited_input(
        &mut reader,
        b"pe\":\"eval\",\"id\":2}\0\0not json\0{\"$type\":\"isVisible\",\"id\":\"3\"}\0",
    );
    assert_eq!(second.requests, vec![Request::IsVisible { id: Id::Text("3".to_string()) }]);
    assert_eq!(
        second.rejected,
        vec![
            Rejected {
                frame: b"{\"$type\":\"eval\",\"id\":2}".to_vec(),
                error: DecodeError::MissingField
            },
            Rejected { frame: Vec::new(), error: DecodeError::NotAnObject },
            Rejected {
                frame: b"not json".to_vec(),
                error: DecodeError::Malformed(FrameError::Syntax)
            },
        ]
    );
    assert!(reader.partial().is_empty());
}

#[test]
fn request_with_an_unknown_member_that_holds_containers_is_accepted() {
    let mut decoder = FrameDecoder::new();
    let inbound = process_input(
        &mut decoder,
        b"{\"$type\":\"getTitle\",\"id\":1,\"x\":[1,{\"a\":2}]}{\"$type\":\"getTitle\",\"id\":2}",
    );
    assert_eq!(
        inbound.requests,
        vec![Request::GetTitle { id: Id::Integer(1) }, Request::GetTitle { id: Id::Integer(2) }]
    );
    assert!(inbound.rejected.is_empty());
}

#[test]
fn relay_passes_a_nested_frame_on_as_it_was_read() {
    let input = b"{\"a\":{\"b\":[1,2,{\"c\":3}]}}";
    let mut whole = FrameDecoder::new();
    assert_eq!(
        process_and_forward_json(&mut whole, input),
        vec![b"{\"a\":{\"b\":[1,2,{\"c\":3}]}}\n".to_vec()]
    );
    // The frame is passed on by the call that is given its last byte, however the bytes are cut.
    let mut pieces = FrameDecoder::new();
    let mut forwarded = Vec::new();
    for (i, byte) in input.iter().enumerate() {
        let lines = process_and_forward_json(&mut pieces, &[*byte]);
        assert_eq!(lines.is_empty(), i + 1 < input.len());
        forwarded.extend(lines);
    }
    assert_eq!(forwarded, vec![b"{\"a\":{\"b\":[1,2,{\"c\":3}]}}\n".to_vec()]);
}

#[test]
fn requests_are_the_same_however_the_bytes_are_cut() {
    let mut stream = Vec::new();
    for request in every_request() {
        stream.extend(text_of(&request).into_bytes());
    }
    let mut whole = FrameDecoder::new();
    let all = process_input(&mut whole, &stream);
    assert_eq!(all.requests, every_request());
    let mut pieces = FrameDecoder::new();
    let mut requests = Vec::new();
    for byte in stream.iter() {
        requests.extend(process_input(&mut pieces, &[*byte]).requests);
    }
    assert_eq!(requests, all.requests);
}

#[test]
fn numbers_with_a_fraction_are_read_as_sizes() {
    let text = b"{\"$type\":\"setSize\",\"id\":0,\"size\":{\"width\":800.0,\"height\":600.5}}";
    let mut decoder = FrameDecoder::new();
    let inbound = process_input(&mut decoder, text);
    match inbound.requests.as_slice() {
        [Request::SetSize { id, size }] => {
            assert_eq!(*id, Id::Integer(0));
            assert_eq!(size.width.text.parse::<f64>().unwrap(), 800.0);
            assert_eq!(size.height.text.parse::<f64>().unwrap(), 600.5);
            assert_eq!(size.width, number("800"));
            assert_eq!(size.height, number("600.5"));
        }
        other => panic!("Unexpected requests: {:?}", other),
    }
}
