use webview::decoder::{decode_frames, tokenize, FrameDecoder, FrameError, Status, Tokenizer};
use webview::frame::{append_value, render, should_add_comma, write_token, FrameAssembler};
use webview::token::Token;

fn frames_of(input: &str) -> Vec<String> {
    decode_frames(input.as_bytes()).0
}

#[test]
fn two_objects_without_separator_are_two_frames() {
    let (frames, status) = decode_frames(b"{\"a\":1}{\"b\":2}");
    assert_eq!(frames, vec!["{\"a\":1}".to_string(), "{\"b\":2}".to_string()]);
    assert_eq!(status, Status::Active);
}

#[test]
fn one_byte_at_a_time_gives_the_same_frames() {
    let input = b"{\"a\":1} {\"b\":[1,2.5,true,null,\"x\"],\"c\":{\"d\":\"e\"}}\n[1,2]";
    let (whole, _) = decode_frames(input);
    let mut decoder = FrameDecoder::new();
    let mut pieces = Vec::new();
    for byte in input.iter() {
        pieces.extend(decoder.feed(&[*byte]));
    }
    assert_eq!(whole, pieces);
    assert_eq!(whole.len(), 3);
    assert_eq!(whole[0], "{\"a\":1}");
    assert_eq!(whole[1], "{\"b\":[1,2.5,true,null,\"x\"],\"c\":{\"d\":\"e\"}}");
    assert_eq!(whole[2], "[1,2]");
}

#[test]
fn chunks_of_every_size_give_the_same_frames() {
    let input = b"{\"$type\":\"getVersion\",\"id\":\"1\"}{\"$type\":\"setTitle\",\"id\":\"2\",\"title\":\"X\"}";
    let (whole, _) = decode_frames(input);
    assert_eq!(whole.len(), 2);
    for size in 1..input.len() {
        let mut decoder = FrameDecoder::new();
        let mut pieces = Vec::new();
        for chunk in input.chunks(size) {
            pieces.extend(decoder.feed(chunk));
        }
        assert_eq!(pieces, whole);
        assert_eq!(decoder.status(), Status::Active);
        assert_eq!(decoder.pending(), "");
        assert_eq!(decoder.depth(), 0);
    }
}

#[test]
fn a_frame_is_handed_out_when_its_last_byte_arrives() {
    let mut decoder = FrameDecoder::new();
    assert_eq!(decoder.feed(b"{\"a\":{\"b\":"), Vec::<String>::new());
    assert_eq!(decoder.pending(), "{\"a\":{\"b\":");
    assert_eq!(decoder.depth(), 2);
    assert_eq!(decoder.feed(b"1}"), Vec::<String>::new());
    assert_eq!(decoder.depth(), 1);
    assert_eq!(decoder.feed(b"}"), vec!["{\"a\":{\"b\":1}}".to_string()]);
    assert_eq!(decoder.pending(), "");
    assert_eq!(decoder.depth(), 0);
}

#[test]
fn nested_value_is_one_frame() {
    let input = "{\"a\":{\"b\":[1,2,{\"c\":3}]}}";
    assert_eq!(frames_of(input), vec![input.to_string()]);
    let deeper = "{\"a\":{\"b\":[1,2],\"c\":{\"d\":[{\"e\":null}],\"f\":[[],true,[1],{}]}}}";
    assert_eq!(frames_of(deeper), vec![deeper.to_string()]);
}

#[test]
fn containers_in_an_array_are_separated_by_commas() {
    for input in ["[1,{}]", "[{},{}]", "[[],[]]", "[\"a\",[1],{\"b\":[2,[3]]},null,[]]", "[true,[false]]"] {
        assert_eq!(frames_of(input), vec![input.to_string()], "{}", input);
        let value: Result<serde_json::Value, serde_json::Error> = serde_json::from_str(input);
        assert!(value.is_ok());
    }
    // Two values at the top are two frames, with nothing between them.
    assert_eq!(frames_of("[1][2]{}"), vec!["[1]".to_string(), "[2]".to_string(), "{}".to_string()]);
}

#[test]
fn every_frame_is_the_json_value_that_was_read() {
    let input = "{ \"k\" : [ 1 , { \"a\" : [ ] , \"b\" : { } } , [ [ 2 ] , \"s\" ] ] }\n[ { \"x\" : -1.5 } , { } ]";
    let frames = frames_of(input);
    assert_eq!(frames.len(), 2);
    let mut values = serde_json::Deserializer::from_str(input).into_iter::<serde_json::Value>();
    for frame in frames {
        let read: serde_json::Value = serde_json::from_str(&frame).unwrap();
        assert_eq!(read, values.next().unwrap().unwrap());
        assert!(!frame.contains("{,") && !frame.contains("[,"));
        assert!(!frame.contains(",}") && !frame.contains(",]"));
    }
}

#[test]
fn members_and_elements_are_separated_by_commas() {
    let frames = frames_of(
        "{ \"a\" : [ 1 , 2 , \"x\" , true , false , null ] ,\n \"b\" : { } , \"c\" : [ ] , \"d\" : -7 }",
    );
    assert_eq!(
        frames,
        vec!["{\"a\":[1,2,\"x\",true,false,null],\"b\":{},\"c\":[],\"d\":-7}".to_string()]
    );
}

#[test]
fn empty_input_gives_no_frame() {
    let (frames, status) = decode_frames(b"");
    assert!(frames.is_empty());
    assert_eq!(status, Status::Active);
    let mut decoder = FrameDecoder::new();
    assert!(decoder.feed(b"").is_empty());
    assert!(decoder.feed(b"  \n ").is_empty());
    assert_eq!(decoder.status(), Status::Active);
}

#[test]
fn malformed_token_ends_the_stream() {
    let mut decoder = FrameDecoder::new();
    let frames = decoder.feed(b"{\"a\":1}{\"b\":}{\"c\":3}");
    assert_eq!(frames, vec!["{\"a\":1}".to_string()]);
    assert_eq!(decoder.status(), Status::Failed(FrameError::Syntax));
    assert!(decoder.feed(b"{\"d\":4}").is_empty());
    assert_eq!(decoder.status(), Status::Failed(FrameError::Syntax));
}

#[test]
fn illegal_byte_ends_the_stream() {
    let (frames, status) = decode_frames(b"{\"a\":1}\x01{\"b\":2}");
    assert_eq!(frames, vec!["{\"a\":1}".to_string()]);
    assert_eq!(status, Status::Failed(FrameError::IllegalInput(1)));
}

#[test]
fn integer_that_does_not_fit_ends_the_stream() {
    let (frames, status) = decode_frames(b"{\"a\":99999999999999999999}");
    assert!(frames.is_empty());
    assert_eq!(status, Status::Failed(FrameError::InvalidInteger));
}

#[test]
fn invalid_utf8_in_a_string_ends_the_stream() {
    let (frames, status) = decode_frames(b"{\"a\":\"\xff\"}");
    assert!(frames.is_empty());
    assert_eq!(status, Status::Failed(FrameError::InvalidString));
}

#[test]
fn nesting_deeper_than_the_parser_allows_ends_the_stream() {
    let shallow = "[".repeat(2000) + &"]".repeat(2000);
    let (frames, status) = decode_frames(shallow.as_bytes());
    assert_eq!(frames, vec![shallow.clone()]);
    assert_eq!(status, Status::Active);
    let deep = "[".repeat(3000) + &"]".repeat(3000);
    let (frames, status) = decode_frames(deep.as_bytes());
    assert!(frames.is_empty());
    assert_eq!(status, Status::Failed(FrameError::Syntax));
}

#[test]
fn strings_are_written_as_json_literals() {
    let input = "{\"a\\\"b\":\"x\\\"y\\\\z\\n\\t\\u0001\\u00e9/\"}";
    let frames = frames_of(input);
    assert_eq!(frames, vec!["{\"a\\\"b\":\"x\\\"y\\\\z\\n\\t\\u0001\u{e9}/\"}".to_string()]);
    // What was written is read as the same tokens again.
    let again = frames_of(&frames[0]);
    assert_eq!(again, frames);
}

#[test]
fn numbers_are_written_as_std_prints_them() {
    assert_eq!(
        frames_of("[1.50,1e3,-0.25,0,-12,9223372036854775807,-9223372036854775808]"),
        vec!["[1.5,1000,-0.25,0,-12,9223372036854775807,-9223372036854775808]".to_string()]
    );
}

#[test]
fn top_level_array_is_a_frame() {
    assert_eq!(frames_of("[1,2][]"), vec!["[1,2]".to_string(), "[]".to_string()]);
}

#[test]
fn tokenizer_reports_tokens_in_order() {
    let tokens = tokenize(b"{\"k\":[\"v\",1,2.5,true,false,null]}").unwrap();
    assert_eq!(
        tokens,
        vec![
            Token::StartObject,
            Token::FieldName("k".to_string()),
            Token::StartArray,
            Token::Text("v".to_string()),
            Token::Integer(1),
            Token::Float("2.5".to_string()),
            Token::True,
            Token::False,
            Token::Null,
            Token::EndArray,
            Token::EndObject,
        ]
    );
    assert_eq!(tokenize(b"").unwrap(), Vec::<Token>::new());
    assert_eq!(tokenize(b"{\"a\" 1}"), Err(FrameError::Syntax));
}

#[test]
fn tokenizer_takes_chunks_larger_than_its_queue() {
    let mut text = String::from("[");
    for i in 0..5000 {
        if i > 0 {
            text.push(',');
        }
        text.push_str(&i.to_string());
    }
    text.push(']');
    let mut tokenizer = Tokenizer::new();
    let tokens = tokenizer.feed(text.as_bytes());
    assert_eq!(tokenizer.status(), Status::Active);
    assert_eq!(tokens.len(), 5002);
    assert_eq!(tokens[5000], Token::Integer(4999));
    assert_eq!(frames_of(&text), vec![text.clone()]);
}

#[test]
fn should_add_comma_looks_at_the_last_character() {
    assert!(!should_add_comma("{"));
    assert!(!should_add_comma("["));
    assert!(!should_add_comma("{\"a\":"));
    assert!(should_add_comma("{\"a\":1"));
    assert!(should_add_comma("[\"{\""));
    assert!(should_add_comma("[[]"));
    assert!(should_add_comma(""));
}

#[test]
fn append_value_puts_a_comma_where_one_is_due() {
    let mut text = String::from("[");
    append_value(&mut text, "1");
    assert_eq!(text, "[1");
    append_value(&mut text, "true");
    assert_eq!(text, "[1,true");
    let mut member = String::from("{\"a\":");
    append_value(&mut member, "null");
    assert_eq!(member, "{\"a\":null");
}

#[test]
fn assembler_hands_out_a_frame_when_the_depth_returns_to_zero() {
    let mut assembler = FrameAssembler::new();
    assert_eq!(assembler.depth(), 0);
    assert!(assembler.has_room());
    assert_eq!(assembler.push(&Token::StartObject), None);
    assert_eq!(assembler.push(&Token::FieldName("a".to_string())), None);
    assert_eq!(assembler.push(&Token::StartArray), None);
    assert_eq!(assembler.depth(), 2);
    assert_eq!(assembler.push(&Token::Integer(-5)), None);
    assert_eq!(assembler.push(&Token::Text("s".to_string())), None);
    assert_eq!(assembler.push(&Token::EndArray), None);
    assert_eq!(assembler.pending(), "{\"a\":[-5,\"s\"]");
    assert_eq!(assembler.push(&Token::FieldName("b".to_string())), None);
    assert_eq!(assembler.push(&Token::Float("0.5".to_string())), None);
    assert_eq!(
        assembler.push(&Token::EndObject),
        Some("{\"a\":[-5,\"s\"],\"b\":0.5}".to_string())
    );
    assert_eq!(assembler.depth(), 0);
    assert_eq!(assembler.pending(), "");
}

#[test]
fn assembler_takes_tokens_in_any_grouping() {
    let tokens = vec![
        Token::StartArray,
        Token::True,
        Token::StartObject,
        Token::EndObject,
        Token::EndArray,
        Token::StartObject,
        Token::EndObject,
        Token::StartArray,
        Token::Null,
    ];
    let mut whole = FrameAssembler::new();
    let all = whole.push_all(&tokens);
    assert_eq!(all, vec!["[true,{}]".to_string(), "{}".to_string()]);
    for cut in 0..tokens.len() {
        let mut parts = FrameAssembler::new();
        let mut frames = parts.push_all(&tokens[..cut].to_vec());
        frames.extend(parts.push_all(&tokens[cut..].to_vec()));
        assert_eq!(frames, all);
        assert_eq!(parts.pending(), whole.pending());
        assert_eq!(parts.depth(), whole.depth());
    }
    assert_eq!(whole.pending(), "[null");
}

#[test]
fn render_writes_tokens_with_their_commas() {
    let tokens = vec![
        Token::StartObject,
        Token::FieldName("a".to_string()),
        Token::Integer(1),
        Token::FieldName("b".to_string()),
        Token::False,
        Token::EndObject,
    ];
    assert_eq!(render(&tokens), "{\"a\":1,\"b\":false}");
    let mut text = String::from("[1");
    write_token(&mut text, &Token::Null);
    assert_eq!(text, "[1,null");
    write_token(&mut text, &Token::EndArray);
    assert_eq!(text, "[1,null]");
}
