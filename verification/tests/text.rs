use webview::delimit::{terminate, DelimitedReader, Delimiter};
use webview::names::Key;
use webview::number::{is_number_text, Number};
use webview::text::{push_decimal, push_escaped, push_escaped_char, push_quoted};
use webview::wire::{find_value_end, locate, read_object, value_at, Place};
use webview::token::Token;

fn decimal(value: i64) -> String {
    let mut out = String::new();
    push_decimal(&mut out, value);
    out
}

fn quoted(text: &str) -> String {
    let mut out = String::new();
    push_quoted(&mut out, text);
    out
}

#[test]
fn integers_are_written_in_decimal() {
    assert_eq!(decimal(0), "0");
    assert_eq!(decimal(7), "7");
    assert_eq!(decimal(10), "10");
    assert_eq!(decimal(-1), "-1");
    assert_eq!(decimal(1234567890), "1234567890");
    assert_eq!(decimal(i64::MAX), "9223372036854775807");
    assert_eq!(decimal(i64::MIN), "-9223372036854775808");
    let mut out = String::from("x=");
    push_decimal(&mut out, -305);
    assert_eq!(out, "x=-305");
    for value in [-1000i64, -99, -10, -9, 9, 99, 100, 101, 65535, 1 << 40] {
        assert_eq!(decimal(value), value.to_string());
    }
}

#[test]
fn strings_are_quoted_and_escaped() {
    assert_eq!(quoted(""), "\"\"");
    assert_eq!(quoted("abc"), "\"abc\"");
    assert_eq!(quoted("a\"b"), "\"a\\\"b\"");
    assert_eq!(quoted("a\\b"), "\"a\\\\b\"");
    assert_eq!(quoted("\n\r\t\u{8}\u{c}"), "\"\\n\\r\\t\\b\\f\"");
    assert_eq!(quoted("\u{0}\u{1}\u{1f}\u{1b}"), "\"\\u0000\\u0001\\u001f\\u001b\"");
    assert_eq!(quoted("/\u{7f}\u{e9}\u{1f600}"), "\"/\u{7f}\u{e9}\u{1f600}\"");
    let mut out = String::from("k:");
    push_escaped(&mut out, "x\ty");
    assert_eq!(out, "k:x\\ty");
    push_escaped_char(&mut out, '"');
    assert_eq!(out, "k:x\\ty\\\"");
    // What is written is what a JSON reader reads back.
    for text in ["", "plain", "q\"b\\s", "\u{0}\u{1f}\n", "\u{e9}\u{1f600}"] {
        let read: String = serde_json::from_str(&quoted(text)).unwrap();
        assert_eq!(read, text);
    }
}

#[test]
fn number_literals_are_told_from_other_text() {
    for text in ["0", "-0", "7", "10", "-12", "0.5", "-0.25", "1e3", "1E+3", "2.50e-10", "800"] {
        assert!(is_number_text(text), "{}", text);
        assert_eq!(Number::parse(text), Some(Number { text: text.to_string() }));
        assert!(Number { text: text.to_string() }.is_valid());
    }
    for text in [
        "", "-", "+1", "01", "-01", "1.", ".5", "1e", "1e+", "1.e3", "NaN", "inf", "-inf", "1 ",
        " 1", "0x10", "1,5", "--1", "1e3.5",
    ] {
        assert!(!is_number_text(text), "{}", text);
        assert_eq!(Number::parse(text), None);
        assert!(!Number { text: text.to_string() }.is_valid());
    }
    assert_eq!(Number::from_integer(-15).text, "-15");
    assert_eq!(Number::from_integer(0).text, "0");
    assert!(Number::from_integer(i64::MIN).is_valid());
}

#[test]
fn keys_are_written_in_camel_case() {
    assert_eq!(Key::Type.as_str(), "$type");
    assert_eq!(Key::IncludeDecorations.as_str(), "includeDecorations");
    assert_eq!(Key::ScaleFactor.as_str(), "scaleFactor");
    let all = [
        Key::Type,
        Key::Data,
        Key::Id,
        Key::Js,
        Key::Title,
        Key::Visible,
        Key::IncludeDecorations,
        Key::Size,
        Key::Width,
        Key::Height,
        Key::ScaleFactor,
        Key::Fullscreen,
        Key::Maximized,
        Key::Minimized,
        Key::Html,
        Key::Origin,
        Key::Url,
        Key::Headers,
        Key::Result,
        Key::Value,
        Key::Message,
        Key::Version,
    ];
    for (i, a) in all.iter().enumerate() {
        for (j, b) in all.iter().enumerate() {
            assert_eq!(a.as_str() == b.as_str(), i == j);
        }
    }
}

#[test]
fn members_of_an_object_are_found_by_name() {
    let tokens = vec![
        Token::StartObject,
        Token::FieldName("a".to_string()),
        Token::StartArray,
        Token::StartObject,
        Token::EndObject,
        Token::Integer(1),
        Token::EndArray,
        Token::FieldName("b".to_string()),
        Token::Null,
        Token::FieldName("a".to_string()),
        Token::True,
        Token::EndObject,
    ];
    assert_eq!(find_value_end(&tokens, 2), Some(7));
    assert_eq!(find_value_end(&tokens, 3), Some(5));
    assert_eq!(find_value_end(&tokens, 8), Some(9));
    assert_eq!(find_value_end(&tokens, 0), Some(12));
    assert_eq!(find_value_end(&tokens, 1), None);
    assert_eq!(find_value_end(&tokens, 6), None);
    assert_eq!(find_value_end(&tokens, 12), None);
    let spans = read_object(&tokens).unwrap();
    assert_eq!(spans.len(), 3);
    assert_eq!((spans[0].name, spans[0].start, spans[0].end), (1, 2, 7));
    assert_eq!((spans[1].name, spans[1].start, spans[1].end), (7, 8, 9));
    assert_eq!((spans[2].name, spans[2].start, spans[2].end), (9, 10, 11));
    assert!(matches!(locate(&tokens, &spans, "b"), Place::Once(1)));
    assert!(matches!(locate(&tokens, &spans, "a"), Place::Repeated));
    assert!(matches!(locate(&tokens, &spans, "c"), Place::Absent));
    assert!(matches!(locate(&tokens, &spans, ""), Place::Absent));
    assert_eq!(value_at(&tokens, spans[1]), &[Token::Null]);
    assert_eq!(value_at(&tokens, spans[0]).len(), 5);
    // Not an object: an array, an object that is not closed, tokens behind the object.
    assert!(read_object(&tokens[2..7]).is_none());
    assert!(read_object(&tokens[..11]).is_none());
    assert!(read_object(&[Token::StartObject, Token::EndObject, Token::Null]).is_none());
    assert!(read_object(&[Token::StartObject, Token::Null, Token::EndObject]).is_none());
    assert_eq!(read_object(&[Token::StartObject, Token::EndObject]).unwrap().len(), 0);
    assert!(read_object(&[]).is_none());
}

#[test]
fn text_is_ended_by_its_delimiter() {
    assert_eq!(terminate("{}", Delimiter::Newline), b"{}\n".to_vec());
    assert_eq!(terminate("{}", Delimiter::Null), b"{}\0".to_vec());
    assert_eq!(terminate("", Delimiter::Newline), b"\n".to_vec());
    assert_eq!(terminate("\u{e9}", Delimiter::Null), vec![0xc3, 0xa9, 0]);
    assert_eq!(Delimiter::Newline.byte(), 10);
    assert_eq!(Delimiter::Null.byte(), 0);
}

#[test]
fn stream_is_cut_at_the_delimiter() {
    let mut reader = DelimitedReader::new(Delimiter::Null);
    assert_eq!(reader.feed(b"{\"a\":"), Vec::<Vec<u8>>::new());
    assert_eq!(reader.partial(), &b"{\"a\":".to_vec());
    assert_eq!(reader.feed(b"1}\0{\"b\":\n2}\0\0{"), vec![
        b"{\"a\":1}".to_vec(),
        b"{\"b\":\n2}".to_vec(),
        Vec::new(),
    ]);
    assert_eq!(reader.partial(), &b"{".to_vec());
    assert_eq!(reader.feed(b""), Vec::<Vec<u8>>::new());
    assert_eq!(reader.feed(b"}\0"), vec![b"{}".to_vec()]);
    assert!(reader.partial().is_empty());
}

#[test]
fn where_a_delimited_stream_is_cut_does_not_matter() {
    let stream = b"one\ntwo\n\nthree\nrest";
    let mut whole = DelimitedReader::new(Delimiter::Newline);
    let frames = whole.feed(stream);
    assert_eq!(frames, vec![b"one".to_vec(), b"two".to_vec(), Vec::new(), b"three".to_vec()]);
    for size in 1..stream.len() {
        let mut reader = DelimitedReader::new(Delimiter::Newline);
        let mut pieces = Vec::new();
        for chunk in stream.chunks(size) {
            pieces.extend(reader.feed(chunk));
        }
        assert_eq!(pieces, frames);
        assert_eq!(reader.partial(), &b"rest".to_vec());
    }
}

#[test]
fn what_is_sent_is_received() {
    for delimiter in [Delimiter::Newline, Delimiter::Null] {
        let mut reader = DelimitedReader::new(delimiter);
        let sent = terminate("{\"$type\":\"getVersion\",\"id\":1}", delimiter);
        assert_eq!(reader.feed(&sent), vec![b"{\"$type\":\"getVersion\",\"id\":1}".to_vec()]);
        assert!(reader.partial().is_empty());
    }
}
