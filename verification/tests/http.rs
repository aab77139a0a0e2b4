use saba_core::error::Error;
use saba_core::http::{Header, HttpResponse};

#[test]
fn should_be_valid_status_line_only() {
    // Arrange
    let raw = "HTTP/1.1 200 OK\n\n".to_string();
    // Act
    let res = HttpResponse::new(raw).expect("failed to parse http response");
    // Assert
    assert_eq!(res.version(), "HTTP/1.1");
    assert_eq!(res.status_code(), 200);
    assert_eq!(res.reason(), "OK");
}

#[test]
fn should_be_valid_one_header() {
    // Arrange
    let raw = "HTTP/1.1 200 OK\nDate:xx xx xx\n\n".to_string();
    // Act
    let res = HttpResponse::new(raw).expect("failed to parse http response");
    // Assert
    assert_eq!(res.version(), "HTTP/1.1");
    assert_eq!(res.status_code(), 200);
    assert_eq!(res.reason(), "OK");
    assert_eq!(res.header_value("Date"), Ok("xx xx xx".to_string()));
}

#[test]
fn should_be_valid_two_headers_with_white_space() {
    // Arrange
    let raw = "HTTP/1.1 200 OK\nDate: xx xx xx\nContent-Length: 42\n\n".to_string();
    // Act
    let res = HttpResponse::new(raw).expect("failed to parse http response");
    // Assert
    assert_eq!(res.version(), "HTTP/1.1");
    assert_eq!(res.status_code(), 200);
    assert_eq!(res.reason(), "OK");
    assert_eq!(res.header_value("Date"), Ok("xx xx xx".to_string()));
    assert_eq!(res.header_value("Content-Length"), Ok("42".to_string()));
}

#[test]
fn should_be_valid_body() {
    // Arrange
    let raw = "HTTP/1.1 200 OK\nDate: xx xx xx\n\nbody message".to_string();
    // Act
    let res = HttpResponse::new(raw).expect("failed to parse http response");
    // Assert
    assert_eq!(res.version(), "HTTP/1.1");
    assert_eq!(res.status_code(), 200);
    assert_eq!(res.reason(), "OK");
    assert_eq!(res.header_value("Date"), Ok("xx xx xx".to_string()));
    assert_eq!(res.body(), "body message".to_string());
}

#[test]
fn should_be_invalid_no_next_line() {
    // Arrange
    let raw = "HTTP/1.1 200 OK".to_string();
    // Act
    // Assert
    assert!(HttpResponse::new(raw).is_err());
}

fn pairs(res: &HttpResponse) -> Vec<(String, String)> {
    res.headers().iter().map(|h| (h.name(), h.value())).collect()
}

fn pair(name: &str, value: &str) -> (String, String) {
    (name.to_string(), value.to_string())
}

/// The text that a response stands for: status line, one line for each
/// header, an empty line, the body.
fn rebuild(res: &HttpResponse) -> String {
    let lines: Vec<String> = pairs(res).iter().map(|(n, v)| format!("{}: {}", n, v)).collect();
    format!("{} {} {}\n{}\n\n{}", res.version(), res.status_code(), res.reason(), lines.join("\n"), res.body())
}

#[test]
fn status_line_only_has_no_headers() {
    let res = HttpResponse::new("HTTP/1.1 200 OK\n\n".to_string()).expect("a response");
    assert_eq!(res.version(), "HTTP/1.1");
    assert_eq!(res.status_code(), 200);
    assert_eq!(res.reason(), "OK");
    assert!(res.headers().is_empty());
}

#[test]
fn without_blank_line_all_that_follows_is_body() {
    let res = HttpResponse::new("HTTP/1.1 200 OK\n\n".to_string()).expect("a response");
    assert_eq!(res.body(), "\n");
    let res = HttpResponse::new("HTTP/1.1 200 OK\nDate: today\nbody".to_string()).expect("a response");
    assert!(res.headers().is_empty());
    assert_eq!(res.body(), "Date: today\nbody");
    let res = HttpResponse::new("HTTP/1.1 200 OK\n".to_string()).expect("a response");
    assert!(res.headers().is_empty());
    assert_eq!(res.body(), "");
}

#[test]
fn two_headers_in_order() {
    let raw = "HTTP/1.1 200 OK\nDate: xx xx xx\nContent-Length: 42\n\n".to_string();
    let res = HttpResponse::new(raw).expect("a response");
    assert_eq!(pairs(&res), vec![pair("Date", "xx xx xx"), pair("Content-Length", "42")]);
    assert_eq!(res.body(), "");
}

#[test]
fn no_line_break_is_malformed() {
    assert_eq!(HttpResponse::new("HTTP/1.1 200 OK".to_string()).err(), Some(Error::Malformed));
    assert_eq!(HttpResponse::new("".to_string()).err(), Some(Error::Malformed));
    assert_eq!(HttpResponse::new(" \n\t\r\n ".to_string()).err(), Some(Error::Malformed));
}

#[test]
fn short_status_line_is_malformed() {
    assert_eq!(HttpResponse::new("HTTP/1.1 200\n\n".to_string()).err(), Some(Error::Malformed));
    assert_eq!(HttpResponse::new("HTTP/1.1\n\n".to_string()).err(), Some(Error::Malformed));
    assert_eq!(HttpResponse::new("x\n\n".to_string()).err(), Some(Error::Malformed));
    assert_eq!(HttpResponse::new("HTTP/1.1 200\nOK x\n\n".to_string()).err(), Some(Error::Malformed));
}

#[test]
fn header_line_without_colon_is_malformed() {
    let raw = "HTTP/1.1 200 OK\nDate xx\n\nbody".to_string();
    assert_eq!(HttpResponse::new(raw).err(), Some(Error::Malformed));
    let raw = "HTTP/1.1 200 OK\nA: b\nnocolon\nC: d\n\nbody".to_string();
    assert_eq!(HttpResponse::new(raw).err(), Some(Error::Malformed));
    let raw = "HTTP/1.1 200 OK\n\nA: b\n\nbody".to_string();
    assert_eq!(HttpResponse::new(raw).err(), Some(Error::Malformed));
}

#[test]
fn empty_header_block_gives_no_headers() {
    let res = HttpResponse::new("HTTP/1.1 200 OK\n\n\nbody".to_string()).expect("a response");
    assert!(res.headers().is_empty());
    assert_eq!(res.body(), "body");
}

#[test]
fn carriage_returns_before_line_feeds_are_dropped() {
    let raw = "HTTP/1.1 200 OK\r\nDate: xx\r\nServer: y\r\n\r\nline 1\r\nline 2\r".to_string();
    let res = HttpResponse::new(raw).expect("a response");
    assert_eq!(res.reason(), "OK");
    assert_eq!(pairs(&res), vec![pair("Date", "xx"), pair("Server", "y")]);
    assert_eq!(res.body(), "line 1\nline 2\r");
}

#[test]
fn only_the_carriage_return_next_to_a_line_feed_is_dropped() {
    let res = HttpResponse::new("A B C\n\n\nx\r\r\ny\rz".to_string()).expect("a response");
    assert_eq!(res.body(), "x\r\ny\rz");
}

#[test]
fn leading_white_space_is_passed_over() {
    let raw = " \r\n\t\u{3000}HTTP/1.1 200 OK\nA: b\n\n body ".to_string();
    let res = HttpResponse::new(raw).expect("a response");
    assert_eq!(res.version(), "HTTP/1.1");
    assert_eq!(pairs(&res), vec![pair("A", "b")]);
    assert_eq!(res.body(), " body ");
}

#[test]
fn header_names_and_values_are_trimmed() {
    let raw = "HTTP/1.1 200 OK\n \tName\u{a0}:\u{2003} va : lue \t\nEmpty:\n:\n\n".to_string();
    let res = HttpResponse::new(raw).expect("a response");
    assert_eq!(pairs(&res), vec![pair("Name", "va : lue"), pair("Empty", ""), pair("", "")]);
}

#[test]
fn status_code_that_is_no_number_becomes_404() {
    for field in ["abc", "", "2x0", "-200", "+", "++1", "20.0", "4294967296", "99999999999999999999", "٢٠٠", " 200"] {
        let raw = format!("HTTP/1.1 {} OK\n\n", field);
        let res = HttpResponse::new(raw).expect("a response");
        assert_eq!(res.status_code(), 404, "field {:?}", field);
    }
}

#[test]
fn status_code_is_read_in_base_ten() {
    for (field, code) in [("200", 200u32), ("0", 0), ("007", 7), ("+301", 301), ("4294967295", u32::MAX), ("0000000000004294967295", u32::MAX), ("404", 404)] {
        let raw = format!("HTTP/1.1 {} OK\n\n", field);
        let res = HttpResponse::new(raw).expect("a response");
        assert_eq!(res.status_code(), code, "field {:?}", field);
        assert_eq!(res.status_code(), field.parse::<u32>().unwrap());
    }
}

#[test]
fn status_code_agrees_with_the_standard_parser() {
    for field in ["abc", "", "+", "-0", "+0", "12", "4294967296", "4294967295", "1_000", "0x10", "１２"] {
        let raw = format!("V {} R\n", field);
        let res = HttpResponse::new(raw).expect("a response");
        assert_eq!(res.status_code(), field.parse::<u32>().unwrap_or(404), "field {:?}", field);
    }
}

#[test]
fn empty_status_code_field_between_two_spaces() {
    let res = HttpResponse::new("a  b\n".to_string()).expect("a response");
    assert_eq!(res.version(), "a");
    assert_eq!(res.status_code(), 404);
    assert_eq!(res.reason(), "b");
}

#[test]
fn reason_is_the_third_field_only() {
    let res = HttpResponse::new("HTTP/1.1 404 Not Found\n\n".to_string()).expect("a response");
    assert_eq!(res.reason(), "Not");
    let res = HttpResponse::new("HTTP/1.1 200 \n\n".to_string()).expect("a response");
    assert_eq!(res.reason(), "");
}

#[test]
fn header_lookup_is_exact_and_takes_the_first() {
    let raw = "HTTP/1.1 200 OK\nSet: 1\nset: 2\nSet: 3\n\n".to_string();
    let res = HttpResponse::new(raw).expect("a response");
    assert_eq!(res.header_value("Set"), Ok("1".to_string()));
    assert_eq!(res.header_value("set"), Ok("2".to_string()));
    assert_eq!(res.header_value("SET"), Err(Error::HeaderNotFound));
    assert_eq!(res.header_value("Se"), Err(Error::HeaderNotFound));
    assert_eq!(res.header_value(""), Err(Error::HeaderNotFound));
}

#[test]
fn header_lookup_in_a_response_without_headers() {
    let res = HttpResponse::new("HTTP/1.1 200 OK\n\n".to_string()).expect("a response");
    assert_eq!(res.header_value("Date"), Err(Error::HeaderNotFound));
}

#[test]
fn header_new_keeps_name_and_value() {
    let header = Header::new(" Name ".to_string(), "value".to_string());
    assert_eq!(header.name(), " Name ");
    assert_eq!(header.value(), "value");
    assert_eq!(header.clone(), header);
}

#[test]
fn clone_keeps_every_field() {
    let raw = "HTTP/1.1 201 Created\nA: b\n\nbody".to_string();
    let res = HttpResponse::new(raw).expect("a response");
    let copy = res.clone();
    assert_eq!(copy.version(), "HTTP/1.1");
    assert_eq!(copy.status_code(), 201);
    assert_eq!(copy.reason(), "Created");
    assert_eq!(pairs(&copy), vec![pair("A", "b")]);
    assert_eq!(copy.body(), "body");
}

#[test]
fn body_beyond_ascii() {
    let res = HttpResponse::new("HTTP/1.1 200 OK\nTitle: 日本語\n\n<p>こんにちは</p>".to_string()).expect("a response");
    assert_eq!(res.header_value("Title"), Ok("日本語".to_string()));
    assert_eq!(res.body(), "<p>こんにちは</p>");
}

#[test]
fn reading_the_rebuilt_text_gives_the_same_response() {
    for raw in [
        "HTTP/1.1 200 OK\n\n",
        "HTTP/1.1 200 OK\nDate: xx xx xx\nContent-Length: 42\n\n",
        "HTTP/1.1 200 OK\nDate: xx xx xx\n\nbody message",
        "  HTTP/1.0 abc Not Found\r\nA:b:c\r\n : \r\n\r\n<html>\n\n</html>\n",
        "a  b\nrest",
    ] {
        let first = HttpResponse::new(raw.to_string()).expect("a response");
        let second = HttpResponse::new(rebuild(&first)).expect("a response");
        assert_eq!(second.version(), first.version());
        assert_eq!(second.status_code(), first.status_code());
        assert_eq!(second.reason(), first.reason());
        assert_eq!(pairs(&second), pairs(&first));
        assert_eq!(second.body(), first.body());
    }
}

/// Over the code points `from..=to`: the text is read without the character
/// before it exactly when the character is white space.
fn leading_character_is_dropped_exactly_if_white_space(from: u32, to: u32) {
    for code in from..=to {
        let Some(c) = char::from_u32(code) else { continue };
        let res = HttpResponse::new(format!("{}V 1 R\n\n", c)).expect("a response");
        let version = if c.is_whitespace() { "V".to_string() } else { format!("{}V", c) };
        assert_eq!(res.version(), version, "U+{:04X}", code);
    }
}

#[test]
fn white_space_in_ascii_and_latin_1() {
    leading_character_is_dropped_exactly_if_white_space(0, 0xff);
    for c in [' ', '\t', '\n', '\u{b}', '\u{c}', '\r', '\u{85}', '\u{a0}'] {
        let res = HttpResponse::new(format!("{}V 1 R\n\n", c)).expect("a response");
        assert_eq!(res.version(), "V");
    }
}

#[test]
fn white_space_in_the_basic_plane() {
    leading_character_is_dropped_exactly_if_white_space(0x100, 0xffff);
    let spaces: Vec<u32> = (0x100..=0xffff)
        .filter(|code| HttpResponse::new(format!("{}V 1 R\n\n", char::from_u32(*code).unwrap_or('x'))).expect("a response").version() == "V")
        .collect();
    let mut expected = vec![0x1680];
    expected.extend(0x2000..=0x200a);
    expected.extend([0x2028, 0x2029, 0x202f, 0x205f, 0x3000]);
    assert_eq!(spaces, expected);
}

#[test]
fn white_space_beyond_the_basic_plane() {
    leading_character_is_dropped_exactly_if_white_space(0x10000, 0x10ffff);
}
