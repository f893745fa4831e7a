use ls_proxy::parser::framing::ParseFault;
use ls_proxy::parser::{Message, MessageParser};

#[test]
fn parse_simple_message() {
    let msg = r#"Content-Length: 44

{"jsonrpc":"2.0","method":"shutdown","id":3}"#;
    let result = Message::parse(msg.as_bytes());
    assert!(result.is_some());
    let messages = result.unwrap();
    assert_eq!(messages.len(), 1);
    assert_eq!(
        messages[0].payload,
        r#"{"jsonrpc":"2.0","method":"shutdown","id":3}"#
    );
}

#[test]
fn parse_empty() {
    let mut sut = MessageParser::new();
    let res = sut.parse("".as_bytes());
    assert_eq!(res.len(), 0);
}

#[test]
fn parse_junk() {
    let mut sut = MessageParser::new();
    let res = sut.parse(
        r#"Content-foo 45

and then some"#
            .as_bytes(),
    );
    assert_eq!(res.len(), 0);
}

#[test]
fn parse_one_message() {
    let mut sut = MessageParser::new();
    let msg = "Content-Length: 44\r\n\r\n{\"jsonrpc\":\"2.0\",\"method\":\"shutdown\",\"id\":3}";
    let res = sut.parse(msg.as_bytes());
    assert_eq!(res.len(), 1);
    assert_eq!(
        res[0].payload,
        r#"{"jsonrpc":"2.0","method":"shutdown","id":3}"#
    );
}

#[test]
fn parse_two_messages() {
    let mut sut = MessageParser::new();
    let msg = "Content-Length: 44\r\n\r\n{\"jsonrpc\":\"2.0\",\"method\":\"shutdown\",\"id\":3}Content-Length: 44\r\n\r\n{\"jsonrpc\":\"2.0\",\"method\":\"shutdown\",\"id\":4}";
    let res = sut.parse(msg.as_bytes());
    assert_eq!(res.len(), 2);
    assert_eq!(
        res[0].payload,
        r#"{"jsonrpc":"2.0","method":"shutdown","id":3}"#
    );
    assert_eq!(
        res[1].payload,
        r#"{"jsonrpc":"2.0","method":"shutdown","id":4}"#
    );
}

#[test]
fn parse_one_message_surrounded_by_junk() {
    let mut sut = MessageParser::new();
    let msg = "foo barContent-Length: 44\r\n\r\n{\"jsonrpc\":\"2.0\",\"method\":\"shutdown\",\"id\":3}and some\r\nmore junk";
    let res = sut.parse(msg.as_bytes());
    assert_eq!(res.len(), 1);
    assert_eq!(
        res[0].payload,
        r#"{"jsonrpc":"2.0","method":"shutdown","id":3}"#
    );
    assert_eq!(sut.leftover().len(), 19);
}

#[test]
fn parse_two_messages_surrounded_by_junk() {
    let mut sut = MessageParser::new();
    let msg = "some junk\r\nContent-Length: 44\r\n\r\n{\"jsonrpc\":\"2.0\",\"method\":\"shutdown\",\"id\":3}and more some inbetween\r\n\r\nContent-Length: 44\r\n\r\n{\"jsonrpc\":\"2.0\",\"method\":\"shutdown\",\"id\":4}and even some more at the end";
    let res = sut.parse(msg.as_bytes());
    assert_eq!(res.len(), 2);
    assert_eq!(
        res[0].payload,
        r#"{"jsonrpc":"2.0","method":"shutdown","id":3}"#
    );
    assert_eq!(
        res[1].payload,
        r#"{"jsonrpc":"2.0","method":"shutdown","id":4}"#
    );
    assert_eq!(sut.leftover().len(), 29);
}

#[test]
fn parse_one_message_in_two_chunks() {
    let mut sut = MessageParser::new();
    let chunk_1 = "foo barContent-Length: 44\r\n\r\n{\"jsonrpc\":\"2.0\",\"met";
    let chunk_2 = "hod\":\"shutdown\",\"id\":3}and some\r\nmore junk";
    let res = sut.parse(chunk_1.as_bytes());
    assert_eq!(res.len(), 0);
    assert_eq!(sut.leftover().len(), 43);
    let res = sut.parse(chunk_2.as_bytes());
    assert_eq!(res.len(), 1);
    assert_eq!(
        res[0].payload,
        r#"{"jsonrpc":"2.0","method":"shutdown","id":3}"#
    );
    assert_eq!(sut.leftover().len(), 19);
}

#[test]
fn parse_one_message_in_two_chunks_cut_in_middle_of_content_length() {
    let mut sut = MessageParser::new();
    let chunk_1 = "foo barContent-Length: 4";
    let chunk_2 = "4\r\n\r\n{\"jsonrpc\":\"2.0\",\"method\":\"shutdown\",\"id\":3}and some\r\nmore obvious junk";
    let res = sut.parse(chunk_1.as_bytes());
    assert_eq!(res.len(), 0);
    assert_eq!(sut.leftover().len(), 17);
    let res = sut.parse(chunk_2.as_bytes());
    assert_eq!(res.len(), 1);
    assert_eq!(
        res[0].payload,
        r#"{"jsonrpc":"2.0","method":"shutdown","id":3}"#
    );
    assert_eq!(sut.leftover().len(), 27);
}

#[test]
fn fresh_parser_has_no_fault() {
    let sut = MessageParser::new();
    assert_eq!(sut.fault(), None::<ParseFault>);
    assert_eq!(sut.leftover().len(), 0);
}
