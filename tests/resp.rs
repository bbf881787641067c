use kataradb::resp::{DataType, DecodeError, RESPParser};

fn parser_with(messages: Vec<&str>) -> RESPParser {
    let mut parser = RESPParser::new();
    for message in messages {
        parser.feed(message.as_bytes());
    }
    parser
}

#[test]
fn test_parse_simple_string() {
    let test_messages = vec!["+OK\r\n", "+Echo\r\n"];
    let mut parser = parser_with(test_messages);

    let ok_actual = parser.decode_next().expect("Can not parse next");
    let echo_actual = parser.decode_next().expect("Can not parse next");

    let ok_expected = DataType::SimpleString(String::from("OK"));
    let echo_expected = DataType::SimpleString(String::from("Echo"));

    assert_eq!(ok_expected, ok_actual);
    assert_eq!(echo_expected, echo_actual);
}

#[test]
fn test_parse_integer() {
    let test_messages = vec![":0\r\n", ":1\r\n", ":123\r\n", ":-1\r\n", ":-123\r\n"];
    let mut parser = parser_with(test_messages);

    let zero_actual = parser.decode_next().expect("Can not parse next");
    let one_actual = parser.decode_next().expect("Can not parse next");
    let one_hundred_twenty_three_actual = parser.decode_next().expect("Can not parse next");
    let minus_one_actual = parser.decode_next().expect("Can not parse next");
    let minus_one_hundred_twenty_three_actual = parser.decode_next().expect("Can not parse next");

    assert_eq!(DataType::Integer(0), zero_actual);
    assert_eq!(DataType::Integer(1), one_actual);
    assert_eq!(DataType::Integer(123), one_hundred_twenty_three_actual);
    assert_eq!(DataType::Integer(-1), minus_one_actual);
    assert_eq!(DataType::Integer(-123), minus_one_hundred_twenty_three_actual);
}

#[test]
fn test_parse_bulk_string() {
    let test_messages = vec!["$6\r\nfoobar\r\n", "$9\r\nabc\r\n2345\r\n", "$-1\r\n", "$0\r\n\r\n"];
    let mut parser = parser_with(test_messages);

    let foobar_actual = parser.decode_next().expect("Can not parse next");
    let abcd12345_actual = parser.decode_next().expect("Can not parse next");
    let null_actual = parser.decode_next().expect("Can not parse next");
    let empty_string_actual = parser.decode_next().expect("Can not parse next");

    assert_eq!(DataType::BulkString(String::from("foobar")), foobar_actual);
    assert_eq!(DataType::BulkString(String::from("abc\r\n2345")), abcd12345_actual);
    assert_eq!(DataType::BulkString(String::from("")), null_actual);
    assert_eq!(DataType::BulkString(String::from("")), empty_string_actual);
}

#[test]
fn test_parse_array() {
    let test_messages = vec![
        "*2\r\n$3\r\nfoo\r\n$3\r\nbar\r\n",
        "*4\r\n:1\r\n:2\r\n:3\r\n+echo\r\n",
        "*5\r\n:1\r\n:2\r\n:3\r\n:4\r\n$6\r\nfoobar\r\n",
        "*-1\r\n",
        "*0\r\n",
        "*2\r\n*3\r\n:1\r\n:2\r\n:3\r\n*2\r\n+Foo\r\n-Bar\r\n",
    ];
    let mut parser = parser_with(test_messages);

    let foo_bar_actual = parser.decode_next().expect("Can not parse next");
    let one_two_three_echo_actual = parser.decode_next().expect("Can not parse next");
    let one_two_three_four_foobar_actual = parser.decode_next().expect("Can not parse next");
    let null_actual = parser.decode_next().expect("Can not parse next");
    let empty_array_actual = parser.decode_next().expect("Can not parse next");
    let nested_array_actual = parser.decode_next().expect("Can not parse next");

    let foo_bar_expected = DataType::Array(vec![
        DataType::BulkString(String::from("foo")),
        DataType::BulkString(String::from("bar")),
    ]);
    let one_two_three_echo_expected = DataType::Array(vec![
        DataType::Integer(1),
        DataType::Integer(2),
        DataType::Integer(3),
        DataType::SimpleString(String::from("echo")),
    ]);
    let one_two_three_four_foobar_expected = DataType::Array(vec![
        DataType::Integer(1),
        DataType::Integer(2),
        DataType::Integer(3),
        DataType::Integer(4),
        DataType::BulkString(String::from("foobar")),
    ]);
    let null_expected = DataType::Array(vec![]);
    let empty_array_expected = DataType::Array(vec![]);
    let nested_array_expected = DataType::Array(vec![
        DataType::Array(vec![DataType::Integer(1), DataType::Integer(2), DataType::Integer(3)]),
        DataType::Array(vec![
            DataType::SimpleString(String::from("Foo")),
            DataType::Error(String::from("Bar")),
        ]),
    ]);

    assert_eq!(foo_bar_expected, foo_bar_actual);
    assert_eq!(one_two_three_echo_expected, one_two_three_echo_actual);
    assert_eq!(one_two_three_four_foobar_expected, one_two_three_four_foobar_actual);
    assert_eq!(null_expected, null_actual);
    assert_eq!(empty_array_expected, empty_array_actual);
    assert_eq!(nested_array_expected, nested_array_actual);
}

#[test]
fn test_parse_error() {
    let test_messages = vec![
        "-WRONGTYPE Operation against a key holding the wrong kind of value\r\n",
        "-ERR unknown command 'foobar'\r\n",
    ];
    let mut parser = parser_with(test_messages);

    let wrong_type_actual = parser.decode_next().expect("Can not parse next");
    let unknown_command_actual = parser.decode_next().expect("Can not parse next");

    let wrong_type_expected = DataType::Error(String::from(
        "WRONGTYPE Operation against a key holding the wrong kind of value",
    ));
    let unknown_command_expected = DataType::Error(String::from("ERR unknown command 'foobar'"));

    assert_eq!(wrong_type_expected, wrong_type_actual);
    assert_eq!(unknown_command_expected, unknown_command_actual);
}

#[test]
fn test_decode_next_bulk() {
    let test_messages = vec![
        "*1\r\n$4\r\nPING\r\n*3\r\n$3\r\nSET\r\n$1\r\nk\r\n$1\r\nv\r\n*2\r\n$3\r\nGET\r\n$1\r\nk\r\n",
    ];
    let mut parser = parser_with(test_messages);

    let bulk = parser.decode_next_bulk().expect("Can not parse next");

    let expected_bulk = vec![
        DataType::Array(vec![DataType::BulkString(String::from("PING"))]),
        DataType::Array(vec![
            DataType::BulkString(String::from("SET")),
            DataType::BulkString(String::from("k")),
            DataType::BulkString(String::from("v")),
        ]),
        DataType::Array(vec![
            DataType::BulkString(String::from("GET")),
            DataType::BulkString(String::from("k")),
        ]),
    ];

    assert_eq!(expected_bulk, bulk);
}

fn sample_value() -> DataType {
    DataType::Array(vec![
        DataType::SimpleString(String::from("OK")),
        DataType::Error(String::from("ERR boom")),
        DataType::Integer(i64::MIN),
        DataType::Integer(42),
        DataType::BulkString(String::from("binary\r\nsafe ü")),
        DataType::BulkString(String::new()),
        DataType::Array(vec![]),
        DataType::Array(vec![DataType::Integer(-7)]),
    ])
}

fn sample_value_again() -> DataType {
    sample_value()
}

#[test]
fn encode_exact_bytes() {
    let parser = RESPParser::new();
    assert_eq!(parser.encode(DataType::SimpleString(String::from("PONG"))), b"+PONG\r\n".to_vec());
    assert_eq!(parser.encode(DataType::Integer(-123)), b":-123\r\n".to_vec());
    assert_eq!(parser.encode(DataType::BulkString(String::from("v"))), b"$1\r\nv\r\n".to_vec());
    assert_eq!(parser.encode(DataType::BulkString(String::new())), b"$0\r\n\r\n".to_vec());
    assert_eq!(parser.encode(DataType::Error(String::from("E"))), b"-E\r\n".to_vec());
    assert_eq!(
        parser.encode(DataType::Array(vec![DataType::Integer(1), DataType::BulkString(String::from("ab"))])),
        b"*2\r\n:1\r\n$2\r\nab\r\n".to_vec()
    );
    // the length of a bulk string counts bytes, not characters
    assert_eq!(parser.encode(DataType::BulkString(String::from("é"))), "$2\r\né\r\n".as_bytes().to_vec());
}

#[test]
fn round_trip_decodes_what_was_encoded() {
    let mut parser = RESPParser::new();
    let bytes = parser.encode(sample_value());
    parser.feed(&bytes);
    assert_eq!(parser.decode_next(), Ok(sample_value_again()));
    assert_eq!(parser.decode_next(), Err(DecodeError::WouldBlock));
}

#[test]
fn byte_by_byte_feeding_yields_the_value_once() {
    let encoder = RESPParser::new();
    let bytes = encoder.encode(sample_value());
    let mut parser = RESPParser::new();
    let mut decoded = Vec::new();
    for (i, b) in bytes.iter().enumerate() {
        parser.feed(&[*b]);
        match parser.decode_next() {
            Ok(v) => decoded.push((i, v)),
            Err(e) => assert_eq!(e, DecodeError::UnexpectedEof),
        }
    }
    assert_eq!(decoded.len(), 1);
    assert_eq!(decoded[0].0, bytes.len() - 1);
    assert_eq!(decoded[0].1, sample_value_again());
}

#[test]
fn pipelined_frames_come_out_in_order() {
    let encoder = RESPParser::new();
    let frames = vec![
        DataType::Integer(1),
        DataType::SimpleString(String::from("two")),
        DataType::Array(vec![DataType::BulkString(String::from("three"))]),
    ];
    let burst = encoder.encode_all(&frames);
    let mut parser = RESPParser::new();
    parser.feed(&burst);
    // half of a fourth frame stays buffered
    parser.feed(b"$4\r\nfou");
    let bulk = parser.decode_next_bulk().expect("complete frames");
    assert_eq!(
        bulk,
        vec![
            DataType::Integer(1),
            DataType::SimpleString(String::from("two")),
            DataType::Array(vec![DataType::BulkString(String::from("three"))]),
        ]
    );
    parser.feed(b"r\r\n");
    assert_eq!(parser.decode_next(), Ok(DataType::BulkString(String::from("four"))));
}

#[test]
fn decode_errors_are_told_apart() {
    let cases: Vec<(&[u8], DecodeError)> = vec![
        (b"", DecodeError::WouldBlock),
        (b"$3\r\nfo", DecodeError::UnexpectedEof),
        (b":12", DecodeError::UnexpectedEof),
        (b"?x\r\n", DecodeError::UnknownTypeByte),
        (b"$abc\r\nxyz\r\n", DecodeError::InvalidLength),
        (b"$3\r\nfooXY", DecodeError::InvalidLength),
        (b"*x\r\n", DecodeError::InvalidLength),
        (b":12a\r\n", DecodeError::InvalidInteger),
        (b":99999999999999999999\r\n", DecodeError::InvalidInteger),
        (b"+\xff\r\n", DecodeError::Utf8Error),
        (b"$1\r\n\xff\r\n", DecodeError::Utf8Error),
        (b"+ab\rX", DecodeError::InvalidTerminator),
    ];
    for (bytes, expected) in cases {
        let mut parser = RESPParser::new();
        parser.feed(bytes);
        assert_eq!(parser.decode_next(), Err(expected), "input {:?}", bytes);
        assert_eq!(expected.is_desync(), !matches!(expected, DecodeError::WouldBlock | DecodeError::UnexpectedEof));
    }
}

#[test]
fn bulk_decoding_stops_at_a_protocol_error() {
    let mut parser = RESPParser::new();
    parser.feed(b":1\r\n?oops\r\n");
    assert_eq!(parser.decode_next_bulk(), Err(DecodeError::UnknownTypeByte));
}

#[test]
fn integer_lines_accept_a_plus_sign_and_extremes() {
    let mut parser = RESPParser::new();
    parser.feed(b":+5\r\n:9223372036854775807\r\n:-9223372036854775808\r\n:9223372036854775808\r\n");
    assert_eq!(parser.decode_next(), Ok(DataType::Integer(5)));
    assert_eq!(parser.decode_next(), Ok(DataType::Integer(i64::MAX)));
    assert_eq!(parser.decode_next(), Ok(DataType::Integer(i64::MIN)));
    assert_eq!(parser.decode_next(), Err(DecodeError::InvalidInteger));
}
