use redis_rs::enums::{Fault, RedisError, RedisParseError};
use redis_rs::parse::{
    decode_from, encode, encode_tokens, parse_command, parse_response, read_to_carriage_return,
    tokenize, Decoded,
};
use redis_rs::response::Response;

fn bulk(text: &str) -> Response {
    Response::BulkString(text.as_bytes().to_vec())
}

fn fault_of(result: Result<Decoded, RedisParseError>) -> Fault {
    match result {
        Err(e) => e.fault,
        Ok(other) => panic!("decoded {:?}", other),
    }
}

#[test]
fn test_parse_command() {
    let parsed_command = parse_command("GET FOO").unwrap();

    assert_eq!("*2\r\n$3\r\nGET\r\n$3\r\nFOO\r\n".as_bytes(), parsed_command);
}

#[test]
fn test_parse_response() {
    let data = String::from("+OK\r\n");

    let response = parse_response(data.as_bytes()).unwrap();

    assert_eq!(response, Decoded::Complete(Response::SimpleString(String::from("OK")), 5));
}

#[test]
fn test_error_response() {
    let data = String::from("-ERROR\r\n");

    let response = parse_response(data.as_bytes()).unwrap();
    assert_eq!(response, Decoded::Complete(Response::Error(String::from("ERROR")), 8));
}

#[test]
fn encode_of_bytes_agrees_with_parse_command() {
    assert_eq!(
        encode(b"GET FOO").unwrap(),
        b"*2\r\n$3\r\nGET\r\n$3\r\nFOO\r\n".to_vec()
    );
    assert_eq!(encode(b"GET FOO").unwrap(), parse_command("GET FOO").unwrap());
}

#[test]
fn decode_simple_string() {
    assert_eq!(
        parse_response(b"+OK\r\n"),
        Ok(Decoded::Complete(Response::SimpleString(String::from("OK")), 5))
    );
}

#[test]
fn decode_error_reply() {
    assert_eq!(
        parse_response(b"-ERROR\r\n"),
        Ok(Decoded::Complete(Response::Error(String::from("ERROR")), 8))
    );
}

#[test]
fn decode_integer() {
    assert_eq!(parse_response(b":1000\r\n"), Ok(Decoded::Complete(Response::Integer(1000), 7)));
    assert_eq!(parse_response(b":-42\r\n"), Ok(Decoded::Complete(Response::Integer(-42), 6)));
    assert_eq!(parse_response(b":0\r\n"), Ok(Decoded::Complete(Response::Integer(0), 4)));
    assert_eq!(parse_response(b":-0\r\n"), Ok(Decoded::Complete(Response::Integer(0), 5)));
    assert_eq!(parse_response(b":007\r\n"), Ok(Decoded::Complete(Response::Integer(7), 6)));
}

#[test]
fn decode_integer_at_the_ends_of_its_range() {
    assert_eq!(
        parse_response(b":9223372036854775807\r\n"),
        Ok(Decoded::Complete(Response::Integer(i64::MAX), 22))
    );
    assert_eq!(
        parse_response(b":-9223372036854775808\r\n"),
        Ok(Decoded::Complete(Response::Integer(i64::MIN), 23))
    );
    assert_eq!(fault_of(parse_response(b":9223372036854775808\r\n")), Fault::BadInteger);
    assert_eq!(fault_of(parse_response(b":-9223372036854775809\r\n")), Fault::BadInteger);
    assert_eq!(
        fault_of(parse_response(b":99999999999999999999999999\r\n")),
        Fault::BadInteger
    );
}

#[test]
fn decode_integer_refuses_what_is_no_number() {
    assert_eq!(fault_of(parse_response(b":12a\r\n")), Fault::BadInteger);
    assert_eq!(fault_of(parse_response(b":\r\n")), Fault::BadInteger);
    assert_eq!(fault_of(parse_response(b":-\r\n")), Fault::BadInteger);
    assert_eq!(fault_of(parse_response(b":+5\r\n")), Fault::BadInteger);
    assert_eq!(fault_of(parse_response(b":1-2\r\n")), Fault::BadInteger);
    assert_eq!(fault_of(parse_response(b": 1\r\n")), Fault::BadInteger);
    assert_eq!(fault_of(parse_response(b":1\r2\r\n")), Fault::BadInteger);
}

#[test]
fn decode_bulk_string() {
    assert_eq!(parse_response(b"$6\r\nfoobar\r\n"), Ok(Decoded::Complete(bulk("foobar"), 12)));
    assert_eq!(parse_response(b"$0\r\n\r\n"), Ok(Decoded::Complete(bulk(""), 6)));
}

#[test]
fn decode_nil_is_not_the_empty_string() {
    assert_eq!(parse_response(b"$-1\r\n"), Ok(Decoded::Complete(Response::Nil, 5)));
    assert_ne!(Response::Nil, Response::BulkString(Vec::new()));
    assert_ne!(parse_response(b"$-1\r\n"), parse_response(b"$0\r\n\r\n"));
}

#[test]
fn decode_nil_array_is_not_the_empty_array() {
    assert_eq!(parse_response(b"*-1\r\n"), Ok(Decoded::Complete(Response::NilArray, 5)));
    assert_eq!(parse_response(b"*0\r\n"), Ok(Decoded::Complete(Response::Array(Vec::new()), 4)));
    assert_ne!(Response::NilArray, Response::Array(Vec::new()));
}

#[test]
fn decode_array_of_bulk_strings() {
    assert_eq!(
        parse_response(b"*2\r\n$3\r\nfoo\r\n$3\r\nbar\r\n"),
        Ok(Decoded::Complete(Response::Array(vec![bulk("foo"), bulk("bar")]), 22))
    );
}

#[test]
fn decode_nested_and_mixed_array() {
    let expected = Response::Array(vec![
        Response::Array(vec![Response::Integer(1), Response::Nil]),
        Response::SimpleString(String::from("OK")),
        Response::Array(Vec::new()),
        Response::NilArray,
        Response::Error(String::from("no")),
    ]);
    let wire = b"*5\r\n*2\r\n:1\r\n$-1\r\n+OK\r\n*0\r\n*-1\r\n-no\r\n";
    assert_eq!(parse_response(wire), Ok(Decoded::Complete(expected, wire.len())));
}

#[test]
fn bulk_string_is_taken_by_count_not_by_content() {
    assert_eq!(
        parse_response(b"$8\r\nab\r\ncd\r\n\r\n"),
        Ok(Decoded::Complete(bulk("ab\r\ncd\r\n"), 14))
    );
    let raw: Vec<u8> = vec![b'$', b'3', b'\r', b'\n', 0, 255, 13, b'\r', b'\n'];
    assert_eq!(
        parse_response(&raw),
        Ok(Decoded::Complete(Response::BulkString(vec![0, 255, 13]), 9))
    );
}

#[test]
fn bulk_string_must_end_with_the_terminator() {
    assert_eq!(fault_of(parse_response(b"$3\r\nfooXY")), Fault::BadTerminator);
    assert_eq!(fault_of(parse_response(b"$3\r\nfoo\rX")), Fault::BadTerminator);
    assert_eq!(fault_of(parse_response(b"$3\r\nfoobar\r\n")), Fault::BadTerminator);
}

#[test]
fn lengths_and_counts_must_be_numbers_from_minus_one_up() {
    assert_eq!(fault_of(parse_response(b"$-2\r\n")), Fault::BadLength);
    assert_eq!(fault_of(parse_response(b"$abc\r\n")), Fault::BadLength);
    assert_eq!(fault_of(parse_response(b"$\r\n")), Fault::BadLength);
    assert_eq!(fault_of(parse_response(b"*-2\r\n")), Fault::BadLength);
    assert_eq!(fault_of(parse_response(b"*x\r\n")), Fault::BadLength);
    assert_eq!(fault_of(parse_response(b"*99999999999999999999\r\n")), Fault::BadLength);
}

#[test]
fn unexpected_leading_byte_is_refused_at_once() {
    assert_eq!(fault_of(parse_response(b"!OK\r\n")), Fault::UnexpectedByte(b'!'));
    assert_eq!(fault_of(parse_response(b"O")), Fault::UnexpectedByte(b'O'));
    assert_eq!(fault_of(parse_response(&[0u8])), Fault::UnexpectedByte(0));
    assert_eq!(fault_of(parse_response(b"*2\r\n+OK\r\n?")), Fault::UnexpectedByte(b'?'));
}

#[test]
fn partial_buffers_need_more_bytes() {
    assert_eq!(parse_response(b""), Ok(Decoded::NeedMoreBytes));
    assert_eq!(parse_response(b"+"), Ok(Decoded::NeedMoreBytes));
    assert_eq!(parse_response(b"+OK"), Ok(Decoded::NeedMoreBytes));
    assert_eq!(parse_response(b"+OK\r"), Ok(Decoded::NeedMoreBytes));
    assert_eq!(parse_response(b":12a"), Ok(Decoded::NeedMoreBytes));
    assert_eq!(parse_response(b"$5\r\nfo"), Ok(Decoded::NeedMoreBytes));
    assert_eq!(parse_response(b"$5\r\nfooba"), Ok(Decoded::NeedMoreBytes));
    assert_eq!(parse_response(b"$5\r\nfoobar"), Ok(Decoded::NeedMoreBytes));
    assert_eq!(parse_response(b"*2\r\n$3\r\nfoo\r\n"), Ok(Decoded::NeedMoreBytes));
    assert_eq!(parse_response(b"*2\r\n$3\r\nfoo\r\n$3\r\nba"), Ok(Decoded::NeedMoreBytes));
    assert_eq!(parse_response(b"*9223372036854775807\r\n"), Ok(Decoded::NeedMoreBytes));
    assert_eq!(parse_response(b"$9223372036854775807\r\nabc"), Ok(Decoded::NeedMoreBytes));
}

#[test]
fn a_short_bulk_string_is_completed_by_the_remaining_bytes() {
    let mut buffer: Vec<u8> = b"$5\r\nfo".to_vec();
    assert_eq!(parse_response(&buffer), Ok(Decoded::NeedMoreBytes));
    buffer.extend_from_slice(b"oba");
    assert_eq!(parse_response(&buffer), Ok(Decoded::NeedMoreBytes));
    buffer.extend_from_slice(b"\r\n");
    assert_eq!(parse_response(&buffer), Ok(Decoded::Complete(bulk("fooba"), 11)));
}

#[test]
fn every_shorter_beginning_of_a_reply_needs_more_bytes() {
    let wire: &[u8] = b"*3\r\n$3\r\nfoo\r\n:-17\r\n*1\r\n+deep\r\n";
    let whole = parse_response(wire);
    assert!(matches!(whole, Ok(Decoded::Complete(_, n)) if n == wire.len()));
    for k in 0..wire.len() {
        assert_eq!(parse_response(&wire[..k]), Ok(Decoded::NeedMoreBytes), "at {}", k);
    }
}

#[test]
fn bytes_behind_a_reply_are_left_alone() {
    let first = parse_response(b"+OK\r\n");
    assert_eq!(parse_response(b"+OK\r\n:1\r\n"), first);
    assert_eq!(parse_response(b"+OK\r\n!!!"), first);
    assert_eq!(parse_response(b"+OK\r\n$5\r\nfo"), first);
    assert_eq!(
        decode_from(b"+OK\r\n:1\r\n", 5),
        Ok(Decoded::Complete(Response::Integer(1), 9))
    );
    assert_eq!(decode_from(b"+OK\r\n", 5), Ok(Decoded::NeedMoreBytes));
    assert_eq!(decode_from(b"+OK\r\n", 99), Ok(Decoded::NeedMoreBytes));
}

#[test]
fn text_must_be_utf8() {
    let bad: Vec<u8> = vec![b'+', 0xff, 0xfe, b'\r', b'\n'];
    assert_eq!(fault_of(parse_response(&bad)), Fault::BadText);
    let bad_error: Vec<u8> = vec![b'-', 0xc3, b'\r', b'\n'];
    assert_eq!(fault_of(parse_response(&bad_error)), Fault::BadText);
    let good = "+h\u{e9}llo \u{2603}\r\n".as_bytes().to_vec();
    assert_eq!(
        parse_response(&good),
        Ok(Decoded::Complete(
            Response::SimpleString(String::from("h\u{e9}llo \u{2603}")),
            good.len()
        ))
    );
    let binary: Vec<u8> = vec![b'$', b'2', b'\r', b'\n', 0xff, 0xfe, b'\r', b'\n'];
    assert_eq!(
        parse_response(&binary),
        Ok(Decoded::Complete(Response::BulkString(vec![0xff, 0xfe]), 8))
    );
}

#[test]
fn a_lone_carriage_return_does_not_end_a_line() {
    assert_eq!(
        parse_response(b"+a\rb\r\n"),
        Ok(Decoded::Complete(Response::SimpleString(String::from("a\rb")), 6))
    );
    assert_eq!(
        parse_response(b"+a\nb\r\n"),
        Ok(Decoded::Complete(Response::SimpleString(String::from("a\nb")), 6))
    );
    assert_eq!(
        parse_response(b"+\r\n"),
        Ok(Decoded::Complete(Response::SimpleString(String::new()), 3))
    );
}

#[test]
fn line_ends_are_found_from_any_place() {
    assert_eq!(read_to_carriage_return(b"abc\r\ndef\r\n", 0), Some(3));
    assert_eq!(read_to_carriage_return(b"abc\r\ndef\r\n", 3), Some(3));
    assert_eq!(read_to_carriage_return(b"abc\r\ndef\r\n", 4), Some(8));
    assert_eq!(read_to_carriage_return(b"abc\r\ndef\r\n", 9), None);
    assert_eq!(read_to_carriage_return(b"abc\r", 0), None);
    assert_eq!(read_to_carriage_return(b"a\rb\r\n", 0), Some(3));
    assert_eq!(read_to_carriage_return(b"", 0), None);
    assert_eq!(read_to_carriage_return(b"\r\n", 7), None);
}

#[test]
fn a_reply_that_is_cut_short_is_no_error() {
    assert_eq!(parse_response(b"$5\r\nfo"), Ok(Decoded::NeedMoreBytes));
    assert!(parse_response(b"$5\r\nfo").is_ok());
    assert_eq!(parse_response("".as_bytes()), Ok(Decoded::NeedMoreBytes));
    assert_eq!(parse_response("+OK".as_bytes()), Ok(Decoded::NeedMoreBytes));
    assert_eq!(
        parse_response(b"$5\r\nfooba\r\n"),
        Ok(Decoded::Complete(bulk("fooba"), 11))
    );
}

#[test]
fn what_is_malformed_is_a_parse_error_with_its_message() {
    assert_eq!(
        parse_response(b"?what\r\n"),
        Err(RedisParseError {
            fault: Fault::UnexpectedByte(b'?'),
            contents: String::from("unexpected byte in response"),
        })
    );
    assert_eq!(
        parse_response(b":ten\r\n"),
        Err(RedisParseError {
            fault: Fault::BadInteger,
            contents: String::from("Error parsing field as integer"),
        })
    );
}

#[test]
fn each_fault_has_its_message() {
    assert_eq!(
        RedisParseError::new(Fault::MismatchedQuotes).contents,
        "Bad request format, Mismatch quotes"
    );
    assert_eq!(
        RedisParseError::new(Fault::UnexpectedByte(7)).contents,
        "unexpected byte in response"
    );
    assert_eq!(
        RedisParseError::new(Fault::BadInteger).contents,
        "Error parsing field as integer"
    );
    assert_eq!(RedisParseError::new(Fault::BadLength).contents, "Error parsing field as length");
    assert_eq!(
        RedisParseError::new(Fault::BadTerminator).contents,
        "Bulk string is not followed by a line terminator"
    );
    assert_eq!(RedisParseError::new(Fault::BadText).contents, "Text in response is not UTF-8");
    assert_eq!(RedisParseError::new(Fault::BadText).fault, Fault::BadText);
    assert_eq!(parse_response(b"$3\r\nfooXY").unwrap_err().contents, "Bulk string is not followed by a line terminator");
    assert_eq!(parse_response(b"$x\r\n").unwrap_err().contents, "Error parsing field as length");
    let bad: Vec<u8> = vec![b'+', 0xff, b'\r', b'\n'];
    assert_eq!(parse_response(&bad).unwrap_err().contents, "Text in response is not UTF-8");
}

#[test]
fn quoted_text_is_one_token() {
    let tokens = tokenize(b"SET key 'a value with spaces'").unwrap();
    assert_eq!(
        tokens,
        vec![b"SET".to_vec(), b"key".to_vec(), b"a value with spaces".to_vec()]
    );
    assert_eq!(tokens.len(), 3);
    assert_eq!(
        parse_command("SET key 'a value with spaces'").unwrap(),
        b"*3\r\n$3\r\nSET\r\n$3\r\nkey\r\n$19\r\na value with spaces\r\n".to_vec()
    );
}

#[test]
fn an_unterminated_quote_is_a_parse_error() {
    let expected = RedisParseError {
        fault: Fault::MismatchedQuotes,
        contents: String::from("Bad request format, Mismatch quotes"),
    };
    assert_eq!(tokenize(b"SET key 'oops"), Err(expected.clone()));
    assert_eq!(encode(b"SET key 'oops"), Err(expected.clone()));
    assert_eq!(parse_command("SET key 'oops"), Err(RedisError::ParseError(expected.clone())));
    assert_eq!(parse_command("'"), Err(RedisError::ParseError(expected.clone())));
    assert_eq!(parse_command("a 'b' 'c"), Err(RedisError::ParseError(expected)));
}

#[test]
fn encoding_fails_exactly_on_an_odd_number_of_quotes() {
    let lines: Vec<&str> = vec![
        "", " ", "GET FOO", "'", "''", "'''", "a'b", "a'b'", "a 'b' 'c", "a 'b' 'c'", "'a' 'b'",
        "it's", "'it''s'", "  'x y'  z ", "''''",
    ];
    for line in lines {
        let quotes = line.bytes().filter(|b| *b == b'\'').count();
        assert_eq!(parse_command(line).is_ok(), quotes % 2 == 0, "{:?}", line);
    }
}

#[test]
fn no_tokens_still_make_a_request() {
    assert_eq!(parse_command("").unwrap(), b"*0\r\n".to_vec());
    assert_eq!(parse_command("   ").unwrap(), b"*0\r\n".to_vec());
    assert_eq!(tokenize(b"").unwrap(), Vec::<Vec<u8>>::new());
    assert_eq!(encode_tokens(&Vec::new()), b"*0\r\n".to_vec());
}

#[test]
fn spaces_part_tokens_and_never_make_one() {
    assert_eq!(tokenize(b"GET  FOO").unwrap(), vec![b"GET".to_vec(), b"FOO".to_vec()]);
    assert_eq!(tokenize(b"  GET FOO  ").unwrap(), vec![b"GET".to_vec(), b"FOO".to_vec()]);
    assert_eq!(
        tokenize(b"del a b ").unwrap(),
        vec![b"del".to_vec(), b"a".to_vec(), b"b".to_vec()]
    );
}

#[test]
fn quotes_are_never_part_of_a_token() {
    assert_eq!(tokenize(b"''").unwrap(), vec![Vec::<u8>::new()]);
    assert_eq!(
        tokenize(b"set k ''").unwrap(),
        vec![b"set".to_vec(), b"k".to_vec(), Vec::new()]
    );
    assert_eq!(tokenize(b"ab'cd'").unwrap(), vec![b"abcd".to_vec()]);
    assert_eq!(tokenize(b"'a'b").unwrap(), vec![b"a".to_vec(), b"b".to_vec()]);
    assert_eq!(tokenize(b"'a' b").unwrap(), vec![b"a".to_vec(), b"b".to_vec()]);
    assert_eq!(tokenize(b"' '").unwrap(), vec![b" ".to_vec()]);
    assert_eq!(
        tokenize(b"x 'a  b' 'c'").unwrap(),
        vec![b"x".to_vec(), b"a  b".to_vec(), b"c".to_vec()]
    );
    for token in tokenize(b"a'b c'd 'e' f''g").unwrap() {
        assert!(!token.contains(&b'\''));
    }
}

#[test]
fn no_command_name_is_looked_at() {
    assert_eq!(
        parse_command("FROBNICATE 1").unwrap(),
        b"*2\r\n$10\r\nFROBNICATE\r\n$1\r\n1\r\n".to_vec()
    );
    assert_eq!(parse_command("\r\n").unwrap(), b"*1\r\n$2\r\n\r\n\r\n".to_vec());
}

#[test]
fn token_lengths_are_counted_in_bytes() {
    assert_eq!(
        parse_command("echo h\u{e9}").unwrap(),
        "*2\r\n$4\r\necho\r\n$3\r\nh\u{e9}\r\n".as_bytes().to_vec()
    );
    let long = "x".repeat(1234);
    let mut expected = b"*1\r\n$1234\r\n".to_vec();
    expected.extend_from_slice(long.as_bytes());
    expected.extend_from_slice(b"\r\n");
    assert_eq!(encode(long.as_bytes()).unwrap(), expected);
}

#[test]
fn the_header_counts_the_tokens() {
    let mut line = String::new();
    for i in 0..123 {
        line.push_str(&format!("t{} ", i));
    }
    let encoded = parse_command(&line).unwrap();
    assert!(encoded.starts_with(b"*123\r\n$2\r\nt0\r\n"));
    assert_eq!(tokenize(line.as_bytes()).unwrap().len(), 123);
}

#[test]
fn decoding_a_request_gives_back_its_tokens() {
    let tokens: Vec<Vec<u8>> = vec![
        b"SET".to_vec(),
        Vec::new(),
        b"a value\r\nwith 'all' sorts".to_vec(),
        vec![0, 255, 13, 10],
    ];
    let wire = encode_tokens(&tokens);
    let expected = Response::Array(tokens.iter().map(|t| Response::BulkString(t.clone())).collect());
    assert_eq!(parse_response(&wire), Ok(Decoded::Complete(expected, wire.len())));

    let typed = parse_command("set key 'a value'").unwrap();
    assert_eq!(
        parse_response(&typed),
        Ok(Decoded::Complete(
            Response::Array(vec![bulk("set"), bulk("key"), bulk("a value")]),
            typed.len()
        ))
    );
}
