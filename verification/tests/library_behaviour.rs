use bytes::{BufMut, BytesMut};
use kintoun::cmd::{Command, ParseError};
use kintoun::executor::{execute, ExecuteError, ExecuteResult};
use kintoun::format::{format_error, format_result};
use kintoun::message::ErrorMessage;
use kintoun::repl::{respond_line, run, ReplError, PROMPT};
use kintoun::server::codec::{CodecError, Frame, FrameCodec, MAX_FRAME_SIZE};
use kintoun::server::connection::{handle_frame, process_line, utf8_text};
use kintoun::storage::{InMemoryStorage, Mutation, MutationOutcome, Storage, StorageError, StoredValue};
use kintoun::text::{decimal_string, lowercase_is, parse_u64_text, word_spans, IntError};

fn session(input: &[u8]) -> (Result<(), ReplError>, String) {
    let mut output: Vec<u8> = Vec::new();
    let mut storage = InMemoryStorage::new();
    let result = run(input, &mut output, &mut storage);
    (result, String::from_utf8(output).unwrap())
}

#[test]
fn session_output_is_exact() {
    let (result, out) = session(b"set a 1\nincr a 41\nget a\nget b\n");
    assert_eq!(result, Ok(()));
    assert_eq!(out, "> OK\n> 42\n> 42\n> (nil)\n> ");
}

#[test]
fn session_last_line_without_newline_is_answered() {
    let (result, out) = session(b"set k v\nget k");
    assert_eq!(result, Ok(()));
    assert_eq!(out, "> OK\n> \"v\"\n> ");
}

#[test]
fn session_whitespace_only_line_gets_no_answer() {
    let (result, out) = session(b"  \t \nexists k\n");
    assert_eq!(result, Ok(()));
    assert_eq!(out, "> > 0\n> ");
}

#[test]
fn session_stops_at_invalid_utf8_line() {
    let (result, out) = session(b"set k v\n\xff\xfe\nget k\n");
    assert_eq!(result, Err(ReplError::InvalidUtf8));
    assert_eq!(out, "> OK\n> ");
}

#[test]
fn session_reports_each_error_and_goes_on() {
    let (result, out) = session(b"bogus\nget\nset s x\nincr s\ndecr n\n");
    assert_eq!(result, Ok(()));
    assert_eq!(
        out,
        "> ERR unknown command: bogus\n> ERR missing argument: key\n> OK\n> ERR not an integer\n> ERR counter underflow\n> "
    );
}

#[test]
fn prompt_is_angle_and_space() {
    assert_eq!(PROMPT, "> ");
}

#[test]
fn respond_line_skips_blank_and_answers_others() {
    let mut storage = InMemoryStorage::new();
    assert_eq!(respond_line("   ", &mut storage), None);
    assert_eq!(respond_line("get x", &mut storage), Some("(nil)\n".to_string()));
    assert_eq!(respond_line("incr x 3", &mut storage), Some("3\n".to_string()));
}

#[test]
fn format_error_covers_every_parse_error() {
    assert_eq!(format_error(&ParseError::Empty), "ERR empty input");
    assert_eq!(format_error(&ParseError::MissingArg("key")), "ERR missing argument: key");
    assert_eq!(
        format_error(&ParseError::UnknownCommand("Foo".to_string())),
        "ERR unknown command: Foo"
    );
    assert_eq!(format_error(&ParseError::TooManyArgs("get")), "ERR too many arguments: get");
}

#[test]
fn invalid_amount_message_quotes_the_input() {
    let err: ParseError = "incr c x\"y".parse::<Command>().unwrap_err();
    assert_eq!(
        err,
        ParseError::InvalidAmount {
            input: "x\"y".to_string(),
            reason: "invalid digit found in string".to_string()
        }
    );
    assert_eq!(err.message(), "invalid amount \"x\\\"y\": invalid digit found in string");
}

#[test]
fn invalid_amount_reasons_follow_parse_int() {
    match "incr c 18446744073709551616".parse::<Command>() {
        Err(ParseError::InvalidAmount { reason, .. }) => {
            assert_eq!(reason, "number too large to fit in target type")
        }
        other => panic!("got {other:?}"),
    }
    match "decr c +".parse::<Command>() {
        Err(ParseError::InvalidAmount { reason, .. }) => {
            assert_eq!(reason, "invalid digit found in string")
        }
        other => panic!("got {other:?}"),
    }
}

#[test]
fn amount_accepts_leading_plus_and_max() {
    assert_eq!(
        "incr c +7".parse::<Command>(),
        Ok(Command::Incr { key: "c".to_string(), by: 7 })
    );
    assert_eq!(
        "decr c 18446744073709551615".parse::<Command>(),
        Ok(Command::Decr { key: "c".to_string(), by: u64::MAX })
    );
}

#[test]
fn format_error_covers_every_storage_error() {
    assert_eq!(format_error(&StorageError::NotAnInteger), "ERR not an integer");
    assert_eq!(format_error(&StorageError::Overflow), "ERR counter overflow");
    assert_eq!(format_error(&StorageError::Underflow), "ERR counter underflow");
    assert_eq!(
        format_error(&ExecuteError::from(StorageError::Overflow)),
        "ERR counter overflow"
    );
}

#[test]
fn from_text_types_only_plain_numerals() {
    assert_eq!(StoredValue::from_text("5"), StoredValue::Int(5));
    assert_eq!(StoredValue::from_text("0"), StoredValue::Int(0));
    assert_eq!(StoredValue::from_text("18446744073709551615"), StoredValue::Int(u64::MAX));
    assert_eq!(StoredValue::from_text("-5"), StoredValue::Str("-5".to_string()));
    assert_eq!(StoredValue::from_text("1.5"), StoredValue::Str("1.5".to_string()));
    assert_eq!(StoredValue::from_text("0x10"), StoredValue::Str("0x10".to_string()));
    assert_eq!(StoredValue::from_text("+5"), StoredValue::Str("+5".to_string()));
    assert_eq!(
        StoredValue::from_text("18446744073709551616"),
        StoredValue::Str("18446744073709551616".to_string())
    );
    assert_eq!(StoredValue::from_text(""), StoredValue::Str(String::new()));
}

#[test]
fn decimal_text_round_trips() {
    for n in [0u64, 7, 10, 99, 100, 12345, u64::MAX] {
        let text = decimal_string(n);
        assert_eq!(text, n.to_string());
        assert_eq!(parse_u64_text(&text), Ok(n));
        assert_eq!(StoredValue::from_text(&text), StoredValue::Int(n));
    }
}

#[test]
fn parse_u64_text_errors() {
    assert_eq!(parse_u64_text(""), Err(IntError::Empty));
    assert_eq!(parse_u64_text("+"), Err(IntError::InvalidDigit));
    assert_eq!(parse_u64_text("1a"), Err(IntError::InvalidDigit));
    assert_eq!(parse_u64_text("99999999999999999999"), Err(IntError::PosOverflow));
    assert_eq!(parse_u64_text("+42"), Ok(42));
}

#[test]
fn word_spans_follow_split_whitespace() {
    assert_eq!(word_spans("  ab\tc  d "), vec![(2, 4), (5, 6), (8, 9)]);
    assert_eq!(word_spans(""), Vec::<(usize, usize)>::new());
    assert_eq!(word_spans("\u{3000}x\u{a0}"), vec![(1, 2)]);
}

#[test]
fn lowercase_is_folds_ascii_only() {
    assert!(lowercase_is("SeT", "set"));
    assert!(!lowercase_is("set", "SET"));
    assert!(!lowercase_is("sets", "set"));
    assert!(!lowercase_is("ſet", "set"));
}

#[test]
fn verb_folding_keeps_keys_case() {
    assert_eq!(
        "SET Key Value".parse::<Command>(),
        Ok(Command::SetValue { key: "Key".to_string(), value: "Value".to_string() })
    );
    assert_eq!(
        "EXISTS Key".parse::<Command>(),
        Ok(Command::Exists { key: "Key".to_string() })
    );
}

#[test]
fn incr_then_decr_restores_counter() {
    let mut storage = InMemoryStorage::new();
    storage.apply(Mutation::SetValue { key: "c".to_string(), value: 10.into() }).unwrap();
    assert_eq!(
        storage.apply(Mutation::Incr { key: "c".to_string(), by: 5 }),
        Ok(MutationOutcome::Counter { new_value: 15 })
    );
    assert_eq!(
        storage.apply(Mutation::Decr { key: "c".to_string(), by: 5 }),
        Ok(MutationOutcome::Counter { new_value: 10 })
    );
    assert_eq!(storage.read("c"), Some(StoredValue::Int(10)));
}

#[test]
fn del_twice_is_same_as_once() {
    let mut storage = InMemoryStorage::new();
    storage.apply(Mutation::SetValue { key: "k".to_string(), value: "v".into() }).unwrap();
    assert_eq!(storage.apply(Mutation::Del { key: "k".to_string() }), Ok(MutationOutcome::Deleted));
    assert_eq!(storage.apply(Mutation::Del { key: "k".to_string() }), Ok(MutationOutcome::Deleted));
    assert!(!storage.contains_key("k"));
}

#[test]
fn reads_leave_store_unchanged() {
    let mut storage = InMemoryStorage::new();
    execute(&mut storage, Command::Get { key: "k".to_string() }).unwrap();
    execute(&mut storage, Command::Exists { key: "k".to_string() }).unwrap();
    assert!(!storage.contains_key("k"));
}

#[test]
fn set_numeral_then_incr_counts_on() {
    let mut storage = InMemoryStorage::new();
    execute(&mut storage, Command::SetValue { key: "n".to_string(), value: "5".to_string() })
        .unwrap();
    assert_eq!(
        execute(&mut storage, Command::Incr { key: "n".to_string(), by: 1 }),
        Ok(ExecuteResult::Mutation(MutationOutcome::Counter { new_value: 6 }))
    );
}

#[test]
fn rendering_distinguishes_missing_from_empty_text() {
    assert_eq!(format_result(&ExecuteResult::Read(None)), "(nil)");
    assert_eq!(
        format_result(&ExecuteResult::Read(Some(StoredValue::Str(String::new())))),
        "\"\""
    );
    assert_eq!(format_result(&ExecuteResult::Read(Some(StoredValue::Str("7".to_string())))), "\"7\"");
    assert_eq!(format_result(&ExecuteResult::Read(Some(StoredValue::Int(7)))), "7");
}

#[test]
fn process_line_answers_one_command() {
    let mut storage = InMemoryStorage::new();
    assert_eq!(process_line("set k v", &mut storage), "OK");
    assert_eq!(process_line("GET k", &mut storage), "\"v\"");
    assert_eq!(process_line("", &mut storage), "ERR empty input");
    assert_eq!(process_line("get k extra", &mut storage), "ERR too many arguments: get");
}

#[test]
fn handle_frame_answers_utf8_and_refuses_other_bytes() {
    let mut storage = InMemoryStorage::new();
    let reply = handle_frame(&Frame::new(b"incr hits".to_vec()), &mut storage);
    assert_eq!(reply, Some(Frame::new(b"1".to_vec())));
    let reply = handle_frame(&Frame::new(b"get hits".to_vec()), &mut storage);
    assert_eq!(reply, Some(Frame::new(b"1".to_vec())));
    let reply = handle_frame(&Frame::new(vec![0xc3, 0x28]), &mut storage);
    assert_eq!(reply, None);
    assert_eq!(storage.read("hits"), Some(StoredValue::Int(1)));
}

#[test]
fn utf8_text_accepts_only_valid_utf8() {
    assert_eq!(utf8_text("héllo".as_bytes()), Some("héllo"));
    assert_eq!(utf8_text(&[0xff]), None);
    assert_eq!(utf8_text(&[]), Some(""));
}

#[test]
fn encode_writes_big_endian_length_then_payload() {
    let mut codec = FrameCodec;
    let mut buf = BytesMut::new();
    codec.encode(Frame::new(vec![9; 258]), &mut buf).unwrap();
    assert_eq!(&buf[..4], &[0, 0, 1, 2]);
    assert_eq!(buf.len(), 262);
}

#[test]
fn encode_appends_after_existing_bytes() {
    let mut codec = FrameCodec;
    let mut buf = BytesMut::new();
    buf.put_u8(7);
    codec.encode(Frame::new(b"ab".to_vec()), &mut buf).unwrap();
    assert_eq!(&buf[..], &[7, 0, 0, 0, 2, b'a', b'b']);
}

#[test]
fn oversize_encode_leaves_buffer_alone() {
    let mut codec = FrameCodec;
    let mut buf = BytesMut::new();
    buf.put_u8(1);
    match codec.encode(Frame::new(vec![0; MAX_FRAME_SIZE + 1]), &mut buf) {
        Err(CodecError::FrameTooLarge { size, max }) => {
            assert_eq!(size, MAX_FRAME_SIZE + 1);
            assert_eq!(max, MAX_FRAME_SIZE);
        }
        other => panic!("got {other:?}"),
    }
    assert_eq!(&buf[..], &[1]);
}

#[test]
fn decode_reports_declared_oversize_length() {
    let mut codec = FrameCodec;
    let mut buf = BytesMut::new();
    buf.put_u32(u32::MAX);
    match codec.decode(&mut buf) {
        Err(CodecError::FrameTooLarge { size, max }) => {
            assert_eq!(size, u32::MAX as usize);
            assert_eq!(max, MAX_FRAME_SIZE);
        }
        other => panic!("got {other:?}"),
    }
}

#[test]
fn prefix_of_frame_waits_for_more() {
    let mut codec = FrameCodec;
    let mut full = BytesMut::new();
    codec.encode(Frame::new(b"hello".to_vec()), &mut full).unwrap();
    for k in 0..full.len() {
        let mut part = BytesMut::from(&full[..k]);
        assert_eq!(codec.decode(&mut part).unwrap(), None);
        assert_eq!(part.len(), k);
    }
}
