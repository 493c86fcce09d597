use invoker_manager::invoker::gateway::{Gateway, Headers, InputMessage, OutputMessage};
use invoker_manager::seconds::Seconds;
use invoker_manager::submission::Submission;
use invoker_manager::verdict::{TestResult, Verdict};

fn value_of(headers: &Headers, key: &str) -> Option<String> {
    headers.get(key).cloned()
}

#[test]
fn first_line_is_split_at_its_first_space() {
    let (key, value, rest) = Gateway::first_line_of_bytes(b"TYPE TOKEN\nID x\n");
    assert_eq!(key, "TYPE");
    assert_eq!(value, " TOKEN");
    assert_eq!(rest, b"ID x\n");
}

#[test]
fn first_line_without_line_feed_takes_everything() {
    let (key, value, rest) = Gateway::first_line_of_bytes(b"DATA");
    assert_eq!(key, "DATA");
    assert_eq!(value, "");
    assert_eq!(rest, b"");
}

#[test]
fn first_line_of_nothing_is_empty() {
    let (key, value, rest) = Gateway::first_line_of_bytes(b"");
    assert_eq!(key, "");
    assert_eq!(value, "");
    assert_eq!(rest, b"");
}

#[test]
fn first_line_is_trimmed_before_it_is_split() {
    let (key, value, rest) = Gateway::first_line_of_bytes(b"  KEY   value  \r\nrest");
    assert_eq!(key, "KEY");
    assert_eq!(value, "   value");
    assert_eq!(rest, b"rest");
}

#[test]
fn first_line_that_is_no_utf8_reads_undefined() {
    let (key, value, rest) = Gateway::first_line_of_bytes(b"\xff\xfe X\nrest");
    assert_eq!(key, "UNDEFINED");
    assert_eq!(value, "");
    assert_eq!(rest, b"rest");
}

#[test]
fn first_line_keeps_text_beyond_ascii() {
    let (key, value, rest) = Gateway::first_line_of_bytes("MESSAGE превышено время\nDATA\n".as_bytes());
    assert_eq!(key, "MESSAGE");
    assert_eq!(value, " превышено время");
    assert_eq!(rest, b"DATA\n");
}

#[test]
fn headers_end_at_the_data_line() {
    let frame = b"TYPE TEST\nID 2\nVERDICT OK\nTIME 0.10\nMEMORY 2048\nDATA\noutput\nmore".to_vec();
    let (headers, data) = Gateway::parse_headers(frame);
    assert_eq!(value_of(&headers, "TYPE"), Some("TEST".to_string()));
    assert_eq!(value_of(&headers, "ID"), Some("2".to_string()));
    assert_eq!(value_of(&headers, "VERDICT"), Some("OK".to_string()));
    assert_eq!(value_of(&headers, "TIME"), Some("0.10".to_string()));
    assert_eq!(value_of(&headers, "MEMORY"), Some("2048".to_string()));
    assert_eq!(value_of(&headers, "DATA"), None);
    assert_eq!(value_of(&headers, "output"), None);
    assert_eq!(data, b"output\nmore");
}

#[test]
fn headers_without_data_line_have_no_payload() {
    let (headers, data) = Gateway::parse_headers(b"TYPE STOP\n".to_vec());
    assert_eq!(value_of(&headers, "TYPE"), Some("STOP".to_string()));
    assert_eq!(data, b"");
}

#[test]
fn a_later_header_replaces_an_earlier_one() {
    let (headers, _) = Gateway::parse_headers(b"A 1\nB x\nA 2\n".to_vec());
    assert_eq!(value_of(&headers, "A"), Some("2".to_string()));
    assert_eq!(value_of(&headers, "B"), Some("x".to_string()));
}

#[test]
fn header_values_are_trimmed_and_may_hold_spaces() {
    let (headers, _) = Gateway::parse_headers(b"MESSAGE   wrong  answer \nEMPTY\n".to_vec());
    assert_eq!(value_of(&headers, "MESSAGE"), Some("wrong  answer".to_string()));
    assert_eq!(value_of(&headers, "EMPTY"), Some("".to_string()));
}

#[test]
fn payload_is_kept_byte_for_byte() {
    let (headers, data) = Gateway::parse_headers(b"TYPE SIGNED\nDATA\n\x00\xff\nDATA\n\n".to_vec());
    assert_eq!(value_of(&headers, "TYPE"), Some("SIGNED".to_string()));
    assert_eq!(data, b"\x00\xff\nDATA\n\n");
}

#[test]
fn headers_of_nothing_are_none() {
    let (headers, data) = Gateway::parse_headers(Vec::new());
    assert_eq!(value_of(&headers, "TYPE"), None);
    assert_eq!(value_of(&headers, ""), None);
    assert_eq!(data, b"");
}

#[test]
fn headers_insert_and_get() {
    let mut headers = Headers::new();
    assert_eq!(headers.get("A"), None);
    headers.insert("A".to_string(), "1".to_string());
    headers.insert("A".to_string(), "2".to_string());
    assert_eq!(headers.get("A"), Some(&"2".to_string()));
    assert_eq!(headers.get("a"), None);
}

#[test]
fn to_vec_u8_reads_one_number_per_line() {
    assert_eq!(Gateway::to_vec_u8(b"1\n2\r\n300\nx\n\n7".to_vec()), Ok(vec![1, 2, 0, 0, 0, 7]));
    assert_eq!(Gateway::to_vec_u8(b"".to_vec()), Ok(vec![]));
    assert_eq!(Gateway::to_vec_u8(b"\n".to_vec()), Ok(vec![0]));
    assert_eq!(Gateway::to_vec_u8(b"255\n".to_vec()), Ok(vec![255]));
    assert_eq!(Gateway::to_vec_u8(b"5\r".to_vec()), Ok(vec![0]));
}

#[test]
fn to_vec_u8_refuses_what_is_no_utf8() {
    assert_eq!(
        Gateway::to_vec_u8(b"1\n\xff\n".to_vec()),
        Err("Bytes couldn't be parsed to string".to_string())
    );
}

#[test]
fn to_vec_u8_agrees_with_the_standard_library() {
    let samples = ["", "\n", "\r\n", "1", "1\n", "1\r\n2", "a\rb\n3", "\n\n4\n", "+5\n 6\n7 \n", "256\n0\n"];
    for sample in samples {
        let expected: Vec<u8> = sample.lines().map(|line| line.parse::<u8>().unwrap_or(0)).collect();
        assert_eq!(Gateway::to_vec_u8(sample.as_bytes().to_vec()), Ok(expected), "{:?}", sample);
    }
}

#[test]
fn token_carries_uuid_and_key() {
    let frame = b"TYPE TOKEN\nID 936da01f-9abd-4d9d-80c7-02af85c822a8\nKEY secret\n".to_vec();
    assert_eq!(
        InputMessage::parse_from(frame),
        Ok(InputMessage::Token {
            uuid: 0x936da01f9abd4d9d80c702af85c822a8,
            key: "secret".to_string()
        })
    );
}

#[test]
fn token_uuid_is_read_in_every_form() {
    for id in [
        "936DA01F9ABD4D9D80C702AF85C822A8",
        "{936da01f-9abd-4d9d-80c7-02af85c822a8}",
        "urn:uuid:936da01f-9abd-4d9d-80c7-02af85c822a8",
    ] {
        let frame = format!("TYPE TOKEN\nID {}\n", id).into_bytes();
        assert_eq!(
            InputMessage::parse_from(frame),
            Ok(InputMessage::Token { uuid: 0x936da01f9abd4d9d80c702af85c822a8, key: String::new() })
        );
    }
}

#[test]
fn token_without_uuid_gets_a_random_one() {
    let first = InputMessage::parse_from(b"TYPE TOKEN\nID nonsense\nKEY k\n".to_vec());
    let second = InputMessage::parse_from(b"TYPE TOKEN\nKEY k\n".to_vec());
    match (first, second) {
        (
            Ok(InputMessage::Token { uuid: a, key: key_a }),
            Ok(InputMessage::Token { uuid: b, key: key_b }),
        ) => {
            assert_eq!(key_a, "k");
            assert_eq!(key_b, "k");
            assert_ne!(a, b);
        },
        other => panic!("not two tokens: {:?}", other),
    }
}

#[test]
fn from_headers_uses_the_fallback_only_without_uuid() {
    let (headers, data) = Gateway::parse_headers(b"TYPE TOKEN\nID nonsense\n".to_vec());
    assert_eq!(
        InputMessage::from_headers(&headers, data, 42),
        Ok(InputMessage::Token { uuid: 42, key: String::new() })
    );
    let (headers, data) =
        Gateway::parse_headers(b"TYPE TOKEN\nID 00000000-0000-0000-0000-000000000007\n".to_vec());
    assert_eq!(
        InputMessage::from_headers(&headers, data, 42),
        Ok(InputMessage::Token { uuid: 7, key: String::new() })
    );
}

#[test]
fn signed_carries_the_payload() {
    assert_eq!(
        InputMessage::parse_from(b"TYPE SIGNED\nDATA\n\x01\x02\n\x03".to_vec()),
        Ok(InputMessage::Signed { signature: vec![1, 2, 10, 3] })
    );
}

#[test]
fn verdict_ok_carries_sum_and_groups() {
    assert_eq!(
        InputMessage::parse_from(b"TYPE VERDICT\nNAME OK\nSUM 100\nGROUPS 10 20  70\n".to_vec()),
        Ok(InputMessage::Verdict { verdict: Verdict::OK, message: Ok((100, vec![10, 20, 0, 70])) })
    );
}

#[test]
fn verdict_ok_defaults_to_zero() {
    assert_eq!(
        InputMessage::parse_from(b"TYPE VERDICT\nNAME OK\n".to_vec()),
        Ok(InputMessage::Verdict { verdict: Verdict::OK, message: Ok((0, vec![0])) })
    );
    assert_eq!(
        InputMessage::parse_from(b"TYPE VERDICT\nNAME OK\nSUM 256\nGROUPS a 300 -1 7\n".to_vec()),
        Ok(InputMessage::Verdict { verdict: Verdict::OK, message: Ok((0, vec![0, 0, 0, 7])) })
    );
    assert_eq!(
        InputMessage::parse_from(b"TYPE VERDICT\nNAME OK\nSUM\nGROUPS\n".to_vec()),
        Ok(InputMessage::Verdict { verdict: Verdict::OK, message: Ok((0, vec![0])) })
    );
}

#[test]
fn verdict_other_than_ok_carries_the_message() {
    assert_eq!(
        InputMessage::parse_from(b"TYPE VERDICT\nNAME WA\nMESSAGE diff\nSUM 5\n".to_vec()),
        Ok(InputMessage::Verdict { verdict: Verdict::WA, message: Err("diff".to_string()) })
    );
    assert_eq!(
        InputMessage::parse_from(b"TYPE VERDICT\nNAME CE\n".to_vec()),
        Ok(InputMessage::Verdict {
            verdict: Verdict::CE,
            message: Err("Undefined error message".to_string())
        })
    );
}

#[test]
fn verdict_with_unknown_name_is_uv() {
    assert_eq!(
        InputMessage::parse_from(b"TYPE VERDICT\nNAME fine\nMESSAGE m\n".to_vec()),
        Ok(InputMessage::Verdict { verdict: Verdict::UV, message: Err("m".to_string()) })
    );
    assert_eq!(
        InputMessage::parse_from(b"TYPE VERDICT\n".to_vec()),
        Ok(InputMessage::Verdict {
            verdict: Verdict::UV,
            message: Err("Undefined error message".to_string())
        })
    );
}

#[test]
fn test_frame_carries_result_number_and_output() {
    let frame = b"TYPE TEST\nID 2\nVERDICT OK\nTIME 0.12\nMEMORY 2100\nDATA\nhello\n".to_vec();
    assert_eq!(
        InputMessage::parse_from(frame),
        Ok(InputMessage::TestVerdict {
            result: TestResult {
                verdict: Verdict::OK,
                time: Seconds::parse("0.12").unwrap(),
                memory: 2100
            },
            test: 2,
            data: b"hello\n".to_vec()
        })
    );
}

#[test]
fn test_frame_defaults() {
    assert_eq!(
        InputMessage::parse_from(b"TYPE TEST\n".to_vec()),
        Ok(InputMessage::TestVerdict {
            result: TestResult { verdict: Verdict::UV, time: Seconds::zero(), memory: 0 },
            test: 0,
            data: Vec::new()
        })
    );
    assert_eq!(
        InputMessage::parse_from(
            b"TYPE TEST\nID 70000\nVERDICT ok\nTIME fast\nMEMORY -1\nUNKNOWN x\n".to_vec()
        ),
        Ok(InputMessage::TestVerdict {
            result: TestResult { verdict: Verdict::UV, time: Seconds::zero(), memory: 0 },
            test: 0,
            data: Vec::new()
        })
    );
    assert_eq!(
        InputMessage::parse_from(b"TYPE TEST\nID 0\nMEMORY 4294967295\n".to_vec()),
        Ok(InputMessage::TestVerdict {
            result: TestResult { verdict: Verdict::UV, time: Seconds::zero(), memory: 4294967295 },
            test: 0,
            data: Vec::new()
        })
    );
    assert_eq!(
        InputMessage::parse_from(
            b"TYPE TEST\nID abc\nVERDICT OK\nTIME x\nMEMORY -1\nDATA\n".to_vec()
        ),
        Ok(InputMessage::TestVerdict {
            result: TestResult { verdict: Verdict::OK, time: Seconds::zero(), memory: 0 },
            test: 0,
            data: Vec::new()
        })
    );
}

#[test]
fn exited_carries_code_and_message() {
    assert_eq!(
        InputMessage::parse_from(b"TYPE EXITED\nCODE 3\nMESSAGE bye now\n".to_vec()),
        Ok(InputMessage::Exited { exit_code: "3".to_string(), exit_message: "bye now".to_string() })
    );
    assert_eq!(
        InputMessage::parse_from(b"TYPE EXITED\n".to_vec()),
        Ok(InputMessage::Exited { exit_code: "0".to_string(), exit_message: "0".to_string() })
    );
}

#[test]
fn error_and_operror_carry_the_message() {
    assert_eq!(
        InputMessage::parse_from(b"TYPE ERROR\nMESSAGE disk full\n".to_vec()),
        Ok(InputMessage::Error { message: "disk full".to_string() })
    );
    assert_eq!(
        InputMessage::parse_from(b"TYPE OPERROR\n".to_vec()),
        Ok(InputMessage::OpError { message: String::new() })
    );
}

#[test]
fn frame_without_type_is_refused() {
    for frame in [&b""[..], b"ID 1\n", b"DATA\nTYPE TEST\n", b"type TEST\n"] {
        assert_eq!(
            InputMessage::parse_from(frame.to_vec()),
            Err("Message doesn't contain TYPE header".to_string())
        );
    }
}

#[test]
fn frame_of_unknown_type_is_refused() {
    for frame in [&b"TYPE START\n"[..], b"TYPE token\n", b"TYPE\n", b"TYPE TEST TEST\n"] {
        assert_eq!(InputMessage::parse_from(frame.to_vec()), Err("Can't parse message".to_string()));
    }
}

#[test]
fn output_frames_are_written_as_the_protocol_says() {
    assert_eq!(
        OutputMessage::Challenge { nonce: vec![0, 10, 255] }.parse_to(),
        b"TYPE CHALLENGE\nDATA\n\x00\n\xff"
    );
    assert_eq!(OutputMessage::Auth { ok: true }.parse_to(), b"TYPE AUTH\nOK 1\nDATA\n");
    assert_eq!(OutputMessage::Auth { ok: false }.parse_to(), b"TYPE AUTH\nOK 0\nDATA\n");
    assert_eq!(
        OutputMessage::TestSubmission { submission: Submission::new(1, b"blob".to_vec(), 3) }
            .parse_to(),
        b"TYPE START\nDATA\nblob"
    );
    assert_eq!(OutputMessage::StopTesting.parse_to(), b"TYPE STOP\nDATA\n");
    assert_eq!(OutputMessage::CloseInvoker.parse_to(), b"TYPE CLOSE\nDATA\n");
}

#[test]
fn output_frames_read_back_with_the_header_reader() {
    let (headers, data) = Gateway::parse_headers(OutputMessage::Auth { ok: true }.parse_to());
    assert_eq!(value_of(&headers, "TYPE"), Some("AUTH".to_string()));
    assert_eq!(value_of(&headers, "OK"), Some("1".to_string()));
    assert_eq!(data, b"");
    let (headers, data) =
        Gateway::parse_headers(OutputMessage::Challenge { nonce: vec![7, 8, 9] }.parse_to());
    assert_eq!(value_of(&headers, "TYPE"), Some("CHALLENGE".to_string()));
    assert_eq!(data, vec![7, 8, 9]);
}

#[test]
fn frames_read_back_as_they_were_written() {
    let cases: Vec<(String, InputMessage)> = vec![
        (
            "TYPE TOKEN\nID 936da01f-9abd-4d9d-80c7-02af85c822a8\nKEY k-1\nDATA\n".to_string(),
            InputMessage::Token { uuid: 0x936da01f9abd4d9d80c702af85c822a8, key: "k-1".to_string() },
        ),
        (
            "TYPE VERDICT\nNAME OK\nSUM 255\nGROUPS 0 255 17\nDATA\n".to_string(),
            InputMessage::Verdict { verdict: Verdict::OK, message: Ok((255, vec![0, 255, 17])) },
        ),
        (
            "TYPE VERDICT\nNAME TL\nMESSAGE time is up\nDATA\n".to_string(),
            InputMessage::Verdict { verdict: Verdict::TL, message: Err("time is up".to_string()) },
        ),
        (
            "TYPE TEST\nID 65535\nVERDICT RE\nTIME 1e-3\nMEMORY 4294967295\nDATA\nout".to_string(),
            InputMessage::TestVerdict {
                result: TestResult {
                    verdict: Verdict::RE,
                    time: Seconds::parse("1e-3").unwrap(),
                    memory: 4294967295,
                },
                test: 65535,
                data: b"out".to_vec(),
            },
        ),
        (
            "TYPE EXITED\nCODE 137\nMESSAGE killed\nDATA\n".to_string(),
            InputMessage::Exited { exit_code: "137".to_string(), exit_message: "killed".to_string() },
        ),
        (
            "TYPE ERROR\nMESSAGE \nDATA\n".to_string(),
            InputMessage::Error { message: String::new() },
        ),
        (
            "TYPE OPERROR\nMESSAGE no space left\nDATA\n".to_string(),
            InputMessage::OpError { message: "no space left".to_string() },
        ),
    ];
    for (frame, message) in cases {
        assert_eq!(InputMessage::parse_from(frame.into_bytes()), Ok(message));
    }
}

#[test]
fn invoker_gateway_reads_and_writes_frames() {
    assert_eq!(
        Gateway::read_message_from(b"TYPE ERROR\nMESSAGE m\n".to_vec()),
        Ok(InputMessage::Error { message: "m".to_string() })
    );
    assert_eq!(
        Gateway::read_message_from(b"MESSAGE m\n".to_vec()),
        Err("Message doesn't contain TYPE header".to_string())
    );
    assert_eq!(Gateway::send_message_to(&OutputMessage::StopTesting), b"TYPE STOP\nDATA\n");
}

#[test]
fn token_takes_the_fallback_only_without_a_uuid() {
    assert_eq!(
        InputMessage::token(Some(5), 9, "k".to_string()),
        InputMessage::Token { uuid: 5, key: "k".to_string() }
    );
    assert_eq!(
        InputMessage::token(None, 9, String::new()),
        InputMessage::Token { uuid: 9, key: String::new() }
    );
}

#[test]
fn the_text_of_a_uuid_reads_back_as_the_uuid() {
    for uuid in [0u128, 1, 0x936da01f9abd4d9d80c702af85c822a8, u128::MAX, 1 << 127] {
        let refusal = invoker_manager::invoker::no_such_invoker(uuid);
        let text = &refusal["Invoker ".len()..refusal.len() - " doesn't exist".len()];
        let frame = format!("TYPE TOKEN\nID {}\nKEY k\nDATA\n", text).into_bytes();
        assert_eq!(
            InputMessage::parse_from(frame),
            Ok(InputMessage::Token { uuid, key: "k".to_string() })
        );
    }
}
