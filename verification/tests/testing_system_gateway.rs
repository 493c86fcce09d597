use invoker_manager::seconds::Seconds;
use invoker_manager::submission::Submission;
use invoker_manager::testing_system::gateway::{Gateway, InputMessage, OutputMessage};
use invoker_manager::verdict::{TestResult, Verdict};

const UUID: u128 = 0x936da01f9abd4d9d80c702af85c822a8;

fn result(verdict: Verdict, time: &str, memory: u32) -> TestResult {
    TestResult { verdict, time: Seconds::parse(time).unwrap(), memory }
}

#[test]
fn submission_frame_is_read_by_position() {
    let mut frame: Vec<u8> = (0u8..16).collect();
    frame.extend_from_slice(&[0x01, 0x02]);
    frame.extend_from_slice(b"archive");
    assert_eq!(
        InputMessage::try_from(frame),
        Ok(InputMessage::SubmissionRun {
            submission: Submission::new(
                0x000102030405060708090a0b0c0d0e0f,
                b"archive".to_vec(),
                258
            )
        })
    );
}

#[test]
fn submission_frame_may_have_no_data() {
    let mut frame = vec![0xffu8; 16];
    frame.extend_from_slice(&[0xff, 0xff]);
    assert_eq!(
        InputMessage::try_from(frame),
        Ok(InputMessage::SubmissionRun {
            submission: Submission::new(u128::MAX, Vec::new(), 65535)
        })
    );
}

#[test]
fn submission_frame_that_is_too_short_is_refused() {
    for length in [0usize, 1, 16, 17] {
        assert_eq!(
            InputMessage::try_from(vec![0u8; length]),
            Err("Frame is shorter than its fixed fields".to_string())
        );
    }
}

#[test]
fn submission_uuid_agrees_with_the_uuid_crate() {
    let bytes: [u8; 16] = [
        0x93, 0x6d, 0xa0, 0x1f, 0x9a, 0xbd, 0x4d, 0x9d, 0x80, 0xc7, 0x02, 0xaf, 0x85, 0xc8, 0x22, 0xa8,
    ];
    let mut frame = bytes.to_vec();
    frame.extend_from_slice(&[0, 3]);
    match InputMessage::try_from(frame) {
        Ok(InputMessage::SubmissionRun { submission }) => {
            assert_eq!(submission.uuid, uuid::Uuid::from_bytes(bytes).as_u128());
            assert_eq!(submission.uuid, UUID);
            assert_eq!(submission.tests_count, 3);
        },
        other => panic!("refused: {:?}", other),
    }
}

#[test]
fn test_frame_is_written_as_the_protocol_says() {
    let frame = OutputMessage::TestVerdict {
        submission_uuid: UUID,
        test: 1,
        result: result(Verdict::OK, "0.10", 2048),
        data: b"out\n\x00".to_vec(),
    };
    assert_eq!(
        frame.to_bytes(),
        b"TYPE TEST\nSUBMISSION 936da01f-9abd-4d9d-80c7-02af85c822a8\nTEST 1\nVERDICT OK 0.10 2048\nDATA\nout\n\x00"
    );
}

#[test]
fn successful_verdict_frame_lists_sum_groups_and_results() {
    let frame = OutputMessage::SubmissionVerdict {
        submission_uuid: UUID,
        verdict: Verdict::OK,
        tests_result: vec![result(Verdict::OK, "0.1", 10), result(Verdict::WA, "0", 0)],
        message: Ok((100, vec![50, 0, 50])),
    };
    assert_eq!(
        frame.to_bytes(),
        b"TYPE VERDICT\nSUBMISSION 936da01f-9abd-4d9d-80c7-02af85c822a8\nVERDICT OK\nSUM 100\nGROUPS 50 0 50\nDATA\nOK 0.1 10\nWA 0 0\n"
    );
}

#[test]
fn failed_verdict_frame_carries_the_message() {
    let frame = OutputMessage::SubmissionVerdict {
        submission_uuid: 0,
        verdict: Verdict::TE,
        tests_result: Vec::new(),
        message: Err("queue full".to_string()),
    };
    assert_eq!(
        frame.to_bytes(),
        b"TYPE VERDICT\nSUBMISSION 00000000-0000-0000-0000-000000000000\nVERDICT TE\nMESSAGE queue full\nDATA\n"
    );
}

#[test]
fn verdict_frame_with_no_groups_has_an_empty_list() {
    let frame = OutputMessage::SubmissionVerdict {
        submission_uuid: u128::MAX,
        verdict: Verdict::OK,
        tests_result: Vec::new(),
        message: Ok((0, Vec::new())),
    };
    assert_eq!(
        frame.to_bytes(),
        b"TYPE VERDICT\nSUBMISSION ffffffff-ffff-ffff-ffff-ffffffffffff\nVERDICT OK\nSUM 0\nGROUPS \nDATA\n"
    );
}

#[test]
fn frames_spell_the_uuid_as_the_uuid_crate_does() {
    for value in [0u128, 1, UUID, u128::MAX, 0x0123456789abcdef0123456789abcdef] {
        let frame = OutputMessage::SubmissionVerdict {
            submission_uuid: value,
            verdict: Verdict::SK,
            tests_result: Vec::new(),
            message: Err(String::new()),
        };
        let expected = format!(
            "TYPE VERDICT\nSUBMISSION {}\nVERDICT SK\nMESSAGE \nDATA\n",
            uuid::Uuid::from_u128(value)
        );
        assert_eq!(frame.to_bytes(), expected.into_bytes());
    }
}

#[test]
fn testing_system_gateway_reads_and_writes_frames() {
    let mut frame = vec![0u8; 15];
    frame.extend_from_slice(&[9, 0, 1, b'x']);
    assert_eq!(
        Gateway::read_message_from(frame),
        Ok(InputMessage::SubmissionRun { submission: Submission::new(9, vec![b'x'], 1) })
    );
    assert_eq!(
        Gateway::read_message_from(Vec::new()),
        Err("Frame is shorter than its fixed fields".to_string())
    );
    let test = OutputMessage::TestVerdict {
        submission_uuid: 9,
        test: 2,
        result: result(Verdict::SK, "0", 0),
        data: Vec::new(),
    };
    assert_eq!(
        Gateway::send_message_to(&test),
        b"TYPE TEST\nSUBMISSION 00000000-0000-0000-0000-000000000009\nTEST 2\nVERDICT SK 0 0\nDATA\n"
    );
}
