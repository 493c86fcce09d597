use invoker_manager::invoker::gateway::InputMessage;
use invoker_manager::invoker::gateway::OutputMessage as ToInvoker;
use invoker_manager::invoker::Invoker;
use invoker_manager::invokers_side::InvokersSide;
use invoker_manager::seconds::Seconds;
use invoker_manager::server::{Outcome, Server};
use invoker_manager::submission::Submission;
use invoker_manager::testing_system::gateway::OutputMessage as ToTestingSystem;
use invoker_manager::testing_system_side::{Rejection, TestingSystemSide};
use invoker_manager::verdict::{TestResult, Verdict};
use std::collections::HashMap;

const INVOKER_A: u128 = 0xa;
const INVOKER_B: u128 = 0xb;
const S1: u128 = 0x51;
const S2: u128 = 0x52;

fn connected_server() -> Server {
    let mut server = Server::new();
    TestingSystemSide::start(&mut server);
    server
}

fn submission(uuid: u128, tests_count: u16) -> Submission {
    Submission::new(uuid, vec![uuid as u8], tests_count)
}

fn start_of(uuid: u128, tests_count: u16) -> Option<ToInvoker> {
    Some(ToInvoker::TestSubmission { submission: submission(uuid, tests_count) })
}

fn result(verdict: Verdict, time: &str, memory: u32) -> TestResult {
    TestResult { verdict, time: Seconds::parse(time).unwrap(), memory }
}

fn test_frame(test: u16, verdict: Verdict, time: &str, memory: u32) -> InputMessage {
    InputMessage::TestVerdict { result: result(verdict, time, memory), test, data: vec![test as u8] }
}

fn nothing() -> Outcome {
    Outcome { upstream: Vec::new(), downstream: None }
}

fn status(server: &Server) -> HashMap<u128, Option<u128>> {
    server.invokers_side().get_invokers_status()
}

fn failure(uuid: u128, tests_result: Vec<TestResult>, text: &str) -> ToTestingSystem {
    ToTestingSystem::SubmissionVerdict {
        submission_uuid: uuid,
        verdict: Verdict::TE,
        tests_result,
        message: Err(text.to_string()),
    }
}

#[test]
fn a_new_server_is_empty_and_has_no_link() {
    let server = Server::new();
    assert!(!server.testing_system_side().is_connected());
    assert_eq!(server.invokers_side().waiting_count(), 0);
    assert!(status(&server).is_empty());
    assert!(server.tests_results().is_empty());
}

#[test]
fn happy_path() {
    let mut server = connected_server();
    assert_eq!(InvokersSide::add_invoker(&mut server, INVOKER_A, "key".to_string()), nothing());
    assert_eq!(TestingSystemSide::add_submission(&mut server, submission(S1, 3)), Ok(()));
    assert_eq!(server.tests_results()[&S1].len(), 3);
    assert_eq!(Invoker::take_submission(&mut server, INVOKER_A), Ok(start_of(S1, 3)));
    assert_eq!(status(&server)[&INVOKER_A], Some(S1));

    let mut sent: Vec<Vec<u8>> = Vec::new();
    for frame in [
        test_frame(1, Verdict::OK, "0.10", 2048),
        test_frame(2, Verdict::OK, "0.12", 2100),
        test_frame(3, Verdict::WA, "0.09", 2000),
    ] {
        let (outcome, exit) = Invoker::message_handler(&mut server, INVOKER_A, frame);
        assert_eq!(exit, None);
        assert_eq!(outcome.downstream, None);
        assert_eq!(outcome.upstream.len(), 1);
        sent.push(outcome.upstream[0].to_bytes());
    }
    assert_eq!(
        sent[0],
        b"TYPE TEST\nSUBMISSION 00000000-0000-0000-0000-000000000051\nTEST 1\nVERDICT OK 0.10 2048\nDATA\n\x01"
    );
    assert_eq!(
        sent[1],
        b"TYPE TEST\nSUBMISSION 00000000-0000-0000-0000-000000000051\nTEST 2\nVERDICT OK 0.12 2100\nDATA\n\x02"
    );
    assert_eq!(
        sent[2],
        b"TYPE TEST\nSUBMISSION 00000000-0000-0000-0000-000000000051\nTEST 3\nVERDICT WA 0.09 2000\nDATA\n\x03"
    );

    let verdict = InputMessage::Verdict { verdict: Verdict::WA, message: Err("diff".to_string()) };
    let (outcome, exit) = Invoker::message_handler(&mut server, INVOKER_A, verdict);
    assert_eq!(exit, None);
    assert_eq!(outcome.downstream, None);
    assert_eq!(
        outcome.upstream,
        vec![ToTestingSystem::SubmissionVerdict {
            submission_uuid: S1,
            verdict: Verdict::WA,
            tests_result: vec![
                result(Verdict::OK, "0.10", 2048),
                result(Verdict::OK, "0.12", 2100),
                result(Verdict::WA, "0.09", 2000),
            ],
            message: Err("diff".to_string()),
        }]
    );
    assert_eq!(
        outcome.upstream[0].to_bytes(),
        b"TYPE VERDICT\nSUBMISSION 00000000-0000-0000-0000-000000000051\nVERDICT WA\nMESSAGE diff\nDATA\nOK 0.10 2048\nOK 0.12 2100\nWA 0.09 2000\n"
    );
    assert!(server.tests_results().is_empty());
    assert_eq!(status(&server)[&INVOKER_A], None);
}

#[test]
fn dispatch_race() {
    let mut server = connected_server();
    InvokersSide::add_invoker(&mut server, INVOKER_A, String::new());
    InvokersSide::add_invoker(&mut server, INVOKER_B, String::new());
    assert_eq!(TestingSystemSide::add_submission(&mut server, submission(S1, 1)), Ok(()));
    assert_eq!(TestingSystemSide::add_submission(&mut server, submission(S2, 1)), Ok(()));
    assert_eq!(Invoker::take_submission(&mut server, INVOKER_B), Ok(start_of(S1, 1)));
    assert_eq!(Invoker::take_submission(&mut server, INVOKER_A), Ok(start_of(S2, 1)));
    assert_eq!(
        Invoker::take_submission(&mut server, INVOKER_A),
        Err("Invoker already has submission and can't take new one.".to_string())
    );
    assert_eq!(
        Invoker::take_submission(&mut server, INVOKER_B),
        Err("Invoker already has submission and can't take new one.".to_string())
    );
    let bound = status(&server);
    assert_eq!(bound[&INVOKER_B], Some(S1));
    assert_eq!(bound[&INVOKER_A], Some(S2));
    assert_eq!(server.invokers_side().waiting_count(), 0);
}

#[test]
fn invoker_disconnect_mid_test() {
    let mut server = connected_server();
    InvokersSide::add_invoker(&mut server, INVOKER_A, String::new());
    TestingSystemSide::add_submission(&mut server, submission(S1, 2)).unwrap();
    Invoker::take_submission(&mut server, INVOKER_A).unwrap();
    let (outcome, _) =
        Invoker::message_handler(&mut server, INVOKER_A, test_frame(1, Verdict::OK, "0.5", 7));
    assert_eq!(
        outcome.upstream,
        vec![ToTestingSystem::TestVerdict {
            submission_uuid: S1,
            test: 1,
            result: result(Verdict::OK, "0.5", 7),
            data: vec![1],
        }]
    );
    let closed = Invoker::delete(&mut server, INVOKER_A).unwrap();
    assert_eq!(closed.downstream, None);
    assert_eq!(
        closed.upstream,
        vec![failure(S1, vec![result(Verdict::OK, "0.5", 7), TestResult::new()], "invoker disconnected")]
    );
    assert_eq!(
        closed.upstream[0].to_bytes(),
        b"TYPE VERDICT\nSUBMISSION 00000000-0000-0000-0000-000000000051\nVERDICT TE\nMESSAGE invoker disconnected\nDATA\nOK 0.5 7\nSK 0 0\n"
    );
    assert!(status(&server).is_empty());
    assert!(server.tests_results().is_empty());
    assert_eq!(server.invokers_side().waiting_count(), 0);
}

#[test]
fn queue_overflow() {
    let mut server = connected_server();
    for uuid in 0..10_000u128 {
        assert_eq!(TestingSystemSide::add_submission(&mut server, submission(uuid, 1)), Ok(()));
    }
    assert_eq!(server.invokers_side().waiting_count(), 10_000);
    assert_eq!(
        TestingSystemSide::add_submission(&mut server, submission(10_000, 5)),
        Err(Rejection {
            reason: "queue full".to_string(),
            upstream: vec![failure(10_000, Vec::new(), "queue full")],
        })
    );
    assert_eq!(
        failure(10_000, Vec::new(), "queue full").to_bytes(),
        b"TYPE VERDICT\nSUBMISSION 00000000-0000-0000-0000-000000002710\nVERDICT TE\nMESSAGE queue full\nDATA\n"
    );
    assert_eq!(server.invokers_side().waiting_count(), 10_000);
    let results = server.tests_results();
    assert_eq!(results.len(), 10_000);
    assert!(!results.contains_key(&10_000));
}

#[test]
fn duplicate_verdict() {
    let mut server = connected_server();
    InvokersSide::add_invoker(&mut server, INVOKER_A, String::new());
    TestingSystemSide::add_submission(&mut server, submission(S1, 1)).unwrap();
    Invoker::take_submission(&mut server, INVOKER_A).unwrap();
    let verdict = || InputMessage::Verdict { verdict: Verdict::OK, message: Ok((1, vec![1])) };
    let (first, _) = Invoker::message_handler(&mut server, INVOKER_A, verdict());
    assert_eq!(first.upstream.len(), 1);
    let (second, exit) = Invoker::message_handler(&mut server, INVOKER_A, verdict());
    assert_eq!(second, nothing());
    assert_eq!(exit, None);
    assert_eq!(status(&server)[&INVOKER_A], None);
    assert!(server.tests_results().is_empty());
}

#[test]
fn verdict_from_an_unknown_session_is_dropped() {
    let mut server = connected_server();
    let verdict = InputMessage::Verdict { verdict: Verdict::OK, message: Ok((1, vec![1])) };
    assert_eq!(Invoker::message_handler(&mut server, INVOKER_A, verdict), (nothing(), None));
    assert!(status(&server).is_empty());
}

#[test]
fn a_finished_session_is_served_at_once() {
    let mut server = connected_server();
    InvokersSide::add_invoker(&mut server, INVOKER_A, String::new());
    TestingSystemSide::add_submission(&mut server, submission(S1, 0)).unwrap();
    TestingSystemSide::add_submission(&mut server, submission(S2, 1)).unwrap();
    Invoker::take_submission(&mut server, INVOKER_A).unwrap();
    let verdict = InputMessage::Verdict { verdict: Verdict::OK, message: Ok((0, Vec::new())) };
    let (outcome, _) = Invoker::message_handler(&mut server, INVOKER_A, verdict);
    assert_eq!(
        outcome.upstream,
        vec![ToTestingSystem::SubmissionVerdict {
            submission_uuid: S1,
            verdict: Verdict::OK,
            tests_result: Vec::new(),
            message: Ok((0, Vec::new())),
        }]
    );
    assert_eq!(outcome.downstream, start_of(S2, 1));
    assert_eq!(status(&server)[&INVOKER_A], Some(S2));
}

#[test]
fn a_new_session_is_served_at_once() {
    let mut server = connected_server();
    TestingSystemSide::add_submission(&mut server, submission(S1, 1)).unwrap();
    let outcome = InvokersSide::add_invoker(&mut server, INVOKER_A, "k".to_string());
    assert_eq!(outcome, Outcome { upstream: Vec::new(), downstream: start_of(S1, 1) });
    assert_eq!(status(&server)[&INVOKER_A], Some(S1));
}

#[test]
fn submissions_are_started_in_the_order_of_arrival() {
    let mut server = connected_server();
    InvokersSide::add_invoker(&mut server, INVOKER_A, String::new());
    for uuid in [7u128, 3, 9, 1] {
        TestingSystemSide::add_submission(&mut server, submission(uuid, 0)).unwrap();
    }
    assert_eq!(Invoker::take_submission(&mut server, INVOKER_A), Ok(start_of(7, 0)));
    for next in [3u128, 9, 1] {
        let verdict = InputMessage::Verdict { verdict: Verdict::OK, message: Ok((0, Vec::new())) };
        let (outcome, _) = Invoker::message_handler(&mut server, INVOKER_A, verdict);
        assert_eq!(outcome.downstream, start_of(next, 0));
    }
}

#[test]
fn test_out_of_range_is_dropped() {
    let mut server = connected_server();
    InvokersSide::add_invoker(&mut server, INVOKER_A, String::new());
    TestingSystemSide::add_submission(&mut server, submission(S1, 2)).unwrap();
    Invoker::take_submission(&mut server, INVOKER_A).unwrap();
    for test in [0u16, 3, 65535] {
        let frame = test_frame(test, Verdict::OK, "1", 1);
        assert_eq!(Invoker::message_handler(&mut server, INVOKER_A, frame), (nothing(), None));
    }
    assert_eq!(server.tests_results()[&S1], vec![TestResult::new(), TestResult::new()]);
}

#[test]
fn test_from_an_idle_session_is_dropped() {
    let mut server = connected_server();
    InvokersSide::add_invoker(&mut server, INVOKER_A, String::new());
    let frame = test_frame(1, Verdict::OK, "1", 1);
    assert_eq!(Invoker::message_handler(&mut server, INVOKER_A, frame), (nothing(), None));
}

#[test]
fn a_test_overwrites_only_its_own_result() {
    let mut server = connected_server();
    InvokersSide::add_invoker(&mut server, INVOKER_A, String::new());
    TestingSystemSide::add_submission(&mut server, submission(S1, 3)).unwrap();
    Invoker::take_submission(&mut server, INVOKER_A).unwrap();
    Invoker::message_handler(&mut server, INVOKER_A, test_frame(2, Verdict::TL, "2.0", 5));
    Invoker::message_handler(&mut server, INVOKER_A, test_frame(2, Verdict::ML, "1.5", 9));
    assert_eq!(
        server.tests_results()[&S1],
        vec![TestResult::new(), result(Verdict::ML, "1.5", 9), TestResult::new()]
    );
}

#[test]
fn errors_from_the_invoker_change_nothing() {
    let mut server = connected_server();
    InvokersSide::add_invoker(&mut server, INVOKER_A, String::new());
    TestingSystemSide::add_submission(&mut server, submission(S1, 1)).unwrap();
    Invoker::take_submission(&mut server, INVOKER_A).unwrap();
    for frame in [
        InputMessage::Error { message: "e".to_string() },
        InputMessage::OpError { message: "o".to_string() },
        InputMessage::Token { uuid: 1, key: String::new() },
        InputMessage::Signed { signature: vec![1] },
    ] {
        assert_eq!(Invoker::message_handler(&mut server, INVOKER_A, frame), (nothing(), None));
    }
    assert_eq!(status(&server)[&INVOKER_A], Some(S1));
    assert_eq!(server.tests_results().len(), 1);
}

#[test]
fn exit_ends_the_session_and_gives_the_code() {
    let mut server = connected_server();
    InvokersSide::add_invoker(&mut server, INVOKER_A, String::new());
    TestingSystemSide::add_submission(&mut server, submission(S1, 1)).unwrap();
    Invoker::take_submission(&mut server, INVOKER_A).unwrap();
    let exited = InputMessage::Exited { exit_code: "3".to_string(), exit_message: "bye".to_string() };
    let (outcome, exit) = Invoker::message_handler(&mut server, INVOKER_A, exited);
    assert_eq!(exit, Some("3".to_string()));
    assert_eq!(outcome.upstream, vec![failure(S1, vec![TestResult::new()], "invoker disconnected")]);
    assert!(status(&server).is_empty());
    assert!(server.tests_results().is_empty());
}

#[test]
fn exit_of_an_idle_session_owes_nothing() {
    let mut server = connected_server();
    InvokersSide::add_invoker(&mut server, INVOKER_A, String::new());
    let exited = InputMessage::Exited { exit_code: "0".to_string(), exit_message: String::new() };
    assert_eq!(
        Invoker::message_handler(&mut server, INVOKER_A, exited),
        (nothing(), Some("0".to_string()))
    );
    assert!(status(&server).is_empty());
}

#[test]
fn requests_for_work_are_refused_with_a_reason() {
    let mut server = Server::new();
    assert_eq!(
        Invoker::take_submission(&mut server, INVOKER_A),
        Err("Invoker 00000000-0000-0000-0000-00000000000a doesn't exist".to_string())
    );
    InvokersSide::add_invoker(&mut server, INVOKER_A, String::new());
    assert_eq!(
        Invoker::take_submission(&mut server, INVOKER_A),
        Err("upstream-unavailable".to_string())
    );
    TestingSystemSide::start(&mut server);
    assert_eq!(Invoker::take_submission(&mut server, INVOKER_A), Ok(None));
    TestingSystemSide::add_submission(&mut server, submission(S1, 1)).unwrap();
    TestingSystemSide::stop(&mut server);
    assert_eq!(
        Invoker::take_submission(&mut server, INVOKER_A),
        Err("upstream-unavailable".to_string())
    );
    assert_eq!(server.invokers_side().waiting_count(), 1);
    TestingSystemSide::start(&mut server);
    assert_eq!(Invoker::take_submission(&mut server, INVOKER_A), Ok(start_of(S1, 1)));
}

#[test]
fn nothing_is_owed_to_a_testing_system_out_of_reach() {
    let mut server = connected_server();
    InvokersSide::add_invoker(&mut server, INVOKER_A, String::new());
    TestingSystemSide::add_submission(&mut server, submission(S1, 1)).unwrap();
    TestingSystemSide::add_submission(&mut server, submission(S2, 1)).unwrap();
    Invoker::take_submission(&mut server, INVOKER_A).unwrap();
    TestingSystemSide::stop(&mut server);
    assert!(!server.testing_system_side().is_connected());
    let frame = test_frame(1, Verdict::OK, "1", 1);
    assert_eq!(Invoker::message_handler(&mut server, INVOKER_A, frame), (nothing(), None));
    assert_eq!(server.tests_results()[&S1], vec![result(Verdict::OK, "1", 1)]);
    let verdict = InputMessage::Verdict { verdict: Verdict::OK, message: Ok((1, vec![1])) };
    assert_eq!(Invoker::message_handler(&mut server, INVOKER_A, verdict), (nothing(), None));
    assert_eq!(status(&server)[&INVOKER_A], None);
    assert_eq!(server.invokers_side().waiting_count(), 1);
    assert!(!server.tests_results().contains_key(&S1));
}

#[test]
fn a_session_that_returns_replaces_the_one_before() {
    let mut server = connected_server();
    InvokersSide::add_invoker(&mut server, INVOKER_A, "old".to_string());
    TestingSystemSide::add_submission(&mut server, submission(S1, 1)).unwrap();
    TestingSystemSide::add_submission(&mut server, submission(S2, 2)).unwrap();
    Invoker::take_submission(&mut server, INVOKER_A).unwrap();
    let outcome = InvokersSide::add_invoker(&mut server, INVOKER_A, "new".to_string());
    assert_eq!(outcome.upstream, vec![failure(S1, vec![TestResult::new()], "invoker disconnected")]);
    assert_eq!(outcome.downstream, start_of(S2, 2));
    assert_eq!(status(&server).len(), 1);
    assert_eq!(status(&server)[&INVOKER_A], Some(S2));
    assert!(!server.tests_results().contains_key(&S1));
}

#[test]
fn delete_invoker_is_refused_for_an_unknown_uuid() {
    let mut server = connected_server();
    InvokersSide::add_invoker(&mut server, INVOKER_A, String::new());
    assert_eq!(
        InvokersSide::delete_invoker(&mut server, INVOKER_B),
        Err("Invoker 00000000-0000-0000-0000-00000000000b doesn't exist".to_string())
    );
    assert_eq!(status(&server).len(), 1);
    assert_eq!(InvokersSide::delete_invoker(&mut server, INVOKER_A), Ok(nothing()));
    assert!(status(&server).is_empty());
    assert_eq!(
        InvokersSide::delete_invoker(&mut server, INVOKER_A),
        Err("Invoker 00000000-0000-0000-0000-00000000000a doesn't exist".to_string())
    );
}

#[test]
fn every_bound_submission_has_results_and_one_session() {
    let mut server = connected_server();
    for invoker in 0..5u128 {
        InvokersSide::add_invoker(&mut server, invoker, String::new());
    }
    for uuid in 100..108u128 {
        TestingSystemSide::add_submission(&mut server, submission(uuid, 1)).unwrap();
    }
    for invoker in 0..5u128 {
        Invoker::take_submission(&mut server, invoker).unwrap();
    }
    let verdict = InputMessage::Verdict { verdict: Verdict::OK, message: Ok((0, Vec::new())) };
    Invoker::message_handler(&mut server, 2, verdict);
    Invoker::delete(&mut server, 4).unwrap();
    let bound = status(&server);
    let results = server.tests_results();
    let mut seen: Vec<u128> = Vec::new();
    for (_, binding) in &bound {
        if let Some(uuid) = binding {
            assert!(results.contains_key(uuid));
            assert!(!seen.contains(uuid));
            seen.push(*uuid);
        }
    }
    assert_eq!(seen.len(), 4);
    assert_eq!(results.len(), seen.len() + server.invokers_side().waiting_count());
}

#[test]
fn invoker_accessors() {
    let mut invoker = Invoker::new(INVOKER_A, "key".to_string());
    assert_eq!(invoker.uuid(), INVOKER_A);
    assert_eq!(invoker.key(), "key");
    assert_eq!(invoker.get_submission_uuid(), None);
    let frame = Invoker::run_submission(&mut invoker, submission(S1, 1));
    assert_eq!(Some(frame), start_of(S1, 1));
    assert_eq!(invoker.get_submission_uuid(), Some(S1));
}

#[test]
fn finish_current_gives_the_submission_up_once() {
    let mut server = connected_server();
    InvokersSide::add_invoker(&mut server, INVOKER_A, String::new());
    TestingSystemSide::add_submission(&mut server, submission(S1, 2)).unwrap();
    Invoker::take_submission(&mut server, INVOKER_A).unwrap();
    Invoker::message_handler(&mut server, INVOKER_A, test_frame(2, Verdict::OK, "1", 1));
    let outcome = Invoker::finish_current_submission(&mut server, INVOKER_A);
    assert_eq!(
        outcome,
        Outcome {
            upstream: vec![failure(
                S1,
                vec![TestResult::new(), result(Verdict::OK, "1", 1)],
                "invoker disconnected"
            )],
            downstream: None,
        }
    );
    assert_eq!(status(&server)[&INVOKER_A], None);
    assert!(server.tests_results().is_empty());
    assert_eq!(server.invokers_side().waiting_count(), 0);
    assert_eq!(Invoker::finish_current_submission(&mut server, INVOKER_A), nothing());
    assert_eq!(Invoker::finish_current_submission(&mut server, INVOKER_B), nothing());
    assert_eq!(status(&server).len(), 1);
}

#[test]
fn finish_current_owes_nothing_while_the_link_is_down() {
    let mut server = connected_server();
    InvokersSide::add_invoker(&mut server, INVOKER_A, String::new());
    TestingSystemSide::add_submission(&mut server, submission(S1, 1)).unwrap();
    Invoker::take_submission(&mut server, INVOKER_A).unwrap();
    TestingSystemSide::stop(&mut server);
    assert_eq!(Invoker::finish_current_submission(&mut server, INVOKER_A), nothing());
    assert_eq!(status(&server)[&INVOKER_A], None);
    assert!(server.tests_results().is_empty());
}

fn verdicts_for(frames: &[ToTestingSystem], uuid: u128) -> usize {
    frames
        .iter()
        .filter(|frame| {
            matches!(frame, ToTestingSystem::SubmissionVerdict { submission_uuid, .. } if *submission_uuid == uuid)
        })
        .count()
}

#[test]
fn every_submission_gets_one_verdict_and_no_more() {
    let mut server = connected_server();
    let mut sent: Vec<ToTestingSystem> = Vec::new();
    let verdict = || InputMessage::Verdict { verdict: Verdict::OK, message: Ok((1, vec![1])) };

    sent.extend(InvokersSide::add_invoker(&mut server, INVOKER_A, String::new()).upstream);
    sent.extend(InvokersSide::add_invoker(&mut server, INVOKER_B, String::new()).upstream);
    for uuid in 1..=6u128 {
        TestingSystemSide::add_submission(&mut server, submission(uuid, 1)).unwrap();
    }
    Invoker::take_submission(&mut server, INVOKER_A).unwrap();
    Invoker::take_submission(&mut server, INVOKER_B).unwrap();
    sent.extend(Invoker::message_handler(&mut server, INVOKER_A, verdict()).0.upstream);
    sent.extend(Invoker::message_handler(&mut server, INVOKER_A, test_frame(1, Verdict::OK, "1", 1)).0.upstream);
    sent.extend(Invoker::delete(&mut server, INVOKER_B).unwrap().upstream);
    sent.extend(Invoker::message_handler(&mut server, INVOKER_B, verdict()).0.upstream);
    sent.extend(InvokersSide::add_invoker(&mut server, INVOKER_A, String::new()).upstream);
    sent.extend(Invoker::message_handler(&mut server, INVOKER_A, verdict()).0.upstream);
    sent.extend(Invoker::message_handler(&mut server, INVOKER_A, verdict()).0.upstream);
    let exited = InputMessage::Exited { exit_code: "1".to_string(), exit_message: String::new() };
    sent.extend(Invoker::message_handler(&mut server, INVOKER_A, exited).0.upstream);

    let results = server.tests_results();
    let bound = status(&server);
    assert!(bound.is_empty());
    assert_eq!(server.invokers_side().waiting_count(), results.len());
    let mut finished = 0;
    for uuid in 1..=6u128 {
        if results.contains_key(&uuid) {
            assert_eq!(verdicts_for(&sent, uuid), 0, "{uuid}");
        } else {
            assert_eq!(verdicts_for(&sent, uuid), 1, "{uuid}");
            finished += 1;
        }
    }
    assert_eq!(finished, 6);
    assert_eq!(verdicts_for(&sent, 99), 0);
}

#[test]
fn a_uuid_may_be_handed_in_again_once_it_is_done() {
    let mut server = connected_server();
    InvokersSide::add_invoker(&mut server, INVOKER_A, String::new());
    let mut verdicts = 0;
    for _ in 0..3 {
        TestingSystemSide::add_submission(&mut server, submission(S1, 1)).unwrap();
        if let Ok(Some(_)) = Invoker::take_submission(&mut server, INVOKER_A) {}
        let verdict = InputMessage::Verdict { verdict: Verdict::OK, message: Ok((1, vec![1])) };
        let (outcome, _) = Invoker::message_handler(&mut server, INVOKER_A, verdict);
        verdicts += verdicts_for(&outcome.upstream, S1);
    }
    assert_eq!(verdicts, 3);
    assert!(server.tests_results().is_empty());
}
