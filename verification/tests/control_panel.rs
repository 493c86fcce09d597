use invoker_manager::control_panel::{
    body_of, delete_invoker_reply, delete_reply, invokers_status_body, status_entries,
};
use invoker_manager::invoker::Invoker;
use invoker_manager::invokers_side::InvokersSide;
use invoker_manager::server::{Outcome, Server};
use invoker_manager::submission::Submission;
use invoker_manager::testing_system::gateway::OutputMessage;
use invoker_manager::testing_system_side::TestingSystemSide;
use invoker_manager::verdict::{TestResult, Verdict};
use std::collections::HashMap;

fn busy_server() -> Server {
    let mut server = Server::new();
    TestingSystemSide::start(&mut server);
    InvokersSide::add_invoker(&mut server, 0xa, String::new());
    InvokersSide::add_invoker(&mut server, 0xb, String::new());
    TestingSystemSide::add_submission(&mut server, Submission::new(0x51, Vec::new(), 1)).unwrap();
    Invoker::take_submission(&mut server, 0xa).unwrap();
    server
}

#[test]
fn status_entries_show_every_session_by_urn() {
    let mut entries = status_entries(&busy_server().invokers_side().get_invokers_status());
    entries.sort();
    assert_eq!(
        entries,
        vec![
            (
                "urn:uuid:00000000-0000-0000-0000-00000000000a".to_string(),
                Some("urn:uuid:00000000-0000-0000-0000-000000000051".to_string())
            ),
            ("urn:uuid:00000000-0000-0000-0000-00000000000b".to_string(), None),
        ]
    );
    assert_eq!(status_entries(&HashMap::new()), Vec::new());
}

#[test]
fn status_entries_spell_urns_as_the_uuid_crate_does() {
    let mut status = HashMap::new();
    status.insert(0x936da01f9abd4d9d80c702af85c822a8u128, Some(u128::MAX));
    let entries = status_entries(&status);
    assert_eq!(
        entries,
        vec![(
            uuid::Uuid::from_u128(0x936da01f9abd4d9d80c702af85c822a8).urn().to_string(),
            Some(uuid::Uuid::from_u128(u128::MAX).urn().to_string())
        )]
    );
    assert_eq!(entries[0].0, "urn:uuid:936da01f-9abd-4d9d-80c7-02af85c822a8");
}

#[test]
fn status_body_is_a_json_object() {
    let body = invokers_status_body(&busy_server().invokers_side().get_invokers_status());
    let read: HashMap<String, Option<String>> = serde_json::from_str(&body).unwrap();
    let mut expected = HashMap::new();
    expected.insert(
        "urn:uuid:00000000-0000-0000-0000-00000000000a".to_string(),
        Some("urn:uuid:00000000-0000-0000-0000-000000000051".to_string()),
    );
    expected.insert("urn:uuid:00000000-0000-0000-0000-00000000000b".to_string(), None);
    assert_eq!(read, expected);
    assert_eq!(invokers_status_body(&HashMap::new()), "{}");
}

#[test]
fn body_is_the_document_or_server_error() {
    assert_eq!(body_of(Ok("{}".to_string())), "{}");
    let failed = serde_json::from_str::<u8>("x").unwrap_err();
    assert_eq!(body_of(Err(failed)), "SERVERERROR");
}

#[test]
fn delete_reply_for_a_live_session() {
    let mut server = busy_server();
    let deletion = delete_invoker_reply(&mut server, "0000000000000000000000000000000a");
    assert_eq!(deletion.reply, "Succes");
    assert_eq!(deletion.removed, Some(0xa));
    assert_eq!(
        deletion.outcome,
        Outcome {
            upstream: vec![OutputMessage::SubmissionVerdict {
                submission_uuid: 0x51,
                verdict: Verdict::TE,
                tests_result: vec![TestResult::new()],
                message: Err("invoker disconnected".to_string()),
            }],
            downstream: None,
        }
    );
    let status = server.invokers_side().get_invokers_status();
    assert_eq!(status.len(), 1);
    assert!(status.contains_key(&0xb));
}

#[test]
fn delete_reply_for_an_unknown_session() {
    let mut server = busy_server();
    let deletion = delete_invoker_reply(&mut server, "00000000-0000-0000-0000-00000000000c");
    assert_eq!(deletion.reply, "Invoker 00000000-0000-0000-0000-00000000000c doesn't exist");
    assert_eq!(deletion.outcome, Outcome { upstream: Vec::new(), downstream: None });
    assert_eq!(deletion.removed, None);
    assert_eq!(server.invokers_side().get_invokers_status().len(), 2);
}

#[test]
fn delete_reply_for_what_is_no_uuid() {
    let mut server = busy_server();
    let deletion = delete_invoker_reply(&mut server, "a");
    assert_eq!(deletion.reply, "Invalid uuid: a");
    assert_eq!(deletion.outcome, Outcome { upstream: Vec::new(), downstream: None });
    assert_eq!(deletion.removed, None);
    assert_eq!(server.invokers_side().get_invokers_status().len(), 2);
    let deletion = delete_reply(&mut server, "whatever", None);
    assert_eq!(deletion.reply, "Invalid uuid: whatever");
    let deletion = delete_reply(&mut server, "whatever", Some(0xb));
    assert_eq!(deletion.reply, "Succes");
    assert_eq!(deletion.removed, Some(0xb));
    assert_eq!(server.invokers_side().get_invokers_status().len(), 1);
}

#[test]
fn status_body_lists_the_members_in_some_order() {
    let body = invokers_status_body(&busy_server().invokers_side().get_invokers_status());
    let busy = "\"urn:uuid:00000000-0000-0000-0000-00000000000a\":\"urn:uuid:00000000-0000-0000-0000-000000000051\"";
    let idle = "\"urn:uuid:00000000-0000-0000-0000-00000000000b\":null";
    let one = format!("{{{},{}}}", busy, idle);
    let other = format!("{{{},{}}}", idle, busy);
    assert!(body == one || body == other, "{}", body);
}

#[test]
fn status_body_of_one_session() {
    let mut status = HashMap::new();
    status.insert(7u128, None);
    assert_eq!(invokers_status_body(&status), "{\"urn:uuid:00000000-0000-0000-0000-000000000007\":null}");
    status.insert(7u128, Some(8u128));
    assert_eq!(
        invokers_status_body(&status),
        "{\"urn:uuid:00000000-0000-0000-0000-000000000007\":\"urn:uuid:00000000-0000-0000-0000-000000000008\"}"
    );
}
