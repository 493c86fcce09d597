use invoker_manager::verdict::{TestResult, Verdict};

#[test]
fn verdict_parse_reads_every_mnemonic() {
    assert_eq!(Verdict::parse("OK"), Verdict::OK);
    assert_eq!(Verdict::parse("WA"), Verdict::WA);
    assert_eq!(Verdict::parse("TL"), Verdict::TL);
    assert_eq!(Verdict::parse("RE"), Verdict::RE);
    assert_eq!(Verdict::parse("ML"), Verdict::ML);
    assert_eq!(Verdict::parse("TE"), Verdict::TE);
    assert_eq!(Verdict::parse("CE"), Verdict::CE);
    assert_eq!(Verdict::parse("SL"), Verdict::SL);
    assert_eq!(Verdict::parse("SK"), Verdict::SK);
    assert_eq!(Verdict::parse("PE"), Verdict::PE);
    assert_eq!(Verdict::parse("UV"), Verdict::UV);
}

#[test]
fn verdict_parse_is_total() {
    assert_eq!(Verdict::parse(""), Verdict::UV);
    assert_eq!(Verdict::parse("ok"), Verdict::UV);
    assert_eq!(Verdict::parse("OK "), Verdict::UV);
    assert_eq!(Verdict::parse("accepted"), Verdict::UV);
}

#[test]
fn default_test_result_is_skipped() {
    let result = TestResult::new();
    assert_eq!(result.verdict, Verdict::SK);
    assert_eq!(result.time.as_str(), "0");
    assert_eq!(result.memory, 0);
    assert_eq!(result.to_text(), "SK 0 0");
}

#[test]
fn verdict_name_is_the_mnemonic() {
    assert_eq!(Verdict::OK.name(), "OK");
    assert_eq!(Verdict::TE.name(), "TE");
    assert_eq!(Verdict::UV.name(), "UV");
}

#[test]
fn verdict_round_trips_through_its_name() {
    let all = [
        Verdict::OK, Verdict::WA, Verdict::TL, Verdict::RE, Verdict::ML, Verdict::TE, Verdict::CE,
        Verdict::SL, Verdict::SK, Verdict::PE, Verdict::UV,
    ];
    for verdict in all {
        assert_eq!(Verdict::parse(verdict.name()), verdict);
    }
}

#[test]
fn test_result_text_joins_its_fields_with_spaces() {
    let result = TestResult {
        verdict: Verdict::WA,
        time: invoker_manager::seconds::Seconds::parse("0.09").unwrap(),
        memory: 2000,
    };
    assert_eq!(result.to_text(), "WA 0.09 2000");
    assert_eq!(result.clone(), result);
}

#[test]
fn skipped_results_are_all_skipped() {
    let results = invoker_manager::verdict::skipped_results(3);
    assert_eq!(results.len(), 3);
    for result in &results {
        assert_eq!(result.to_text(), "SK 0 0");
    }
    assert_eq!(invoker_manager::verdict::skipped_results(0).len(), 0);
    assert_eq!(invoker_manager::verdict::clone_results(&results), results);
}

#[test]
fn verdict_from_a_string() {
    assert_eq!(Verdict::from(&"ML".to_string()), Verdict::ML);
    assert_eq!(Verdict::from(&"ml".to_string()), Verdict::UV);
    let verdict: Verdict = (&"PE".to_string()).into();
    assert_eq!(verdict, Verdict::PE);
}
