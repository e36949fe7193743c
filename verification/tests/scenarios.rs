use assertion_oracle::engine::evaluate_log;
use assertion_oracle::error::OracleError;
use assertion_oracle::verdict::EvaluatedAssertion;
use serde_json::Value;

fn json(text: &str) -> Value {
    serde_json::from_str(text).unwrap()
}

fn record(id: &str, kind: &str, must_hit: bool, hit: bool, condition: bool, details: &str) -> String {
    format!(
        "{{\"antithesis_assert\":{{\"assert_type\":\"{}\",\"condition\":{},\"display_type\":\"{}\",\
         \"hit\":{},\"must_hit\":{},\"id\":\"{}\",\"message\":\"{}\",\
         \"location\":{{\"begin_column\":3,\"begin_line\":14,\"class\":\"\",\"file\":\"main.go\",\
         \"function\":\"run\"}},\"details\":{}}}}}",
        kind, condition, kind, hit, must_hit, id, id, details
    )
}

fn declare(id: &str, kind: &str, must_hit: bool) -> String {
    record(id, kind, must_hit, false, false, "null")
}

fn observe(id: &str, kind: &str, must_hit: bool, condition: bool, details: &str) -> String {
    record(id, kind, must_hit, true, condition, details)
}

fn run(lines: &[String]) -> Result<Vec<EvaluatedAssertion>, OracleError> {
    evaluate_log(lines.iter().map(|l| l.as_str()).collect())
}

fn single(lines: &[String]) -> EvaluatedAssertion {
    let mut verdicts = run(lines).unwrap();
    assert_eq!(verdicts.len(), 1);
    verdicts.remove(0)
}

#[test]
fn always_passes_with_one_true_observation() {
    let out = single(&[
        declare("A1", "always", true),
        observe("A1", "always", true, true, "{\"v\":1}"),
    ]);
    assert_eq!(out.id, "A1");
    assert!(out.passed);
    assert_eq!(out.example_details, Some(json("{\"v\":1}")));
    assert_eq!(out.counter_details, None);
}

#[test]
fn always_fails_on_a_false_observation() {
    let out = single(&[
        declare("A1", "always", true),
        observe("A1", "always", true, true, "{\"v\":1}"),
        observe("A1", "always", true, false, "{\"v\":2}"),
    ]);
    assert!(!out.passed);
    assert_eq!(out.example_details, Some(json("{\"v\":1}")));
    assert_eq!(out.counter_details, Some(json("{\"v\":2}")));
}

#[test]
fn always_fails_on_a_false_observation_alone() {
    let out = single(&[
        declare("A1", "always", true),
        observe("A1", "always", true, false, "{\"v\":2}"),
    ]);
    assert!(!out.passed);
    assert_eq!(out.example_details, None);
    assert_eq!(out.counter_details, Some(json("{\"v\":2}")));
}

#[test]
fn sometimes_fails_when_never_true() {
    let out = single(&[
        declare("S1", "sometimes", true),
        observe("S1", "sometimes", true, false, "1"),
        observe("S1", "sometimes", true, false, "2"),
    ]);
    assert_eq!(out.id, "S1");
    assert!(!out.passed);
    assert_eq!(out.example_details, None);
    assert_eq!(out.counter_details, Some(json("2")));
}

#[test]
fn sometimes_passes_despite_false_observations() {
    let out = single(&[
        declare("S1", "sometimes", true),
        observe("S1", "sometimes", true, false, "1"),
        observe("S1", "sometimes", true, true, "2"),
        observe("S1", "sometimes", true, false, "3"),
    ]);
    assert!(out.passed);
    assert_eq!(out.example_details, Some(json("2")));
    assert_eq!(out.counter_details, Some(json("3")));
}

#[test]
fn unreachable_passes_when_never_reached() {
    let out = single(&[declare("R1", "reachability", false)]);
    assert_eq!(out.id, "R1");
    assert!(out.passed);
    assert_eq!(out.example_details, None);
    assert_eq!(out.counter_details, None);
}

#[test]
fn unreachable_fails_when_reached() {
    let out = single(&[
        declare("R1", "reachability", false),
        observe("R1", "reachability", false, true, "\"here\""),
    ]);
    assert!(!out.passed);
    assert_eq!(out.example_details, None);
    assert_eq!(out.counter_details, Some(json("\"here\"")));
}

#[test]
fn reachable_passes_when_reached_with_a_false_condition() {
    let out = single(&[
        declare("R2", "reachability", true),
        observe("R2", "reachability", true, false, "\"f\""),
    ]);
    assert!(out.passed);
    assert_eq!(out.example_details, Some(json("\"f\"")));
    assert_eq!(out.counter_details, None);
}

#[test]
fn reachable_prefers_the_true_witness() {
    let out = single(&[
        declare("R2", "reachability", true),
        observe("R2", "reachability", true, true, "\"t\""),
        observe("R2", "reachability", true, false, "\"f\""),
    ]);
    assert!(out.passed);
    assert_eq!(out.example_details, Some(json("\"t\"")));
    assert_eq!(out.counter_details, None);
}

#[test]
fn unreachable_prefers_the_true_witness_as_counter() {
    let out = single(&[
        declare("R1", "reachability", false),
        observe("R1", "reachability", false, false, "\"f\""),
        observe("R1", "reachability", false, true, "\"t\""),
    ]);
    assert!(!out.passed);
    assert_eq!(out.example_details, None);
    assert_eq!(out.counter_details, Some(json("\"t\"")));
}

#[test]
fn custom_event_is_left_out_of_the_verdicts() {
    let lines = vec![
        "{\"custom_event\":{\"x\":1}}".to_string(),
        declare("A1", "always", false),
        "{\"antithesis_sdk\":{\"language\":\"go\",\"version\":\"0.4\"}}".to_string(),
        "{\"antithesis_setup\":{\"status\":\"complete\",\"details\":null}}".to_string(),
    ];
    let verdicts = run(&lines).unwrap();
    assert_eq!(verdicts.len(), 1);
    assert_eq!(verdicts[0].id, "A1");
    assert!(verdicts[0].passed);
}

#[test]
fn only_events_give_no_verdicts() {
    let verdicts = run(&["{\"custom_event\":{\"x\":1}}".to_string()]).unwrap();
    assert!(verdicts.is_empty());
}

#[test]
fn observation_without_declaration_fails_the_run() {
    let lines = vec![
        declare("A1", "always", true),
        observe("B7", "always", true, true, "1"),
        observe("B7", "always", true, true, "2"),
    ];
    match run(&lines) {
        Err(OracleError::MissingDeclaration { id }) => assert_eq!(id, "B7"),
        other => panic!("expected a missing declaration, got {:?}", other),
    }
}

#[test]
fn declaration_only_always_without_must_hit_passes() {
    let out = single(&[declare("A", "always", false)]);
    assert!(out.passed);
    assert_eq!(out.example_details, None);
    assert_eq!(out.counter_details, None);
}

#[test]
fn declaration_only_always_with_must_hit_fails() {
    let out = single(&[declare("A", "always", true)]);
    assert!(!out.passed);
}

#[test]
fn declaration_only_sometimes_fails() {
    assert!(!single(&[declare("S", "sometimes", true)]).passed);
    assert!(!single(&[declare("S", "sometimes", false)]).passed);
}

#[test]
fn declaration_only_reachable_fails() {
    let out = single(&[declare("R", "reachability", true)]);
    assert!(!out.passed);
    assert_eq!(out.example_details, None);
    assert_eq!(out.counter_details, None);
}

#[test]
fn always_without_must_hit_passes_on_true_observations() {
    let out = single(&[
        declare("A", "always", false),
        observe("A", "always", false, true, "7"),
    ]);
    assert!(out.passed);
    assert_eq!(out.example_details, Some(json("7")));
}

#[test]
fn last_true_observation_is_the_example() {
    let out = single(&[
        declare("A1", "always", true),
        observe("A1", "always", true, true, "{\"n\":1}"),
        observe("A1", "always", true, true, "{\"n\":2}"),
        observe("A1", "always", true, true, "{\"n\":3}"),
    ]);
    assert!(out.passed);
    assert_eq!(out.example_details, Some(json("{\"n\":3}")));
}

#[test]
fn last_false_observation_is_the_counter() {
    let out = single(&[
        observe("A1", "always", true, false, "{\"n\":1}"),
        declare("A1", "always", true),
        observe("A1", "always", true, false, "{\"n\":2}"),
    ]);
    assert_eq!(out.counter_details, Some(json("{\"n\":2}")));
}

#[test]
fn last_declaration_gives_the_metadata() {
    let first = "{\"antithesis_assert\":{\"assert_type\":\"sometimes\",\"condition\":false,\
        \"display_type\":\"Sometimes\",\"hit\":false,\"must_hit\":true,\"id\":\"X\",\
        \"message\":\"first\",\"location\":{\"begin_column\":1,\"begin_line\":2,\"class\":\"c\",\
        \"file\":\"f\",\"function\":\"g\"},\"details\":null}}";
    let second = "{\"antithesis_assert\":{\"assert_type\":\"always\",\"condition\":false,\
        \"display_type\":\"Always\",\"hit\":false,\"must_hit\":false,\"id\":\"X\",\
        \"message\":\"second\",\"location\":{\"begin_column\":5,\"begin_line\":6,\"class\":\"k\",\
        \"file\":\"h\",\"function\":\"i\"},\"details\":null}}";
    let verdicts = evaluate_log(vec![first, second]).unwrap();
    assert_eq!(verdicts.len(), 1);
    let out = &verdicts[0];
    assert_eq!(out.display_type, "Always");
    assert_eq!(out.message, "second");
    assert_eq!(out.location.begin_column, 5);
    assert_eq!(out.location.begin_line, 6);
    assert_eq!(out.location.class, "k");
    assert_eq!(out.location.file, "h");
    assert_eq!(out.location.function, "i");
    assert!(out.passed);
}

#[test]
fn rerun_gives_the_same_verdicts() {
    let lines = vec![
        declare("A1", "always", true),
        observe("B2", "sometimes", true, true, "[1,2]"),
        "".to_string(),
        declare("B2", "sometimes", true),
        observe("A1", "always", true, false, "{\"k\":\"v\"}"),
        "{\"note\":1}".to_string(),
    ];
    let first = run(&lines).unwrap();
    let second = run(&lines).unwrap();
    assert_eq!(first, second);
    assert_eq!(first.len(), 2);
    assert_eq!(first[0].id, "A1");
    assert_eq!(first[1].id, "B2");
}

#[test]
fn verdicts_come_in_order_of_first_appearance() {
    let lines = vec![
        observe("Z", "always", false, true, "1"),
        declare("M", "always", false),
        declare("Z", "always", false),
        declare("A", "always", false),
        observe("M", "always", false, false, "2"),
    ];
    let verdicts = run(&lines).unwrap();
    let ids: Vec<&str> = verdicts.iter().map(|v| v.id.as_str()).collect();
    assert_eq!(ids, vec!["Z", "M", "A"]);
    assert!(verdicts[0].passed);
    assert!(!verdicts[1].passed);
    assert!(verdicts[2].passed);
}

#[test]
fn empty_log_gives_no_verdicts() {
    assert!(evaluate_log(Vec::new()).unwrap().is_empty());
    assert!(evaluate_log(vec!["", ""]).unwrap().is_empty());
    assert!(evaluate_log(vec![" ", "\t\r"]).unwrap().is_empty());
}

#[test]
fn log_with_carriage_returns_is_evaluated() {
    let log = format!(
        "{}\r\n\r\n{}\r\n  \r\n",
        declare("A1", "always", true),
        observe("A1", "always", true, true, "{\"v\":1}")
    );
    let verdicts = evaluate_log(log.split("\n").collect()).unwrap();
    assert_eq!(verdicts.len(), 1);
    assert_eq!(verdicts[0].id, "A1");
    assert!(verdicts[0].passed);
    assert_eq!(verdicts[0].example_details, Some(json("{\"v\":1}")));
}
