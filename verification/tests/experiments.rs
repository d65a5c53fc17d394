use glean_core::experiments::normalize_extra;
use glean_core::serialize::{frame_members, frame_record, serialize_record};
use glean_core::{Date, FreshId, Glean, RecordedExperimentData};

fn enabled() -> Glean {
    let id = FreshId::new("0b6d4f5e-1c2a-4e3b-9f70-6a1d2c3b4e5f".to_string()).unwrap();
    Glean::with_options(None, "org.mozilla.glean.tests", true, id, Date::from_days(18025)).unwrap()
}

fn pair(key: &str, value: &str) -> (String, String) {
    (key.to_string(), value.to_string())
}

#[test]
fn record_cuts_the_branch_to_thirty_characters() {
    let record = RecordedExperimentData::new("0123456789".repeat(4), None);
    assert_eq!("012345678901234567890123456789", record.branch());
    assert!(record.extra().is_none());
}

#[test]
fn record_keeps_a_branch_of_exactly_thirty_characters() {
    let branch = "0123456789".repeat(3);
    let record = RecordedExperimentData::new(branch.clone(), None);
    assert_eq!(branch, record.branch());
}

#[test]
fn extra_keeps_the_first_twenty_entries_in_order() {
    let mut raw = Vec::new();
    for n in 0..25 {
        raw.push((format!("key{}", n), format!("value{}", n)));
    }
    let kept = normalize_extra(&raw);
    assert_eq!(20, kept.len());
    for n in 0..20 {
        assert_eq!((format!("key{}", n), format!("value{}", n)), kept[n]);
    }
}

#[test]
fn extra_of_twenty_entries_is_kept_whole() {
    let mut raw = Vec::new();
    for n in 0..20 {
        raw.push((format!("key{}", n), format!("value{}", n)));
    }
    assert_eq!(raw, normalize_extra(&raw));
}

#[test]
fn extra_cuts_keys_and_values() {
    let raw = vec![("k".repeat(31), "v".repeat(51)), pair("short", "value")];
    let kept = normalize_extra(&raw);
    assert_eq!(vec![("k".repeat(30), "v".repeat(50)), pair("short", "value")], kept);
}

#[test]
fn extra_with_a_repeated_key_keeps_the_last_value_in_place() {
    let raw = vec![pair("a", "1"), pair("b", "2"), pair("a", "3")];
    assert_eq!(vec![pair("a", "3"), pair("b", "2")], normalize_extra(&raw));
}

#[test]
fn extra_keys_that_meet_once_cut_are_one_entry() {
    let prefix = "p".repeat(30);
    let raw = vec![
        (format!("{}-first", prefix), "1".to_string()),
        (format!("{}-second", prefix), "2".to_string()),
    ];
    assert_eq!(vec![(prefix, "2".to_string())], normalize_extra(&raw));
}

#[test]
fn empty_extra_stays_present() {
    let record = RecordedExperimentData::new("branch".to_string(), Some(Vec::new()));
    assert_eq!(Some(&Vec::new()), record.extra());
    assert_eq!("{\"branch\":\"branch\",\"extra\":{}}", serialize_record(&record));
}

#[test]
fn record_without_extra_serializes_the_branch_alone() {
    let record = RecordedExperimentData::new("branch".to_string(), None);
    assert_eq!("{\"branch\":\"branch\"}", serialize_record(&record));
}

#[test]
fn record_with_extra_serializes_in_stored_order() {
    let record = RecordedExperimentData::new(
        "b".to_string(),
        Some(vec![pair("zeta", "1"), pair("alpha", "2")]),
    );
    assert_eq!(
        "{\"branch\":\"b\",\"extra\":{\"zeta\":\"1\",\"alpha\":\"2\"}}",
        serialize_record(&record)
    );
}

#[test]
fn serialized_strings_are_escaped() {
    let record = RecordedExperimentData::new(
        "a\"b\\c".to_string(),
        Some(vec![pair("line\nbreak", "tab\there")]),
    );
    let text = serialize_record(&record);
    assert_eq!(
        "{\"branch\":\"a\\\"b\\\\c\",\"extra\":{\"line\\nbreak\":\"tab\\there\"}}",
        text
    );
    let parsed: serde_json::Value = serde_json::from_str(&text).unwrap();
    assert_eq!(Some("a\"b\\c"), parsed["branch"].as_str());
    assert_eq!(Some("tab\there"), parsed["extra"]["line\nbreak"].as_str());
}

#[test]
fn frame_members_joins_with_commas() {
    assert_eq!("", frame_members(&Vec::new()));
    assert_eq!("\"a\":1", frame_members(&vec![pair("\"a\"", "1")]));
    assert_eq!(
        "\"a\":1,\"b\":2,\"c\":3",
        frame_members(&vec![pair("\"a\"", "1"), pair("\"b\"", "2"), pair("\"c\"", "3")])
    );
}

#[test]
fn frame_record_wraps_the_texts_given() {
    assert_eq!("{\"branch\":\"x\"}", frame_record("\"x\"", None));
    assert_eq!(
        "{\"branch\":\"x\",\"extra\":{\"k\":\"v\"}}",
        frame_record("\"x\"", Some(&vec![pair("\"k\"", "\"v\"")]))
    );
}

#[test]
fn two_ids_with_one_prefix_are_one_experiment() {
    let mut glean = enabled();
    let prefix = "x".repeat(30);
    glean.set_experiment_active(format!("{}-one", prefix), "first".to_string(), None);
    glean.set_experiment_active(format!("{}-two", prefix), "second".to_string(), None);

    assert!(glean.test_is_experiment_active(prefix.clone()));
    assert!(glean.test_is_experiment_active(format!("{}-three", prefix)));
    assert_eq!(
        Some("{\"branch\":\"second\"}".to_string()),
        glean.test_get_experiment_data_as_json(format!("{}-one", prefix))
    );
}

#[test]
fn an_experiment_that_was_never_active_has_no_data() {
    let mut glean = enabled();
    assert!(!glean.test_is_experiment_active("none".to_string()));
    assert_eq!(None, glean.test_get_experiment_data_as_json("none".to_string()));
    glean.set_experiment_inactive("none".to_string());
    assert!(!glean.test_is_experiment_active("none".to_string()));
}

#[test]
fn marking_active_again_replaces_the_record() {
    let mut glean = enabled();
    glean.set_experiment_active("exp".to_string(), "one".to_string(), Some(vec![pair("k", "v")]));
    glean.set_experiment_active("exp".to_string(), "two".to_string(), None);
    assert_eq!(
        Some("{\"branch\":\"two\"}".to_string()),
        glean.test_get_experiment_data_as_json("exp".to_string())
    );
}

#[test]
fn experiments_survive_disabling_and_are_accepted_while_disabled() {
    let mut glean = enabled();
    glean.set_experiment_active("before".to_string(), "b".to_string(), None);

    let unused = FreshId::new("unused".to_string()).unwrap();
    assert!(glean.set_upload_enabled(false, unused));
    assert!(glean.test_is_experiment_active("before".to_string()));

    glean.set_experiment_active("during".to_string(), "d".to_string(), None);
    assert!(glean.test_is_experiment_active("during".to_string()));

    glean.set_experiment_inactive("before".to_string());
    assert!(!glean.test_is_experiment_active("before".to_string()));
}

#[test]
fn twenty_one_extras_leave_exactly_twenty_within_bounds() {
    let mut glean = enabled();
    let mut extras = Vec::new();
    for n in 0..21 {
        extras.push((format!("{}-{}", n, "0123456789".repeat(5)), "0123456789".repeat(6)));
    }
    glean.set_experiment_active("exp".to_string(), "branch".to_string(), Some(extras));

    let text = glean.test_get_experiment_data_as_json("exp".to_string()).unwrap();
    let parsed: serde_json::Value = serde_json::from_str(&text).unwrap();
    let extra = parsed["extra"].as_object().unwrap();
    assert_eq!(20, extra.len());
    assert!(extra.contains_key("0-0123456789012345678901234567"));
    assert!(extra.contains_key("19-012345678901234567890123456"));
    assert!(!extra.contains_key("20-012345678901234567890123456"));
    for (key, value) in extra.iter() {
        assert_eq!(30, key.chars().count());
        assert_eq!(50, value.as_str().unwrap().chars().count());
    }
}
