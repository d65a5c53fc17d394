use glean_core::{CommonMetricData, Date, FreshId, Glean, StringMetric, KNOWN_CLIENT_ID};

const GLOBAL_APPLICATION_ID: &str = "org.mozilla.glean.test.app";
const FIRST_ID: &str = "3d5ed8c5-6b0f-4a5e-9a53-2f1d3c0b8e11";
const SECOND_ID: &str = "9b1c2a77-41de-4c0a-8f6e-5a7c90d2e4f3";
const TODAY: u32 = 18025;

fn fresh(text: &str) -> FreshId {
    FreshId::new(text.to_string()).unwrap()
}

fn open(image: Option<&[u8]>, application_id: &str, upload_enabled: bool) -> Glean {
    Glean::with_options(image, application_id, upload_enabled, fresh(FIRST_ID), Date::from_days(TODAY)).unwrap()
}

fn new_glean() -> Glean {
    open(None, GLOBAL_APPLICATION_ID, true)
}

fn parse(text: &str) -> serde_json::Value {
    serde_json::from_str(text).unwrap()
}

#[test]
fn path_is_constructed_from_data() {
    let glean = new_glean();

    assert_eq!(
        "/submit/org-mozilla-glean-test-app/baseline/1/this-is-a-docid",
        glean.make_path("baseline", "this-is-a-docid").unwrap()
    );
}

#[test]
fn experiment_id_and_branch_get_truncated_if_too_long() {
    let mut glean = open(None, "org.mozilla.glean.tests", true);

    let very_long_id = "test-experiment-id".repeat(5);
    let very_long_branch_id = "test-branch-id".repeat(5);

    glean.set_experiment_active(very_long_id.clone(), very_long_branch_id.clone(), None);

    let mut expected_id = very_long_id.clone();
    expected_id.truncate(30);
    let mut expected_branch_id = very_long_branch_id.clone();
    expected_branch_id.truncate(30);

    assert!(
        glean.test_is_experiment_active(expected_id.clone()),
        "An experiment with the truncated id should be available"
    );

    let experiment_data = glean.test_get_experiment_data_as_json(expected_id.clone());
    assert!(
        !experiment_data.is_none(),
        "Experiment data must be available"
    );

    let parsed_json = parse(&experiment_data.unwrap());
    assert_eq!(Some(expected_branch_id.as_str()), parsed_json["branch"].as_str());
}

#[test]
fn limits_on_experiments_extras_are_applied_correctly() {
    let mut glean = open(None, "org.mozilla.glean.tests", true);

    let experiment_id = "test-experiment_id".to_string();
    let branch_id = "test-branch-id".to_string();
    let mut extras = Vec::new();

    let too_long_key = "0123456789".repeat(5);
    let too_long_value = "0123456789".repeat(6);

    for n in 0..21 {
        extras.push((format!("{}-{}", n, too_long_key), too_long_value.clone()));
    }

    glean.set_experiment_active(experiment_id.clone(), branch_id.clone(), Some(extras));

    assert!(
        glean.test_is_experiment_active(experiment_id.clone()),
        "An experiment with the truncated id should be available"
    );

    let experiment_data = glean.test_get_experiment_data_as_json(experiment_id.clone());
    assert!(
        !experiment_data.is_none(),
        "Experiment data must be available"
    );

    let parsed_json = parse(&experiment_data.unwrap());
    let extra = parsed_json["extra"].as_object().unwrap();
    assert_eq!(
        20,
        extra.len(),
        "Experiments extra must be less than max length"
    );

    for (key, value) in extra.iter() {
        assert!(
            key.len() <= 30,
            "Experiments extra key must be less than max length"
        );
        assert!(
            value.as_str().unwrap().len() <= 50,
            "Experiments extra value must be less than max length"
        );
    }
}

#[test]
fn experiments_status_is_correctly_toggled() {
    let mut glean = open(None, "org.mozilla.glean.tests", true);

    let experiment_id: String = "test-toggle-experiment".into();
    let branch_id: String = "test-branch-toggle".into();
    let extra: Vec<(String, String)> = vec![("test-key".into(), "test-value".into())];

    glean.set_experiment_active(
        experiment_id.clone(),
        branch_id.clone(),
        Some(extra.clone()),
    );

    assert!(
        glean.test_is_experiment_active(experiment_id.clone()),
        "The experiment must be marked as active."
    );

    let experiment_data = glean.test_get_experiment_data_as_json(experiment_id.clone());
    assert!(
        experiment_data.is_some(),
        "Experiment data must be available"
    );

    let parsed_data = parse(&experiment_data.unwrap());
    let parsed_extra: Vec<(String, String)> = parsed_data["extra"]
        .as_object()
        .unwrap()
        .iter()
        .map(|(key, value)| (key.clone(), value.as_str().unwrap().to_string()))
        .collect();
    assert_eq!(parsed_extra, extra.clone());

    glean.set_experiment_inactive(experiment_id.clone());
    assert!(
        !glean.test_is_experiment_active(experiment_id.clone()),
        "The experiment must not be available any more."
    );
}

#[test]
fn client_id_and_first_run_date_must_be_regenerated() {
    let image;
    {
        let mut glean = open(None, GLOBAL_APPLICATION_ID, true);

        glean.test_clear_all();

        assert!(glean.client_id().is_none());
        assert!(glean.first_run_date().is_none());
        image = glean.to_bytes();
    }

    {
        let glean = open(Some(&image), GLOBAL_APPLICATION_ID, true);
        assert!(glean.client_id().is_some());
        assert!(glean.first_run_date().is_some());
    }
}

#[test]
fn basic_metrics_should_be_cleared_when_uploading_is_disabled() {
    let mut glean = new_glean();
    let metric = StringMetric::new(CommonMetricData::new(
        "category",
        "string_metric",
        "baseline",
    ));

    metric.set(&mut glean, "TEST VALUE");
    assert!(metric.test_get_value(&glean, "baseline").is_some());

    glean.set_upload_enabled(false, fresh(SECOND_ID));
    assert!(metric.test_get_value(&glean, "baseline").is_none());

    metric.set(&mut glean, "TEST VALUE");
    assert!(metric.test_get_value(&glean, "baseline").is_none());

    glean.set_upload_enabled(true, fresh(SECOND_ID));
    assert!(metric.test_get_value(&glean, "baseline").is_none());

    metric.set(&mut glean, "TEST VALUE");
    assert!(metric.test_get_value(&glean, "baseline").is_some());
}

#[test]
fn first_run_date_is_managed_correctly_when_toggling_uploading() {
    let mut glean = new_glean();

    let original_first_run_date = glean.first_run_date();

    glean.set_upload_enabled(false, fresh(SECOND_ID));
    assert_eq!(original_first_run_date, glean.first_run_date());

    glean.set_upload_enabled(true, fresh(SECOND_ID));
    assert_eq!(original_first_run_date, glean.first_run_date());
}

#[test]
fn client_id_is_managed_correctly_when_toggling_uploading() {
    let mut glean = new_glean();

    let original_client_id = glean.client_id();
    assert!(original_client_id.is_some());
    assert_ne!(KNOWN_CLIENT_ID, original_client_id.clone().unwrap());

    glean.set_upload_enabled(false, fresh(SECOND_ID));
    assert_eq!(KNOWN_CLIENT_ID, glean.client_id().unwrap());

    glean.set_upload_enabled(true, fresh(SECOND_ID));
    let current_client_id = glean.client_id();
    assert!(current_client_id.is_some());
    assert_ne!(KNOWN_CLIENT_ID, current_client_id.clone().unwrap());
    assert_ne!(original_client_id, current_client_id);
}

#[test]
fn client_id_is_set_to_known_value_when_uploading_disabled_at_start() {
    let glean = open(None, GLOBAL_APPLICATION_ID, false);

    assert_eq!(KNOWN_CLIENT_ID, glean.client_id().unwrap());
}

#[test]
fn client_id_is_set_to_random_value_when_uploading_enabled_at_start() {
    let glean = open(None, GLOBAL_APPLICATION_ID, true);

    let current_client_id = glean.client_id();
    assert!(current_client_id.is_some());
    assert_ne!(KNOWN_CLIENT_ID, current_client_id.unwrap());
}

#[test]
fn enabling_when_already_enabled_is_a_noop() {
    let mut glean = open(None, GLOBAL_APPLICATION_ID, true);

    assert!(!glean.set_upload_enabled(true, fresh(SECOND_ID)));
}

#[test]
fn disabling_when_already_disabled_is_a_noop() {
    let mut glean = open(None, GLOBAL_APPLICATION_ID, false);

    assert!(!glean.set_upload_enabled(false, fresh(SECOND_ID)));
}
