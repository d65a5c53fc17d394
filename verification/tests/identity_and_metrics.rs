use glean_core::identity::{client_id_storage_key, first_run_date_storage_key, is_identity};
use glean_core::{
    CommonMetricData, Date, Error, FreshId, Glean, Lifetime, Metric, StorageKey, Store,
    StringMetric, KNOWN_CLIENT_ID,
};

const APP: &str = "org.mozilla.glean.test.app";
const FIRST_ID: &str = "3d5ed8c5-6b0f-4a5e-9a53-2f1d3c0b8e11";
const SECOND_ID: &str = "9b1c2a77-41de-4c0a-8f6e-5a7c90d2e4f3";
const THIRD_ID: &str = "e4b0f6a2-7c1d-4f35-b1a8-0d9c3e5f7a21";
const DAY_ONE: u32 = 18025;
const DAY_TWO: u32 = 18026;
const DAY_ONE_TEXT: &str = "2019-05-09";
const DAY_TWO_TEXT: &str = "2019-05-10";

fn fresh(text: &str) -> FreshId {
    FreshId::new(text.to_string()).unwrap()
}

fn open(image: Option<&[u8]>, upload_enabled: bool, id: &str, today: u32) -> Glean {
    Glean::with_options(image, APP, upload_enabled, fresh(id), Date::from_days(today)).unwrap()
}

fn baseline_metric() -> StringMetric {
    StringMetric::new(CommonMetricData::new("category", "string_metric", "baseline"))
}

#[test]
fn the_known_client_id_is_the_documented_one() {
    assert_eq!("c0ffeec0-ffee-c0ff-eec0-ffeec0ffeec0", KNOWN_CLIENT_ID);
}

#[test]
fn the_known_client_id_is_no_fresh_id() {
    assert!(FreshId::new(KNOWN_CLIENT_ID.to_string()).is_none());
    assert_eq!(FIRST_ID, fresh(FIRST_ID).as_str());
    assert_eq!(FIRST_ID, fresh(FIRST_ID).into_string());
}

#[test]
fn initialization_writes_the_id_and_the_date_given() {
    let glean = open(None, true, FIRST_ID, DAY_ONE);
    assert_eq!(Some(FIRST_ID.to_string()), glean.client_id());
    assert_eq!(Some(DAY_ONE_TEXT.to_string()), glean.first_run_date());
    assert!(glean.is_upload_enabled());
    assert_eq!(APP, glean.application_id());
}

#[test]
fn a_restart_keeps_the_identity() {
    let image = open(None, true, FIRST_ID, DAY_ONE).to_bytes();
    let glean = open(Some(&image), true, SECOND_ID, DAY_TWO);
    assert_eq!(Some(FIRST_ID.to_string()), glean.client_id());
    assert_eq!(Some(DAY_ONE_TEXT.to_string()), glean.first_run_date());
}

#[test]
fn a_restart_with_upload_disabled_is_the_disabling() {
    let mut first = open(None, true, FIRST_ID, DAY_ONE);
    let metric = baseline_metric();
    metric.set(&mut first, "TEST VALUE");
    let image = first.to_bytes();

    let glean = open(Some(&image), false, SECOND_ID, DAY_TWO);
    assert_eq!(Some(KNOWN_CLIENT_ID.to_string()), glean.client_id());
    assert_eq!(Some(DAY_ONE_TEXT.to_string()), glean.first_run_date());
    assert!(metric.test_get_value(&glean, "baseline").is_none());
}

#[test]
fn a_restart_with_upload_enabled_again_gives_a_new_id() {
    let image = open(None, false, FIRST_ID, DAY_ONE).to_bytes();
    let glean = open(Some(&image), true, SECOND_ID, DAY_TWO);
    assert_eq!(Some(SECOND_ID.to_string()), glean.client_id());
    assert_eq!(Some(DAY_ONE_TEXT.to_string()), glean.first_run_date());
}

#[test]
fn a_full_clear_and_a_restart_write_the_identity_anew() {
    let mut glean = open(None, true, FIRST_ID, DAY_ONE);
    glean.test_clear_all();
    assert_eq!(None, glean.client_id());
    assert_eq!(None, glean.first_run_date());

    let image = glean.to_bytes();
    let again = open(Some(&image), true, SECOND_ID, DAY_TWO);
    assert_eq!(Some(SECOND_ID.to_string()), again.client_id());
    assert_eq!(Some(DAY_TWO_TEXT.to_string()), again.first_run_date());
}

#[test]
fn bytes_that_are_no_image_fail_the_initialization() {
    let opened = Glean::with_options(
        Some(b"not an image"),
        APP,
        true,
        fresh(FIRST_ID),
        Date::from_days(DAY_ONE),
    );
    assert!(matches!(opened, Err(Error::Initialization)));
}

#[test]
fn toggling_gives_three_client_ids() {
    let mut glean = open(None, true, FIRST_ID, DAY_ONE);
    assert!(!glean.set_upload_enabled(true, fresh(SECOND_ID)));
    let before = glean.client_id().unwrap();
    assert!(glean.set_upload_enabled(false, fresh(SECOND_ID)));
    let between = glean.client_id().unwrap();
    assert!(glean.set_upload_enabled(true, fresh(THIRD_ID)));
    let after = glean.client_id().unwrap();

    assert_eq!(FIRST_ID, before);
    assert_eq!(KNOWN_CLIENT_ID, between);
    assert_eq!(THIRD_ID, after);
}

#[test]
fn the_setting_follows_the_toggle() {
    let mut glean = open(None, true, FIRST_ID, DAY_ONE);
    assert!(glean.is_upload_enabled());
    glean.set_upload_enabled(false, fresh(SECOND_ID));
    assert!(!glean.is_upload_enabled());
    glean.set_upload_enabled(true, fresh(SECOND_ID));
    assert!(glean.is_upload_enabled());
}

#[test]
fn setting_the_current_value_touches_nothing() {
    let mut glean = open(None, true, FIRST_ID, DAY_ONE);
    let metric = baseline_metric();
    metric.set(&mut glean, "TEST VALUE");
    let image = glean.to_bytes();

    assert!(!glean.set_upload_enabled(true, fresh(SECOND_ID)));
    assert_eq!(image, glean.to_bytes());
    assert_eq!(Some("TEST VALUE".to_string()), metric.test_get_value(&glean, "baseline"));
    assert_eq!(Some(FIRST_ID.to_string()), glean.client_id());

    glean.set_upload_enabled(false, fresh(SECOND_ID));
    let disabled = glean.to_bytes();
    assert!(!glean.set_upload_enabled(false, fresh(THIRD_ID)));
    assert_eq!(disabled, glean.to_bytes());
}

#[test]
fn disabling_clears_ping_and_application_but_not_user() {
    let mut glean = open(None, true, FIRST_ID, DAY_ONE);
    assert!(glean.record(Lifetime::Ping, StorageKey::new("c", "p", "s"), Metric::Counter(1)));
    assert!(glean.record(Lifetime::Application, StorageKey::new("c", "a", "s"), Metric::Counter(2)));
    assert!(glean.record(Lifetime::User, StorageKey::new("c", "u", "s"), Metric::Counter(3)));

    glean.set_upload_enabled(false, fresh(SECOND_ID));

    assert!(glean.read(Lifetime::Ping, &StorageKey::new("c", "p", "s")).is_none());
    assert!(glean.read(Lifetime::Application, &StorageKey::new("c", "a", "s")).is_none());
    assert!(matches!(
        glean.read(Lifetime::User, &StorageKey::new("c", "u", "s")),
        Some(Metric::Counter(3))
    ));
}

#[test]
fn a_write_while_disabled_is_refused_and_leaves_no_trace() {
    let mut glean = open(None, false, FIRST_ID, DAY_ONE);
    let image = glean.to_bytes();
    assert!(!glean.record(Lifetime::User, StorageKey::new("c", "u", "s"), Metric::Counter(3)));
    assert_eq!(image, glean.to_bytes());

    glean.set_upload_enabled(true, fresh(SECOND_ID));
    assert!(glean.read(Lifetime::User, &StorageKey::new("c", "u", "s")).is_none());
}

#[test]
fn the_places_of_the_identity_are_closed_to_metrics() {
    assert!(is_identity(Lifetime::User, &client_id_storage_key()));
    assert!(is_identity(Lifetime::User, &first_run_date_storage_key()));
    assert!(!is_identity(Lifetime::Ping, &client_id_storage_key()));
    assert!(!is_identity(Lifetime::User, &StorageKey::new("", "client_id", "baseline")));

    let mut glean = open(None, true, FIRST_ID, DAY_ONE);
    assert!(!glean.record(
        Lifetime::User,
        client_id_storage_key(),
        Metric::String(KNOWN_CLIENT_ID.to_string())
    ));
    assert!(!glean.record(
        Lifetime::User,
        first_run_date_storage_key(),
        Metric::String(DAY_TWO_TEXT.to_string())
    ));
    assert_eq!(Some(FIRST_ID.to_string()), glean.client_id());
    assert_eq!(Some(DAY_ONE_TEXT.to_string()), glean.first_run_date());
}

#[test]
fn the_identity_is_stored_under_the_user_lifetime() {
    let glean = open(None, true, FIRST_ID, DAY_ONE);
    match glean.storage().read(Lifetime::User, &StorageKey::new("", "client_id", "glean_client_info")) {
        Some(Metric::String(id)) => assert_eq!(FIRST_ID, id),
        _ => panic!("no client id in the store"),
    }
    match glean.read(Lifetime::User, &StorageKey::new("", "first_run_date", "glean_client_info")) {
        Some(Metric::String(date)) => assert_eq!(DAY_ONE_TEXT, date),
        _ => panic!("no first-run date in the store"),
    }
}

#[test]
fn a_store_with_something_else_at_the_client_id_gets_an_id() {
    let mut store = Store::new();
    store.write(Lifetime::User, client_id_storage_key(), Metric::Boolean(true));
    let glean = Glean::with_store(store, APP, true, fresh(FIRST_ID), Date::from_days(DAY_ONE));
    assert_eq!(Some(FIRST_ID.to_string()), glean.client_id());
}

#[test]
fn a_metric_is_set_in_each_of_its_pings() {
    let mut glean = open(None, true, FIRST_ID, DAY_ONE);
    let mut meta = CommonMetricData::new("category", "name", "baseline");
    meta.send_in_pings.push("metrics".to_string());
    meta.lifetime = Lifetime::Application;
    let metric = StringMetric::new(meta);

    metric.set(&mut glean, "value");

    assert_eq!(Some("value".to_string()), metric.test_get_value(&glean, "baseline"));
    assert_eq!(Some("value".to_string()), metric.test_get_value(&glean, "metrics"));
    assert_eq!(None, metric.test_get_value(&glean, "events"));
    assert!(glean.read(Lifetime::Ping, &StorageKey::new("category", "name", "baseline")).is_none());
}

#[test]
fn a_metric_of_another_kind_is_no_string() {
    let mut glean = open(None, true, FIRST_ID, DAY_ONE);
    glean.record(
        Lifetime::Ping,
        StorageKey::new("category", "string_metric", "baseline"),
        Metric::Counter(7),
    );
    assert_eq!(None, baseline_metric().test_get_value(&glean, "baseline"));
}

#[test]
fn a_metric_set_again_after_enabling_is_read_back() {
    let mut glean = open(None, true, FIRST_ID, DAY_ONE);
    let metric = baseline_metric();
    glean.set_upload_enabled(false, fresh(SECOND_ID));
    metric.set(&mut glean, "while disabled");
    glean.set_upload_enabled(true, fresh(SECOND_ID));
    assert_eq!(None, metric.test_get_value(&glean, "baseline"));
    metric.set(&mut glean, "after");
    assert_eq!(Some("after".to_string()), metric.test_get_value(&glean, "baseline"));
}

#[test]
fn make_path_uses_the_application_id_whatever_the_setting() {
    let mut glean = open(None, true, FIRST_ID, DAY_ONE);
    let enabled = glean.make_path("baseline", "doc").unwrap();
    glean.set_upload_enabled(false, fresh(SECOND_ID));
    assert_eq!(enabled, glean.make_path("baseline", "doc").unwrap());
    assert_eq!("/submit/org-mozilla-glean-test-app/baseline/1/doc", enabled);
    assert_eq!(Err(Error::InvalidArgument), glean.make_path("", "doc"));
    assert_eq!(Err(Error::InvalidArgument), glean.make_path("baseline", ""));
}

#[test]
fn a_client_id_of_random_bytes_has_the_layout_of_a_random_uuid() {
    let bytes: [u8; 16] = [
        0x00, 0x01, 0x02, 0x03, 0x04, 0x05, 0x06, 0x07, 0x08, 0x09, 0x0a, 0x0b, 0x0c, 0x0d, 0x0e,
        0x0f,
    ];
    assert_eq!("00010203-0405-4607-8809-0a0b0c0d0e0f", FreshId::from_entropy(&bytes).as_str());
    assert_eq!(
        "00000000-0000-4000-8000-000000000000",
        FreshId::from_entropy(&[0u8; 16]).as_str()
    );
    assert_eq!(
        "ffffffff-ffff-4fff-bfff-ffffffffffff",
        FreshId::from_entropy(&[0xffu8; 16]).as_str()
    );
}

#[test]
fn the_bytes_of_the_known_client_id_give_another_id() {
    let bytes: [u8; 16] = [
        0xc0, 0xff, 0xee, 0xc0, 0xff, 0xee, 0xc0, 0xff, 0xee, 0xc0, 0xff, 0xee, 0xc0, 0xff, 0xee,
        0xc0,
    ];
    let id = FreshId::from_entropy(&bytes);
    assert_eq!("c0ffeec0-ffee-40ff-aec0-ffeec0ffeec0", id.as_str());
    assert_ne!(KNOWN_CLIENT_ID, id.as_str());
}

#[test]
fn a_generated_id_becomes_the_client_id() {
    let id = FreshId::from_entropy(&[7u8; 16]);
    let glean = Glean::with_options(None, APP, true, id, Date::from_days(DAY_ONE)).unwrap();
    assert_eq!(Some("07070707-0707-4707-8707-070707070707".to_string()), glean.client_id());
}
