use glean_core::{Error, Lifetime, Metric, StorageKey, Store};

fn key(name: &str) -> StorageKey {
    StorageKey::new("category", name, "baseline")
}

fn text(store: &Store, lifetime: Lifetime, name: &str) -> Option<String> {
    match store.read(lifetime, &key(name)) {
        Some(Metric::String(s)) => Some(s.clone()),
        _ => None,
    }
}

fn sample() -> Store {
    let mut store = Store::new();
    store.write(Lifetime::Ping, key("p"), Metric::String("ping value".to_string()));
    store.write(Lifetime::Application, key("a"), Metric::Boolean(true));
    store.write(Lifetime::User, key("u"), Metric::Counter(u64::MAX - 1));
    store.write(Lifetime::User, key("caf\u{e9}"), Metric::String("\u{1f600}".to_string()));
    store.set_experiment_active(
        "exp".to_string(),
        "branch".to_string(),
        Some(vec![("k1".to_string(), "v1".to_string()), ("k2".to_string(), "v2".to_string())]),
    );
    store.set_experiment_active("bare".to_string(), "b".to_string(), None);
    store
}

#[test]
fn a_new_store_holds_nothing() {
    let store = Store::new();
    assert!(store.read(Lifetime::Ping, &key("p")).is_none());
    assert!(!store.is_experiment_active("exp".to_string()));
}

#[test]
fn a_written_value_is_read_back() {
    let mut store = Store::new();
    store.write(Lifetime::Ping, key("p"), Metric::String("one".to_string()));
    assert_eq!(Some("one".to_string()), text(&store, Lifetime::Ping, "p"));
}

#[test]
fn a_second_write_replaces_the_first() {
    let mut store = Store::new();
    store.write(Lifetime::Ping, key("p"), Metric::String("one".to_string()));
    store.write(Lifetime::Ping, key("p"), Metric::String("two".to_string()));
    assert_eq!(Some("two".to_string()), text(&store, Lifetime::Ping, "p"));
}

#[test]
fn an_empty_value_is_not_an_absent_one() {
    let mut store = Store::new();
    store.write(Lifetime::Ping, key("p"), Metric::String(String::new()));
    assert_eq!(Some(String::new()), text(&store, Lifetime::Ping, "p"));
    assert_eq!(None, text(&store, Lifetime::Ping, "q"));
}

#[test]
fn lifetimes_are_apart() {
    let mut store = Store::new();
    store.write(Lifetime::Ping, key("m"), Metric::String("ping".to_string()));
    store.write(Lifetime::User, key("m"), Metric::String("user".to_string()));
    assert_eq!(Some("ping".to_string()), text(&store, Lifetime::Ping, "m"));
    assert_eq!(Some("user".to_string()), text(&store, Lifetime::User, "m"));
    assert_eq!(None, text(&store, Lifetime::Application, "m"));
}

#[test]
fn keys_differ_by_each_part() {
    let mut store = Store::new();
    store.write(Lifetime::Ping, StorageKey::new("c", "n", "p"), Metric::Counter(1));
    assert!(store.read(Lifetime::Ping, &StorageKey::new("c", "n", "p")).is_some());
    assert!(store.read(Lifetime::Ping, &StorageKey::new("x", "n", "p")).is_none());
    assert!(store.read(Lifetime::Ping, &StorageKey::new("c", "x", "p")).is_none());
    assert!(store.read(Lifetime::Ping, &StorageKey::new("c", "n", "x")).is_none());
}

#[test]
fn clear_removes_one_lifetime_only() {
    let mut store = sample();
    store.clear(Lifetime::Ping);
    assert!(store.read(Lifetime::Ping, &key("p")).is_none());
    assert!(store.read(Lifetime::Application, &key("a")).is_some());
    assert!(store.read(Lifetime::User, &key("u")).is_some());
    assert!(store.is_experiment_active("exp".to_string()));
}

#[test]
fn clear_twice_is_clear_once() {
    let mut store = sample();
    store.clear(Lifetime::User);
    let once = store.to_bytes();
    store.clear(Lifetime::User);
    assert_eq!(once, store.to_bytes());
}

#[test]
fn clear_removes_every_value_of_the_lifetime() {
    let mut store = Store::new();
    for n in 0..5 {
        store.write(Lifetime::Ping, key(&format!("p{}", n)), Metric::Counter(n));
        store.write(Lifetime::User, key(&format!("u{}", n)), Metric::Counter(n));
    }
    store.clear(Lifetime::Ping);
    for n in 0..5 {
        assert!(store.read(Lifetime::Ping, &key(&format!("p{}", n))).is_none());
        assert!(store.read(Lifetime::User, &key(&format!("u{}", n))).is_some());
    }
}

#[test]
fn clear_all_removes_everything() {
    let mut store = sample();
    store.clear_all();
    assert!(store.read(Lifetime::Ping, &key("p")).is_none());
    assert!(store.read(Lifetime::Application, &key("a")).is_none());
    assert!(store.read(Lifetime::User, &key("u")).is_none());
    assert!(!store.is_experiment_active("exp".to_string()));
    assert_eq!(Store::new().to_bytes(), store.to_bytes());
}

#[test]
fn the_image_of_an_empty_store_is_the_header_and_two_counts() {
    let mut expected = vec![71u8, 76, 69, 65, 78, 1];
    expected.extend_from_slice(&[0u8; 16]);
    assert_eq!(expected, Store::new().to_bytes());
}

#[test]
fn the_image_of_one_counter_is_laid_out_byte_by_byte() {
    let mut store = Store::new();
    store.write(Lifetime::User, StorageKey::new("c", "", "pi"), Metric::Counter(0x0102));
    let expected: Vec<u8> = vec![
        71, 76, 69, 65, 78, 1, // header
        1, 0, 0, 0, 0, 0, 0, 0, // one metric
        2, // user lifetime
        1, 0, 0, 0, 0, 0, 0, 0, 99, // category
        0, 0, 0, 0, 0, 0, 0, 0, // name
        2, 0, 0, 0, 0, 0, 0, 0, 112, 105, // ping
        2, 2, 1, 0, 0, 0, 0, 0, 0, // counter
        0, 0, 0, 0, 0, 0, 0, 0, // no experiment
    ];
    assert_eq!(expected, store.to_bytes());
}

#[test]
fn a_store_comes_back_from_its_image() {
    let store = sample();
    let image = store.to_bytes();
    let opened = Store::from_bytes(&image).ok().unwrap();

    assert_eq!(Some("ping value".to_string()), text(&opened, Lifetime::Ping, "p"));
    assert!(matches!(opened.read(Lifetime::Application, &key("a")), Some(Metric::Boolean(true))));
    match opened.read(Lifetime::User, &key("u")) {
        Some(Metric::Counter(n)) => assert_eq!(u64::MAX - 1, *n),
        _ => panic!("the counter is gone"),
    }
    assert_eq!(Some("\u{1f600}".to_string()), text(&opened, Lifetime::User, "caf\u{e9}"));
    let record = opened.experiment("exp".to_string()).unwrap();
    assert_eq!("branch", record.branch());
    assert_eq!(
        Some(&vec![("k1".to_string(), "v1".to_string()), ("k2".to_string(), "v2".to_string())]),
        record.extra()
    );
    assert!(opened.experiment("bare".to_string()).unwrap().extra().is_none());
    assert_eq!(image, opened.to_bytes());
}

#[test]
fn bytes_without_the_header_are_refused() {
    assert!(matches!(Store::from_bytes(&[]), Err(Error::Initialization)));
    assert!(matches!(Store::from_bytes(b"GLEAN"), Err(Error::Initialization)));
    let mut image = Store::new().to_bytes();
    image[5] = 2;
    assert!(matches!(Store::from_bytes(&image), Err(Error::Initialization)));
}

#[test]
fn a_cut_image_is_refused() {
    let image = sample().to_bytes();
    for length in 0..image.len() {
        assert!(
            matches!(Store::from_bytes(&image[..length]), Err(Error::Initialization)),
            "a prefix of {} bytes was accepted",
            length
        );
    }
}

#[test]
fn an_image_with_bytes_after_it_is_refused() {
    let mut image = sample().to_bytes();
    image.push(0);
    assert!(matches!(Store::from_bytes(&image), Err(Error::Initialization)));
}

#[test]
fn an_image_with_an_unknown_tag_is_refused() {
    let mut store = Store::new();
    store.write(Lifetime::Ping, StorageKey::new("", "", ""), Metric::Boolean(false));
    let image = store.to_bytes();
    // the lifetime byte follows the header and the count
    let mut bad_lifetime = image.clone();
    bad_lifetime[14] = 3;
    assert!(matches!(Store::from_bytes(&bad_lifetime), Err(Error::Initialization)));
    // the kind byte follows the three empty strings
    let mut bad_kind = image.clone();
    bad_kind[39] = 9;
    assert!(matches!(Store::from_bytes(&bad_kind), Err(Error::Initialization)));
    let mut bad_flag = image.clone();
    bad_flag[40] = 2;
    assert!(matches!(Store::from_bytes(&bad_flag), Err(Error::Initialization)));
    assert!(Store::from_bytes(&image).is_ok());
}

#[test]
fn an_image_with_a_string_that_is_not_utf8_is_refused() {
    let mut store = Store::new();
    store.write(Lifetime::Ping, StorageKey::new("c", "", ""), Metric::Boolean(false));
    let mut image = store.to_bytes();
    assert_eq!(99, image[23]);
    image[23] = 0xff;
    assert!(matches!(Store::from_bytes(&image), Err(Error::Initialization)));
}

#[test]
fn an_image_with_a_count_beyond_its_items_is_refused() {
    let mut image = Store::new().to_bytes();
    image[6] = 1;
    assert!(matches!(Store::from_bytes(&image), Err(Error::Initialization)));
    let mut huge = Store::new().to_bytes();
    for at in 6..14 {
        huge[at] = 0xff;
    }
    assert!(matches!(Store::from_bytes(&huge), Err(Error::Initialization)));
}

#[test]
fn an_image_that_lists_a_place_twice_keeps_the_last_value() {
    let mut one = Store::new();
    one.write(Lifetime::Ping, StorageKey::new("", "n", ""), Metric::Boolean(false));
    let single = one.to_bytes();
    let item = &single[14..single.len() - 8];
    let mut changed = item.to_vec();
    let last = changed.len() - 1;
    changed[last] = 1;

    let mut image = vec![71u8, 76, 69, 65, 78, 1, 2, 0, 0, 0, 0, 0, 0, 0];
    image.extend_from_slice(item);
    image.extend_from_slice(&changed);
    image.extend_from_slice(&[0u8; 8]);

    let opened = Store::from_bytes(&image).ok().unwrap();
    assert!(matches!(
        opened.read(Lifetime::Ping, &StorageKey::new("", "n", "")),
        Some(Metric::Boolean(true))
    ));
}

#[test]
fn an_image_with_an_experiment_beyond_the_bounds_is_cut_on_opening() {
    // An image written by hand: one experiment whose id has 31 characters.
    let mut image = vec![71u8, 76, 69, 65, 78, 1];
    image.extend_from_slice(&[0u8; 8]);
    image.extend_from_slice(&[1, 0, 0, 0, 0, 0, 0, 0]);
    image.extend_from_slice(&[31, 0, 0, 0, 0, 0, 0, 0]);
    image.extend_from_slice("i".repeat(31).as_bytes());
    image.extend_from_slice(&[1, 0, 0, 0, 0, 0, 0, 0, 98]);
    image.push(0);

    let opened = Store::from_bytes(&image).ok().unwrap();
    assert!(opened.is_experiment_active("i".repeat(30)));
    assert_eq!("b", opened.experiment("i".repeat(30)).unwrap().branch());
}
