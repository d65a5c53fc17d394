use glean_core::path::{make_path, SCHEMA_VERSION};
use glean_core::text::{dasherize, render_decimal, truncate};
use glean_core::Error;

#[test]
fn truncate_keeps_short_strings_whole() {
    assert_eq!("", truncate("", 30));
    assert_eq!("abc", truncate("abc", 30));
    assert_eq!("abc", truncate("abc", 3));
}

#[test]
fn truncate_cuts_to_the_first_characters() {
    assert_eq!("ab", truncate("abc", 2));
    assert_eq!("", truncate("abc", 0));
    let long = "0123456789".repeat(5);
    assert_eq!("012345678901234567890123456789", truncate(&long, 30));
}

#[test]
fn truncate_counts_characters_not_bytes() {
    assert_eq!("\u{e9}\u{e8}", truncate("\u{e9}\u{e8}\u{ea}", 2));
    assert_eq!("\u{1f600}", truncate("\u{1f600}\u{1f601}", 1));
}

#[test]
fn dasherize_replaces_every_dot() {
    assert_eq!("org-mozilla-glean", dasherize("org.mozilla.glean"));
    assert_eq!("---", dasherize("..."));
    assert_eq!("-a-", dasherize(".a."));
}

#[test]
fn dasherize_leaves_other_characters() {
    assert_eq!("", dasherize(""));
    assert_eq!("no_dots-here", dasherize("no_dots-here"));
    assert_eq!("caf\u{e9}-au-lait", dasherize("caf\u{e9}.au.lait"));
}

#[test]
fn render_decimal_writes_base_ten() {
    assert_eq!("0", render_decimal(0));
    assert_eq!("1", render_decimal(1));
    assert_eq!("9", render_decimal(9));
    assert_eq!("10", render_decimal(10));
    assert_eq!("1203", render_decimal(1203));
    assert_eq!("4294967295", render_decimal(u32::MAX));
}

#[test]
fn schema_version_is_one() {
    assert_eq!(1, SCHEMA_VERSION);
}

#[test]
fn make_path_follows_the_template() {
    assert_eq!(
        Ok("/submit/org-mozilla-glean-test-app/baseline/1/this-is-a-docid".to_string()),
        make_path("org.mozilla.glean.test.app", "baseline", "this-is-a-docid")
    );
    assert_eq!(
        Ok("/submit/app/metrics/1/d.o.c".to_string()),
        make_path("app", "metrics", "d.o.c")
    );
}

#[test]
fn make_path_keeps_dots_outside_the_application_id() {
    assert_eq!(
        Ok("/submit/a-b/p.q/1/x.y".to_string()),
        make_path("a.b", "p.q", "x.y")
    );
}

#[test]
fn make_path_rejects_an_empty_ping_name() {
    assert_eq!(Err(Error::InvalidArgument), make_path("app", "", "doc"));
}

#[test]
fn make_path_rejects_an_empty_document_id() {
    assert_eq!(Err(Error::InvalidArgument), make_path("app", "ping", ""));
    assert_eq!(Err(Error::InvalidArgument), make_path("app", "", ""));
}

#[test]
fn make_path_accepts_an_empty_application_id() {
    assert_eq!(Ok("/submit//ping/1/doc".to_string()), make_path("", "ping", "doc"));
}

#[test]
fn error_messages_differ() {
    let all = [Error::Initialization, Error::Storage, Error::InvalidArgument];
    assert_eq!("the store could not be initialized", all[0].message());
    assert_eq!("a store operation failed", all[1].message());
    assert_eq!("an argument is malformed", all[2].message());
}
