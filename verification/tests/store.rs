//! Tests of the configuration store: creation, conflict policy, the
//! active pointer, and opening from persisted state.

use gcloud_ctx::error::Error;
use gcloud_ctx::properties::{Properties, PropertiesBuilder};
use gcloud_ctx::store::{ConfigurationStore, ConflictAction, PostCreation};

fn props(project: &str) -> Properties {
    let mut b = PropertiesBuilder::default();
    b.with_project(project);
    b.build()
}

fn empty_store() -> ConfigurationStore {
    ConfigurationStore::open(Vec::new(), None).unwrap()
}

fn names(store: &ConfigurationStore) -> Vec<String> {
    store.configurations().iter().map(|c| c.name().clone()).collect()
}

#[test]
fn fresh_store_is_empty_and_inactive() {
    let store = empty_store();
    assert!(store.configurations().is_empty());
    assert!(matches!(store.active(), Err(Error::NoActiveConfiguration)));
}

#[test]
fn distinct_creates_stay_independent() {
    let mut store = empty_store();
    store.create("one", &props("p1"), ConflictAction::Fail).unwrap();
    store.create("two", &props("p2"), ConflictAction::Fail).unwrap();
    assert_eq!(store.describe("one").unwrap(), props("p1"));
    assert_eq!(store.describe("two").unwrap(), props("p2"));
}

#[test]
fn create_fail_on_existing_conflicts_and_keeps_properties() {
    let mut store = empty_store();
    store.create("work", &props("before"), ConflictAction::Fail).unwrap();
    let r = store.create("work", &props("after"), ConflictAction::Fail);
    assert!(matches!(r, Err(Error::Conflict(n)) if n == "work"));
    assert_eq!(store.describe("work").unwrap(), props("before"));
}

#[test]
fn create_overwrite_replaces_properties_and_keeps_active_status() {
    let mut store = empty_store();
    store.create("work", &props("before"), ConflictAction::Fail).unwrap();
    store.activate("work").unwrap();
    store.create("work", &props("after"), ConflictAction::Overwrite).unwrap();
    assert_eq!(store.describe("work").unwrap(), props("after"));
    assert_eq!(store.active().unwrap(), "work");
    assert_eq!(names(&store), vec!["work".to_owned()]);
}

#[test]
fn create_rejects_invalid_names() {
    let mut store = empty_store();
    assert!(matches!(
        store.create("", &props("p"), ConflictAction::Fail),
        Err(Error::InvalidName(_))
    ));
    assert!(matches!(
        store.create("bad/name", &props("p"), ConflictAction::Fail),
        Err(Error::InvalidName(_))
    ));
    assert!(store.configurations().is_empty());
}

#[test]
fn activate_then_active_returns_name_and_exactly_one_is_active() {
    let mut store = empty_store();
    store.create("a", &props("pa"), ConflictAction::Fail).unwrap();
    store.create("b", &props("pb"), ConflictAction::Fail).unwrap();
    store.activate("b").unwrap();
    assert_eq!(store.active().unwrap(), "b");
    let active_count = store
        .configurations()
        .iter()
        .filter(|c| store.is_active(c))
        .count();
    assert_eq!(active_count, 1);
    store.activate("a").unwrap();
    assert_eq!(store.active().unwrap(), "a");
    let active_count = store
        .configurations()
        .iter()
        .filter(|c| store.is_active(c))
        .count();
    assert_eq!(active_count, 1);
}

#[test]
fn activate_missing_fails_with_not_found() {
    let mut store = empty_store();
    assert!(matches!(store.activate("ghost"), Err(Error::NotFound(n)) if n == "ghost"));
}

#[test]
fn scenario_create_activate_describe() {
    let mut store = empty_store();
    let mut b = PropertiesBuilder::default();
    b.with_project("acme");
    b.with_account("a@b.com");
    b.with_zone("us-east1-b");
    store.create("work", &b.build(), ConflictAction::Fail).unwrap();

    assert_eq!(names(&store), vec!["work".to_owned()]);
    assert!(store.configurations().iter().all(|c| !store.is_active(c)));

    store.activate("work").unwrap();
    assert_eq!(store.active().unwrap(), "work");

    let described = store.describe("work").unwrap();
    assert_eq!(
        described.serialize(),
        "[core]\nproject = acme\naccount = a@b.com\n\n[compute]\nzone = us-east1-b\n"
    );
}

#[test]
fn rename_moves_the_active_marker() {
    let mut store = empty_store();
    store.create("work", &props("p"), ConflictAction::Fail).unwrap();
    store.activate("work").unwrap();
    store.rename("work", "prod", ConflictAction::Fail).unwrap();
    assert_eq!(store.active().unwrap(), "prod");
    assert_eq!(names(&store), vec!["prod".to_owned()]);
    assert!(store.find_by_name("work").is_none());
    assert_eq!(store.describe("prod").unwrap(), props("p"));
}

#[test]
fn rename_conflicts_and_not_found() {
    let mut store = empty_store();
    store.create("a", &props("pa"), ConflictAction::Fail).unwrap();
    store.create("b", &props("pb"), ConflictAction::Fail).unwrap();
    assert!(matches!(
        store.rename("ghost", "c", ConflictAction::Fail),
        Err(Error::NotFound(n)) if n == "ghost"
    ));
    assert!(matches!(
        store.rename("a", "b", ConflictAction::Fail),
        Err(Error::Conflict(n)) if n == "b"
    ));
    assert!(matches!(
        store.rename("a", "bad name", ConflictAction::Fail),
        Err(Error::InvalidName(_))
    ));
    assert_eq!(store.describe("b").unwrap(), props("pb"));
}

#[test]
fn rename_overwrite_replaces_destination() {
    let mut store = empty_store();
    store.create("a", &props("pa"), ConflictAction::Fail).unwrap();
    store.create("b", &props("pb"), ConflictAction::Fail).unwrap();
    store.rename("a", "b", ConflictAction::Overwrite).unwrap();
    assert_eq!(names(&store), vec!["b".to_owned()]);
    assert_eq!(store.describe("b").unwrap(), props("pa"));
}

#[test]
fn rename_onto_own_name_follows_conflict_policy() {
    let mut store = empty_store();
    store.create("a", &props("pa"), ConflictAction::Fail).unwrap();
    assert!(matches!(
        store.rename("a", "a", ConflictAction::Fail),
        Err(Error::Conflict(n)) if n == "a"
    ));
    store.rename("a", "a", ConflictAction::Overwrite).unwrap();
    assert_eq!(names(&store), vec!["a".to_owned()]);
    assert_eq!(store.describe("a").unwrap(), props("pa"));
}

#[test]
fn describe_missing_fails_with_not_found() {
    let store = empty_store();
    assert!(matches!(store.describe("ghost"), Err(Error::NotFound(n)) if n == "ghost"));
}

#[test]
fn delete_active_clears_the_marker() {
    let mut store = empty_store();
    store.create("a", &props("pa"), ConflictAction::Fail).unwrap();
    store.create("b", &props("pb"), ConflictAction::Fail).unwrap();
    store.activate("a").unwrap();
    store.delete("a").unwrap();
    assert_eq!(names(&store), vec!["b".to_owned()]);
    assert!(matches!(store.active(), Err(Error::NoActiveConfiguration)));
}

#[test]
fn delete_inactive_keeps_the_marker() {
    let mut store = empty_store();
    store.create("a", &props("pa"), ConflictAction::Fail).unwrap();
    store.create("b", &props("pb"), ConflictAction::Fail).unwrap();
    store.activate("a").unwrap();
    store.delete("b").unwrap();
    assert_eq!(store.active().unwrap(), "a");
    assert!(matches!(store.delete("b"), Err(Error::NotFound(_))));
}

#[test]
fn copy_duplicates_properties() {
    let mut store = empty_store();
    store.create("src", &props("p"), ConflictAction::Fail).unwrap();
    store.copy("src", "dst", ConflictAction::Fail).unwrap();
    assert_eq!(store.describe("dst").unwrap(), props("p"));
    assert_eq!(store.describe("src").unwrap(), props("p"));
    assert!(matches!(
        store.copy("ghost", "x", ConflictAction::Fail),
        Err(Error::NotFound(n)) if n == "ghost"
    ));
    assert!(matches!(
        store.copy("src", "dst", ConflictAction::Fail),
        Err(Error::Conflict(n)) if n == "dst"
    ));
}

#[test]
fn open_reads_entries_and_marker() {
    let entries = vec![
        ("alpha".to_owned(), "[core]\nproject = pa\n".to_owned()),
        ("beta".to_owned(), "".to_owned()),
    ];
    let store = ConfigurationStore::open(entries, Some("beta".to_owned())).unwrap();
    assert_eq!(names(&store), vec!["alpha".to_owned(), "beta".to_owned()]);
    assert_eq!(store.active().unwrap(), "beta");
    assert_eq!(store.describe("alpha").unwrap(), props("pa"));
}

#[test]
fn open_surfaces_corrupt_marker() {
    let entries = vec![("alpha".to_owned(), "".to_owned())];
    let r = ConfigurationStore::open(entries, Some("ghost".to_owned()));
    assert!(matches!(r, Err(Error::CorruptState(n)) if n == "ghost"));
}

#[test]
fn open_surfaces_malformed_profile() {
    let entries = vec![("alpha".to_owned(), "not a key file".to_owned())];
    let r = ConfigurationStore::open(entries, None);
    assert!(matches!(r, Err(Error::SerializationError(_))));
}

#[test]
fn open_surfaces_invalid_entry_name() {
    let entries = vec![("not a name".to_owned(), "".to_owned())];
    let r = ConfigurationStore::open(entries, None);
    assert!(matches!(r, Err(Error::InvalidName(n)) if n == "not a name"));
}

#[test]
fn post_creation_from_bool() {
    assert_eq!(PostCreation::from(true), PostCreation::Activate);
    assert_eq!(PostCreation::from(false), PostCreation::Noop);
}

#[test]
fn error_kind_predicates() {
    assert!(Error::NotFound("x".to_owned()).is_not_found());
    assert!(Error::Conflict("x".to_owned()).is_conflict());
    assert!(Error::InvalidName("x".to_owned()).is_invalid_name());
    assert!(Error::NoActiveConfiguration.is_no_active_configuration());
    assert!(Error::SerializationError("x".to_owned()).is_serialization_error());
    assert!(Error::CorruptState("x".to_owned()).is_corrupt_state());
}
