//! Tests of the properties model and its key-file codec.

use gcloud_ctx::error::Error;
use gcloud_ctx::properties::{Properties, PropertiesBuilder};

fn full_props() -> Properties {
    let mut b = PropertiesBuilder::default();
    b.with_project("acme");
    b.with_account("a@b.com");
    b.with_zone("us-east1-b");
    b.build()
}

#[test]
fn serialize_full_properties_exact_text() {
    let mut b = PropertiesBuilder::default();
    b.with_project("acme");
    b.with_account("a@b.com");
    b.with_zone("us-east1-b");
    b.with_region("us-east1");
    let p = b.build();
    assert_eq!(
        p.serialize(),
        "[core]\nproject = acme\naccount = a@b.com\n\n[compute]\nzone = us-east1-b\nregion = us-east1\n"
    );
}

#[test]
fn serialize_omits_absent_sections() {
    let mut b = PropertiesBuilder::default();
    b.with_project("p");
    let p = b.build();
    assert_eq!(p.serialize(), "[core]\nproject = p\n");

    let mut b = PropertiesBuilder::default();
    b.with_zone("z");
    let p = b.build();
    assert_eq!(p.serialize(), "[compute]\nzone = z\n");

    let p = PropertiesBuilder::default().build();
    assert_eq!(p.serialize(), "");
}

#[test]
fn round_trip_full() {
    let p = full_props();
    let q = Properties::deserialize(&p.serialize()).unwrap();
    assert_eq!(p, q);
}

#[test]
fn round_trip_partial_and_empty() {
    let mut b = PropertiesBuilder::default();
    b.with_region("europe-west1");
    let p = b.build();
    assert_eq!(Properties::deserialize(&p.serialize()).unwrap(), p);

    let empty = PropertiesBuilder::default().build();
    assert_eq!(Properties::deserialize("").unwrap(), empty);
}

#[test]
fn round_trip_value_with_spaces_and_equals() {
    let mut b = PropertiesBuilder::default();
    b.with_project("a = b = c");
    b.with_account(" leading and trailing ");
    let p = b.build();
    assert_eq!(Properties::deserialize(&p.serialize()).unwrap(), p);
}

#[test]
fn deserialize_ignores_unknown_sections_and_keys() {
    let text = "[core]\nproject = p\nmystery = q\n\n[elsewhere]\nproject = other\n";
    let p = Properties::deserialize(text).unwrap();
    assert_eq!(p.project().unwrap(), "p");
    assert!(p.account().is_none());
    assert!(p.zone().is_none());
    assert!(p.region().is_none());
}

#[test]
fn deserialize_accepts_unspaced_pairs() {
    let p = Properties::deserialize("[core]\nproject=p\n").unwrap();
    assert_eq!(p.project().unwrap(), "p");
}

#[test]
fn deserialize_skips_empty_values() {
    let p = Properties::deserialize("[core]\nproject = \naccount = a\n").unwrap();
    assert!(p.project().is_none());
    assert_eq!(p.account().unwrap(), "a");
}

#[test]
fn deserialize_last_assignment_wins() {
    let p = Properties::deserialize("[core]\nproject = one\nproject = two\n").unwrap();
    assert_eq!(p.project().unwrap(), "two");
}

#[test]
fn deserialize_rejects_stray_text() {
    let r = Properties::deserialize("[core]\nnot a pair\n");
    assert!(matches!(r, Err(Error::SerializationError(_))));
}

#[test]
fn deserialize_rejects_unclosed_header() {
    let r = Properties::deserialize("[core\nproject = p\n");
    assert!(matches!(r, Err(Error::SerializationError(_))));
}

#[test]
fn builder_getters_cover_all_fields() {
    let mut b = PropertiesBuilder::default();
    b.with_project("p");
    b.with_account("a");
    b.with_zone("z");
    b.with_region("r");
    let p = b.build();
    assert_eq!(p.project().unwrap(), "p");
    assert_eq!(p.account().unwrap(), "a");
    assert_eq!(p.zone().unwrap(), "z");
    assert_eq!(p.region().unwrap(), "r");
}

#[test]
fn clone_preserves_properties() {
    let p = full_props();
    let q = p.clone();
    assert_eq!(p, q);
}
