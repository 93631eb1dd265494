//! The relation-level CRUD behavior, exercised on a post relation.

use joydb::codec::json::{decode_posts, encode_posts};
use joydb::{JoydbError, Post, Relation};

fn sample_posts() -> Vec<Post> {
    vec![first_post(), second_post(), third_post()]
}

fn first_post() -> Post {
    Post { id: 1, title: "First".to_string() }
}

fn second_post() -> Post {
    Post { id: 2, title: "Second".to_string() }
}

fn third_post() -> Post {
    Post { id: 3, title: "Third".to_string() }
}

fn sample_relation() -> Relation<Post> {
    Relation::new_with_records(sample_posts())
}

#[test]
fn test_serialize_relation() {
    let relation = Relation::new_with_records(sample_posts());

    let json = encode_posts(relation.records(), false);
    assert_eq!(
        json,
        r#"[{"id":1,"title":"First"},{"id":2,"title":"Second"},{"id":3,"title":"Third"}]"#
    );
}

#[test]
fn test_deserialize_relation() {
    let json = r#"[{"id":10,"title":"One"},{"id":20,"title":"Two"}]"#;

    let records = decode_posts(json).unwrap();
    let relation: Relation<Post> = Relation::new_with_records(records);

    assert_eq!(relation.records().len(), 2);
    assert_eq!(relation.records()[0].id, 10);
    assert_eq!(relation.records()[0].title, "One");
    assert_eq!(relation.records()[1].id, 20);
    assert_eq!(relation.records()[1].title, "Two");

    // A freshly decoded relation is never dirty.
    assert_eq!(relation.is_dirty(), false);
}

#[test]
fn test_serialize_deserialize_roundtrip() {
    let mut original = Relation::new_with_records(sample_posts());
    // Make the relation dirty without changing its records.
    original.upsert(&third_post()).unwrap();
    assert!(original.is_dirty());

    let json = encode_posts(original.records(), false);
    let records = decode_posts(&json).unwrap();
    let deserialized: Relation<Post> = Relation::new_with_records(records);

    assert_eq!(*original.records(), *deserialized.records());
    assert_eq!(deserialized.is_dirty(), false); // the dirty flag is not serialized
}

#[test]
fn should_insert_new_record_and_mark_dirty() {
    let mut relation = sample_relation();
    assert_eq!(relation.records().len(), 3);
    assert_eq!(relation.is_dirty(), false);

    let post = Post { id: 13, title: "Thirteen".to_string() };
    relation.insert(&post).unwrap();

    assert_eq!(relation.records().len(), 4);
    assert_eq!(relation.records()[3], post);
    assert_eq!(relation.is_dirty(), true);
}

#[test]
fn should_return_an_error_when_record_with_id_already_exists() {
    let mut relation: Relation<Post> = Relation::new();
    let post = Post { id: 777, title: "First".to_string() };
    relation.insert(&post).unwrap();

    let another_post = Post { id: 777, title: "Another First".to_string() };
    let err = relation.insert(&another_post).unwrap_err();

    assert!(matches!(err, JoydbError::DuplicatedId { .. }));
    assert_eq!(err.message(), format!("Post with id = 777 already exists"));
}

#[test]
fn should_return_none_when_record_not_found() {
    let relation = sample_relation();
    let id = 999;
    let maybe_post = relation.get(id).unwrap();
    assert!(maybe_post.is_none());
}

#[test]
fn should_return_record_when_found() {
    let relation = sample_relation();
    let id = 2;
    let maybe_post = relation.get(id).unwrap();
    let post = maybe_post.unwrap();
    assert_eq!(post, second_post());
}

#[test]
fn should_return_all_records() {
    let relation = sample_relation();
    let all_posts = relation.get_all().unwrap();
    assert_eq!(all_posts, sample_posts());
}

#[test]
fn should_return_number_of_records() {
    let relation = sample_relation();
    let count = relation.count().unwrap();
    assert_eq!(count, 3);
}

#[test]
fn should_update_record_and_mark_dirty() {
    let mut relation = sample_relation();
    let new_post = Post { id: 2, title: "Updated Second".to_string() };
    relation.update(&new_post).unwrap();

    let updated_post = relation.get(2).unwrap().unwrap();
    assert_eq!(updated_post, new_post);
    assert_eq!(relation.is_dirty(), true);
}

#[test]
fn should_return_error_when_record_not_found() {
    let mut relation = sample_relation();
    let new_post = Post { id: 999, title: "Updated Second".to_string() };
    let err = relation.update(&new_post).unwrap_err();

    assert!(matches!(err, JoydbError::NotFound { .. }));
    assert_eq!(err.message(), format!("Post with id = 999 not found"));
}

#[test]
fn should_delete_record_and_mark_dirty() {
    let mut relation = sample_relation();
    let id = 1;
    let deleted_post = relation.delete(id).unwrap().unwrap();

    assert_eq!(relation.records().len(), 2);
    assert_eq!(relation.records()[0], second_post());
    assert_eq!(relation.is_dirty(), true);
    assert_eq!(deleted_post, first_post());
}

#[test]
fn should_return_none_when_record_not_found_on_delete() {
    let mut relation = sample_relation();
    let id = 555;
    let maybe_post = relation.delete(id).unwrap();
    assert!(maybe_post.is_none());
    assert_eq!(relation.records().len(), 3);
    assert_eq!(relation.is_dirty(), false);
}

#[test]
fn should_delete_all_records_that_match_predicate() {
    let mut relation = sample_relation();
    assert_eq!(relation.records().len(), 3);

    let deleted_records = relation.delete_all_by(|post: &Post| post.id >= 2).unwrap();

    assert_eq!(deleted_records.len(), 2);
    assert!(deleted_records.contains(&second_post()));
    assert!(deleted_records.contains(&third_post()));

    assert_eq!(relation.records().len(), 1);
    assert_eq!(relation.records()[0], first_post());
    assert_eq!(relation.is_dirty(), true);
}

#[test]
fn should_not_delete_anything_if_no_record_matches_predicate() {
    let mut relation = sample_relation();
    assert_eq!(relation.records().len(), 3);

    let deleted_records = relation.delete_all_by(|post: &Post| post.id > 777).unwrap();

    assert_eq!(deleted_records.len(), 0);

    assert_eq!(relation.records().len(), 3);
    assert_eq!(relation.is_dirty(), false);
}

#[test]
fn should_add_new_record_if_does_not_exist_yet() {
    let mut relation = sample_relation();
    assert_eq!(relation.records().len(), 3);

    let post44 = Post { id: 44, title: "Forty Four".to_string() };
    relation.upsert(&post44).unwrap();

    assert_eq!(relation.records().len(), 4);
    assert_eq!(relation.records()[3], post44);
}

#[test]
fn should_update_existing_record_matched_by_id() {
    let mut relation = sample_relation();
    assert_eq!(relation.records().len(), 3);

    let updated_post2 = Post { id: 2, title: "Updated Second!!!".to_string() };

    relation.upsert(&updated_post2).unwrap();

    assert_eq!(relation.records().len(), 3);
    assert_eq!(relation.get(2).unwrap(), Some(updated_post2));
}

#[test]
fn should_reset_dirty() {
    let mut relation = sample_relation();
    assert_eq!(relation.is_dirty(), false);

    relation.delete(1).unwrap();
    assert_eq!(relation.is_dirty(), true);

    relation.reset_dirty();
    assert_eq!(relation.is_dirty(), false);
}

#[test]
fn relation_test_serialize_relation() {
    let relation = Relation::new_with_records(vec![first_post(), second_post()]);

    let json = encode_posts(relation.records(), false);
    assert_eq!(json, r#"[{"id":1,"title":"First"},{"id":2,"title":"Second"}]"#);
}
