//! The persistence lifecycle: opening fresh and existing locations, the
//! synchronization policies, and the final flush on close.

use joydb::{
    Adapter, CsvAdapter, DirTarget, FsNode, Joydb, JoydbConfig, JoydbError, JoydbMode,
    JsonAdapter, JsonPartitionedAdapter, RonAdapter, RonPartitionedAdapter, SyncPolicy, User,
};

fn open_json(target: FsNode, sync_policy: SyncPolicy) -> Result<Joydb, JoydbError> {
    let adapter = JsonAdapter::new("data.json", false).with_target(target);
    Joydb::open_with_config(JoydbConfig {
        mode: JoydbMode::Persistent { adapter: Adapter::Json(adapter), sync_policy },
    })
}

fn json_image(db: &Joydb) -> String {
    match db.mode() {
        JoydbMode::Persistent { adapter: Adapter::Json(a), .. } => match a.target() {
            FsNode::File(s) => s.clone(),
            _ => panic!("the unified target is not a file"),
        },
        _ => panic!("not a unified store"),
    }
}

fn alice() -> User {
    User { id: 1, name: "Alice".to_string(), age: 30 }
}

#[test]
fn opening_an_absent_file_location_yields_an_empty_flushed_store() {
    let db = open_json(FsNode::Absent, SyncPolicy::Manual).unwrap();
    assert_eq!(db.count::<User>().unwrap(), 0);
    assert!(!db.is_dirty());
    // The location exists afterwards, holding an empty state.
    assert_eq!(json_image(&db), r#"{"User":[],"Post":[]}"#);
}

#[test]
fn opening_an_absent_directory_location_creates_the_relation_files() {
    let adapter = JsonPartitionedAdapter::new("data", false).with_dir(DirTarget::Absent);
    let db = Joydb::open_with_config(JoydbConfig {
        mode: JoydbMode::Persistent {
            adapter: Adapter::JsonPartitioned(adapter),
            sync_policy: SyncPolicy::Manual,
        },
    })
    .unwrap();
    assert_eq!(db.count::<User>().unwrap(), 0);
    match db.mode() {
        JoydbMode::Persistent { adapter: Adapter::JsonPartitioned(a), .. } => match a.dir() {
            DirTarget::Present(files) => {
                assert!(matches!(&files.users, FsNode::File(s) if s == "[]"));
                assert!(matches!(&files.posts, FsNode::File(s) if s == "[]"));
            },
            _ => panic!("the directory was not created"),
        },
        _ => panic!("not a partitioned store"),
    }
}

#[test]
fn opening_a_directory_where_a_file_was_expected_fails() {
    let err = open_json(FsNode::Directory, SyncPolicy::Manual).unwrap_err();
    assert!(matches!(&err, JoydbError::NotFile(p) if p == "data.json"));
    assert_eq!(err.message(), "data.json is not a file");
}

#[test]
fn opening_a_file_where_a_directory_was_expected_fails() {
    let adapter = JsonPartitionedAdapter::new("data", false).with_dir(DirTarget::NotADirectory);
    let err = Joydb::open_with_config(JoydbConfig {
        mode: JoydbMode::Persistent {
            adapter: Adapter::JsonPartitioned(adapter),
            sync_policy: SyncPolicy::Manual,
        },
    })
    .unwrap_err();
    assert!(matches!(&err, JoydbError::NotDirectory(p) if p == "data"));
    assert_eq!(err.message(), "data is not a directory");
}

#[test]
fn opening_a_corrupt_file_fails_with_a_deserialize_error() {
    let err = open_json(FsNode::File("not json at all".to_string()), SyncPolicy::Manual)
        .unwrap_err();
    assert!(matches!(err, JoydbError::Deserialize(_)));
}

#[test]
fn instant_policy_persists_every_mutation_synchronously() {
    let mut db = open_json(FsNode::Absent, SyncPolicy::Instant).unwrap();
    db.insert(&alice()).unwrap();
    assert!(!db.is_dirty());

    // No explicit flush, no close: the image already reflects the insert.
    let image = json_image(&db);
    let reopened = open_json(FsNode::File(image), SyncPolicy::Instant).unwrap();
    let found = reopened.get::<User>(1).unwrap().unwrap();
    assert_eq!(found.name, "Alice");
}

#[test]
fn manual_policy_defers_writes_until_the_final_flush_on_close() {
    let mut db = open_json(FsNode::Absent, SyncPolicy::Manual).unwrap();
    db.insert(&alice()).unwrap();
    assert!(db.is_dirty());
    // Nothing was written yet.
    assert_eq!(json_image(&db), r#"{"User":[],"Post":[]}"#);

    // Closing flushes regardless of policy.
    let (mode, res) = db.close();
    res.unwrap();
    let reopened = Joydb::open_with_config(JoydbConfig { mode }).unwrap();
    let found = reopened.get::<User>(1).unwrap().unwrap();
    assert_eq!(found.name, "Alice");
}

#[test]
fn second_flush_in_a_row_writes_nothing() {
    let mut db = open_json(FsNode::Absent, SyncPolicy::Manual).unwrap();
    db.insert(&alice()).unwrap();
    db.flush().unwrap();
    assert!(!db.is_dirty());
    let image1 = json_image(&db);

    db.flush().unwrap();
    let image2 = json_image(&db);
    assert_eq!(image1, image2);
}

#[test]
fn in_memory_store_never_persists() {
    let mut db = Joydb::new_in_memory().unwrap();
    db.insert(&alice()).unwrap();
    db.flush().unwrap();
    assert!(!db.is_dirty());
    assert!(matches!(db.mode(), JoydbMode::InMemory));
    assert_eq!(db.count::<User>().unwrap(), 1);
}

#[test]
fn upsert_on_an_empty_store_behaves_like_insert() {
    let mut by_upsert = Joydb::new_in_memory().unwrap();
    let mut by_insert = Joydb::new_in_memory().unwrap();

    by_upsert.upsert(&alice()).unwrap();
    by_insert.insert(&alice()).unwrap();

    assert_eq!(by_upsert.get_all::<User>().unwrap(), by_insert.get_all::<User>().unwrap());
    assert_eq!(by_upsert.is_dirty(), by_insert.is_dirty());
}

#[test]
fn update_on_an_empty_store_always_fails_with_not_found() {
    let mut db = Joydb::new_in_memory().unwrap();
    let err = db.update(&alice()).unwrap_err();
    assert!(matches!(err, JoydbError::NotFound { .. }));
}

#[test]
fn delete_of_an_absent_identifier_changes_nothing() {
    let mut db = open_json(FsNode::Absent, SyncPolicy::Instant).unwrap();
    db.insert(&alice()).unwrap();
    let before = json_image(&db);

    assert_eq!(db.delete::<User>(999).unwrap(), None);
    assert_eq!(db.count::<User>().unwrap(), 1);
    assert!(!db.is_dirty());
    assert_eq!(json_image(&db), before);
}

#[test]
fn partitioned_store_rewrites_only_dirty_relations() {
    let adapter = JsonPartitionedAdapter::new("data", false).with_dir(DirTarget::Absent);
    let mut db = Joydb::open_with_config(JoydbConfig {
        mode: JoydbMode::Persistent {
            adapter: Adapter::JsonPartitioned(adapter),
            sync_policy: SyncPolicy::Instant,
        },
    })
    .unwrap();
    db.insert(&alice()).unwrap();
    match db.mode() {
        JoydbMode::Persistent { adapter: Adapter::JsonPartitioned(a), .. } => match a.dir() {
            DirTarget::Present(files) => {
                assert!(matches!(&files.users, FsNode::File(s)
                    if s == r#"[{"id":1,"name":"Alice","age":30}]"#));
                // The post relation stayed clean, so its file was not
                // rewritten.
                assert!(matches!(&files.posts, FsNode::File(s) if s == "[]"));
            },
            _ => panic!("the directory was not created"),
        },
        _ => panic!("not a partitioned store"),
    }
}

#[test]
fn csv_store_round_trips_through_its_relation_files() {
    let adapter = CsvAdapter::new("data").with_dir(DirTarget::Absent);
    let mut db = Joydb::open_with_config(JoydbConfig {
        mode: JoydbMode::Persistent {
            adapter: Adapter::Csv(adapter),
            sync_policy: SyncPolicy::Instant,
        },
    })
    .unwrap();
    db.insert(&alice()).unwrap();

    let (mode, res) = db.close();
    res.unwrap();
    match &mode {
        JoydbMode::Persistent { adapter: Adapter::Csv(a), .. } => match a.dir() {
            DirTarget::Present(files) => {
                assert!(matches!(&files.users, FsNode::File(s)
                    if s == "id,name,age\n1,\"Alice\",30\n"));
            },
            _ => panic!("the directory was not created"),
        },
        _ => panic!("not a CSV store"),
    }
    let reopened = Joydb::open_with_config(JoydbConfig { mode }).unwrap();
    let found = reopened.get::<User>(1).unwrap().unwrap();
    assert_eq!(found.name, "Alice");
    assert_eq!(found.age, 30);
}

#[test]
fn reopening_reproduces_the_prior_content() {
    let mut db = open_json(FsNode::Absent, SyncPolicy::Manual).unwrap();
    db.insert(&alice()).unwrap();
    db.insert(&User { id: 2, name: "Bob".to_string(), age: 25 }).unwrap();
    db.flush().unwrap();
    let (mode, res) = db.close();
    res.unwrap();

    let reopened = Joydb::open_with_config(JoydbConfig { mode }).unwrap();
    let all = reopened.get_all::<User>().unwrap();
    assert_eq!(all.len(), 2);
    assert_eq!(all[0].name, "Alice");
    assert_eq!(all[1].name, "Bob");
    assert!(!reopened.is_dirty());
}

#[test]
fn wrong_kind_errors_leave_nothing_behind() {
    // A directory sits where the file should be; opening fails and no
    // store — and so no image to persist — is handed back.
    let r = open_json(FsNode::Directory, SyncPolicy::Instant);
    assert!(r.is_err());

    let csv = CsvAdapter::new("somewhere").with_dir(DirTarget::NotADirectory);
    let r = Joydb::open_with_config(JoydbConfig {
        mode: JoydbMode::Persistent {
            adapter: Adapter::Csv(csv),
            sync_policy: SyncPolicy::Instant,
        },
    });
    assert!(matches!(r.unwrap_err(), JoydbError::NotDirectory(_)));
}

#[test]
fn periodic_policy_flushes_on_request() {
    let adapter = JsonAdapter::new("data.json", false).with_target(FsNode::Absent);
    let mut db = Joydb::open_with_config(JoydbConfig {
        mode: JoydbMode::Persistent {
            adapter: Adapter::Json(adapter),
            sync_policy: SyncPolicy::Periodic(core::time::Duration::from_millis(50)),
        },
    })
    .unwrap();
    db.insert(&alice()).unwrap();
    // Under the periodic policy the mutation is not written synchronously;
    // the host's timer loop calls flush, which writes it.
    assert!(db.is_dirty());
    db.flush().unwrap();
    assert!(!db.is_dirty());
    assert_eq!(json_image(&db), r#"{"User":[{"id":1,"name":"Alice","age":30}],"Post":[]}"#);
}

#[test]
fn ron_store_round_trips_through_its_state_file() {
    let adapter = RonAdapter::new("data.ron", false).with_target(FsNode::Absent);
    let mut db = Joydb::open_with_config(JoydbConfig {
        mode: JoydbMode::Persistent {
            adapter: Adapter::Ron(adapter),
            sync_policy: SyncPolicy::Instant,
        },
    })
    .unwrap();
    db.insert(&alice()).unwrap();
    match db.mode() {
        JoydbMode::Persistent { adapter: Adapter::Ron(a), .. } => match a.target() {
            FsNode::File(s) => {
                assert_eq!(s, r#"(User:[(id:1,name:"Alice",age:30)],Post:[])"#);
            },
            _ => panic!("the unified target is not a file"),
        },
        _ => panic!("not a RON store"),
    }
    let (mode, res) = db.close();
    res.unwrap();
    let reopened = Joydb::open_with_config(JoydbConfig { mode }).unwrap();
    assert_eq!(reopened.get::<User>(1).unwrap().unwrap().name, "Alice");
}

#[test]
fn ron_partitioned_store_initializes_and_reloads() {
    let adapter = RonPartitionedAdapter::new("data", false).with_dir(DirTarget::Absent);
    let mut db = Joydb::open_with_config(JoydbConfig {
        mode: JoydbMode::Persistent {
            adapter: Adapter::RonPartitioned(adapter),
            sync_policy: SyncPolicy::Manual,
        },
    })
    .unwrap();
    db.insert(&alice()).unwrap();
    let (mode, res) = db.close();
    res.unwrap();
    let reopened = Joydb::open_with_config(JoydbConfig { mode }).unwrap();
    assert_eq!(reopened.count::<User>().unwrap(), 1);
}
