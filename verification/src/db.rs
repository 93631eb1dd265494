//! The store: a handle around one state and one adapter, applying the
//! synchronization policy and guaranteeing a final flush on close.
//!
//! The store itself is single-owner and sequential; the host wraps it in
//! whatever mutual exclusion it needs and drives the periodic policy from
//! its own timer loop, calling [`Joydb::flush`] under the same lock as the
//! CRUD operations.

use vstd::prelude::*;

use crate::adapters::{
    Adapter, CsvAdapterV, DirTargetV, FsNodeV, JsonAdapterV, JsonPartitionedAdapterV,
    RelLoadV, RelationFilesV, RonAdapterV, RonPartitionedAdapterV, spec_load_csv_posts,
    spec_load_csv_users, spec_load_posts, spec_load_ron_posts, spec_load_ron_users,
    spec_load_users,
};
use crate::codec::csv;
use crate::codec::json;
use crate::codec::ron;
use crate::codec::num;
use crate::error::JoydbError;
use crate::model::{Model, Post, User};
use crate::relation::{Relation, contains_id, first_idx, mask_drop, mask_keep};
use crate::state::{State, deep_posts, deep_users};

verus! {

/// Relies on `core::time::Duration::from_millis` to build a period; the
/// store promises nothing about the value's meaning.
pub assume_specification[ core::time::Duration::from_millis ](ms: u64) -> (d:
    core::time::Duration);

/// When mutations reach stable storage.
#[derive(Debug, Clone, Copy)]
pub enum SyncPolicy {
    /// Flush synchronously after every mutating call.
    Instant,
    /// A background task of the host flushes on this interval.
    Periodic(core::time::Duration),
    /// Flush only on an explicit request or when the store closes.
    Manual,
}

/// How the store is backed.
#[derive(Debug)]
pub enum JoydbMode {
    /// Mutations are persisted through the adapter, when the policy says
    /// so.
    Persistent { adapter: Adapter, sync_policy: SyncPolicy },
    /// Nothing is ever persisted; for tests and scratch work.
    InMemory,
}

/// The configuration a store is opened with.
#[derive(Debug)]
pub struct JoydbConfig {
    pub mode: JoydbMode,
}

/// The mathematical value of a mode.
pub ghost enum ModeV {
    Persistent { adapter: AdapterV, sync_policy: SyncPolicy },
    InMemory,
}

/// The mathematical value of an adapter.
pub ghost enum AdapterV {
    Json(JsonAdapterV),
    JsonPartitioned(JsonPartitionedAdapterV),
    Ron(RonAdapterV),
    RonPartitioned(RonPartitionedAdapterV),
    Csv(CsvAdapterV),
}

impl View for Adapter {
    type V = AdapterV;

    open spec fn view(&self) -> AdapterV {
        match self {
            Adapter::Json(a) => AdapterV::Json(a@),
            Adapter::JsonPartitioned(a) => AdapterV::JsonPartitioned(a@),
            Adapter::Ron(a) => AdapterV::Ron(a@),
            Adapter::RonPartitioned(a) => AdapterV::RonPartitioned(a@),
            Adapter::Csv(a) => AdapterV::Csv(a@),
        }
    }
}

impl View for JoydbMode {
    type V = ModeV;

    open spec fn view(&self) -> ModeV {
        match self {
            JoydbMode::Persistent { adapter, sync_policy } => ModeV::Persistent {
                adapter: adapter@,
                sync_policy: *sync_policy,
            },
            JoydbMode::InMemory => ModeV::InMemory,
        }
    }
}

/// The mathematical value of a whole store: the records and dirty flag of
/// every relation, and the mode with its storage images.
pub ghost struct DbV {
    pub users: Seq<User>,
    pub posts: Seq<Post>,
    pub users_dirty: bool,
    pub posts_dirty: bool,
    pub mode: ModeV,
}

/// Whether any relation holds unsaved mutations.
pub open spec fn dbv_dirty(v: DbV) -> bool {
    v.users_dirty || v.posts_dirty
}

/// Whether the mode flushes after every mutating call.
pub open spec fn spec_is_instant(m: ModeV) -> bool {
    m matches ModeV::Persistent { sync_policy: SyncPolicy::Instant, .. }
}

/// The user entry of a directory image.
pub open spec fn dir_users(d: DirTargetV) -> FsNodeV {
    match d {
        DirTargetV::Present(f) => f.users,
        _ => FsNodeV::Absent,
    }
}

/// The post entry of a directory image.
pub open spec fn dir_posts(d: DirTargetV) -> FsNodeV {
    match d {
        DirTargetV::Present(f) => f.posts,
        _ => FsNodeV::Absent,
    }
}

/// What writing the state through an adapter does to its storage image: a
/// unified adapter rewrites the one file with the whole state, a
/// partitioned adapter rewrites exactly the files of the dirty relations.
pub open spec fn spec_write_adapter(a: AdapterV, v: DbV) -> AdapterV {
    match a {
        AdapterV::Json(j) => AdapterV::Json(
            JsonAdapterV {
                target: FsNodeV::File(
                    json::json_state(deep_users(v.users), deep_posts(v.posts), j.pretty),
                ),
                ..j
            },
        ),
        AdapterV::JsonPartitioned(j) => AdapterV::JsonPartitioned(
            JsonPartitionedAdapterV {
                dir: DirTargetV::Present(
                    RelationFilesV {
                        users: if v.users_dirty {
                            FsNodeV::File(json::json_users(deep_users(v.users), j.pretty))
                        } else {
                            dir_users(j.dir)
                        },
                        posts: if v.posts_dirty {
                            FsNodeV::File(json::json_posts(deep_posts(v.posts), j.pretty))
                        } else {
                            dir_posts(j.dir)
                        },
                    },
                ),
                ..j
            },
        ),
        AdapterV::Ron(j) => AdapterV::Ron(
            RonAdapterV {
                target: FsNodeV::File(
                    ron::ron_state(deep_users(v.users), deep_posts(v.posts), j.pretty),
                ),
                ..j
            },
        ),
        AdapterV::RonPartitioned(j) => AdapterV::RonPartitioned(
            RonPartitionedAdapterV {
                dir: DirTargetV::Present(
                    RelationFilesV {
                        users: if v.users_dirty {
                            FsNodeV::File(ron::ron_users(deep_users(v.users), j.pretty))
                        } else {
                            dir_users(j.dir)
                        },
                        posts: if v.posts_dirty {
                            FsNodeV::File(ron::ron_posts(deep_posts(v.posts), j.pretty))
                        } else {
                            dir_posts(j.dir)
                        },
                    },
                ),
                ..j
            },
        ),
        AdapterV::Csv(j) => AdapterV::Csv(
            CsvAdapterV {
                dir: DirTargetV::Present(
                    RelationFilesV {
                        users: if v.users_dirty {
                            FsNodeV::File(csv::csv_users(deep_users(v.users)))
                        } else {
                            dir_users(j.dir)
                        },
                        posts: if v.posts_dirty {
                            FsNodeV::File(csv::csv_posts(deep_posts(v.posts)))
                        } else {
                            dir_posts(j.dir)
                        },
                    },
                ),
                ..j
            },
        ),
    }
}

/// What a flush does: nothing at all when no relation is dirty; otherwise
/// the dirty data is written through the adapter — or dropped by an
/// in-memory store — and every dirty flag is cleared. A failed write
/// would leave the flags set; with in-memory storage images the write
/// itself cannot fail.
pub open spec fn spec_flush(v: DbV) -> DbV {
    if !dbv_dirty(v) {
        v
    } else {
        match v.mode {
            ModeV::InMemory => DbV { users_dirty: false, posts_dirty: false, ..v },
            ModeV::Persistent { adapter, sync_policy } => DbV {
                users_dirty: false,
                posts_dirty: false,
                mode: ModeV::Persistent { adapter: spec_write_adapter(adapter, v), sync_policy },
                ..v
            },
        }
    }
}

/// What the hook after every mutation does: flush under the instant
/// policy, nothing otherwise.
pub open spec fn spec_after_change(v: DbV) -> DbV {
    if spec_is_instant(v.mode) {
        spec_flush(v)
    } else {
        v
    }
}

/// The store value assembled from a state and a mode.
pub open spec fn state_view(s: State, m: ModeV) -> DbV {
    DbV {
        users: s.spec_users()@,
        posts: s.spec_posts()@,
        users_dirty: s.spec_users().spec_dirty(),
        posts_dirty: s.spec_posts().spec_dirty(),
        mode: m,
    }
}

/// Flushing twice in a row with no mutation in between performs exactly
/// one write: the first flush leaves nothing dirty, so the second changes
/// nothing at all — images, records and flags included.
pub proof fn lemma_flush_idempotent(v: DbV)
    ensures
        !dbv_dirty(spec_flush(v)),
        spec_flush(spec_flush(v)) == spec_flush(v),
{
}

/// A state that can hand out the relation of a registered record type;
/// the registry is closed, so only the registered types implement it.
pub trait GetRelation<M: Model>: Sized {
    /// The relation of `M` inside a state.
    spec fn st_rel(s: State) -> Relation<M>;

    /// The state with the relation of `M` replaced.
    spec fn st_with(s: State, r: Relation<M>) -> State;

    /// The records of `M` inside a store value.
    spec fn dbv_rel(v: DbV) -> Seq<M>;

    /// The dirty flag of `M`'s relation inside a store value.
    spec fn dbv_rel_dirty(v: DbV) -> bool;

    /// The store value with the records and dirty flag of `M` replaced.
    spec fn dbv_with(v: DbV, recs: Seq<M>, dirty: bool) -> DbV;

    /// Borrows the relation of `M`.
    fn rel(s: &State) -> (r: &Relation<M>)
        ensures
            *r == Self::st_rel(*s),
    ;

    /// Exchanges the relation of `M` with the caller's.
    fn swap_rel(s: &mut State, x: &mut Relation<M>)
        ensures
            *final(x) == Self::st_rel(*old(s)),
            *final(s) == Self::st_with(*old(s), *old(x)),
    ;

    /// How the state-level and the store-value-level pictures of the
    /// relation of `M` fit together.
    proof fn lemma_coherence(s: State, r: Relation<M>, m: ModeV)
        ensures
            Self::st_rel(s)@ == Self::dbv_rel(state_view(s, m)),
            Self::st_rel(s).spec_dirty() == Self::dbv_rel_dirty(state_view(s, m)),
            state_view(Self::st_with(s, r), m) == Self::dbv_with(
                state_view(s, m),
                r@,
                r.spec_dirty(),
            ),
            Self::dbv_with(
                state_view(s, m),
                Self::st_rel(s)@,
                Self::st_rel(s).spec_dirty(),
            ) == state_view(s, m),
            forall|a: Relation<M>|
                Self::st_with(#[trigger] Self::st_with(s, a), r) == Self::st_with(s, r),
    ;
}

impl GetRelation<User> for State {
    closed spec fn st_rel(s: State) -> Relation<User> {
        s.spec_users()
    }

    closed spec fn st_with(s: State, r: Relation<User>) -> State {
        s.spec_with_users(r)
    }

    closed spec fn dbv_rel(v: DbV) -> Seq<User> {
        v.users
    }

    closed spec fn dbv_rel_dirty(v: DbV) -> bool {
        v.users_dirty
    }

    closed spec fn dbv_with(v: DbV, recs: Seq<User>, dirty: bool) -> DbV {
        DbV { users: recs, users_dirty: dirty, ..v }
    }

    fn rel(s: &State) -> (r: &Relation<User>) {
        s.users()
    }

    fn swap_rel(s: &mut State, x: &mut Relation<User>) {
        s.swap_users(x);
    }

    proof fn lemma_coherence(s: State, r: Relation<User>, m: ModeV) {
        s.lemma_with(r, s.spec_posts());
        assert forall|a: Relation<User>|
            Self::st_with(#[trigger] Self::st_with(s, a), r) == Self::st_with(s, r) by {
            s.lemma_with(a, s.spec_posts());
            Self::st_with(s, a).lemma_with(r, s.spec_posts());
        }
    }
}

impl GetRelation<Post> for State {
    closed spec fn st_rel(s: State) -> Relation<Post> {
        s.spec_posts()
    }

    closed spec fn st_with(s: State, r: Relation<Post>) -> State {
        s.spec_with_posts(r)
    }

    closed spec fn dbv_rel(v: DbV) -> Seq<Post> {
        v.posts
    }

    closed spec fn dbv_rel_dirty(v: DbV) -> bool {
        v.posts_dirty
    }

    closed spec fn dbv_with(v: DbV, recs: Seq<Post>, dirty: bool) -> DbV {
        DbV { posts: recs, posts_dirty: dirty, ..v }
    }

    fn rel(s: &State) -> (r: &Relation<Post>) {
        s.posts()
    }

    fn swap_rel(s: &mut State, x: &mut Relation<Post>) {
        s.swap_posts(x);
    }

    proof fn lemma_coherence(s: State, r: Relation<Post>, m: ModeV) {
        s.lemma_with(s.spec_users(), r);
        assert forall|a: Relation<Post>|
            Self::st_with(#[trigger] Self::st_with(s, a), r) == Self::st_with(s, r) by {
            s.lemma_with(s.spec_users(), a);
            Self::st_with(s, a).lemma_with(s.spec_users(), r);
        }
    }
}

/// The store: one state, one adapter, one synchronization policy.
#[derive(Debug)]
pub struct Joydb {
    state: State,
    mode: JoydbMode,
}

impl View for Joydb {
    type V = DbV;

    closed spec fn view(&self) -> DbV {
        state_view(self.state, self.mode@)
    }
}

impl Joydb {
    /// A store is well formed when a partitioned adapter's directory image
    /// is present; opening establishes this and every operation preserves
    /// it.
    pub open spec fn wf(self) -> bool {
        match self@.mode {
            ModeV::Persistent { adapter: AdapterV::JsonPartitioned(a), .. } => a.dir is Present,
            ModeV::Persistent { adapter: AdapterV::RonPartitioned(a), .. } => a.dir is Present,
            ModeV::Persistent { adapter: AdapterV::Csv(a), .. } => a.dir is Present,
            _ => true,
        }
    }

    /// Whether any relation holds unsaved mutations.
    pub fn is_dirty(&self) -> (r: bool)
        ensures
            r == dbv_dirty(self@),
    {
        self.state.is_dirty()
    }

    /// The mode, with the adapter's current storage images, for the host
    /// to persist.
    pub fn mode(&self) -> (r: &JoydbMode)
        ensures
            r@ == self@.mode,
    {
        &self.mode
    }

    /// Creates an in-memory store: empty, clean, never persisted.
    pub fn new_in_memory() -> (r: Result<Joydb, JoydbError>)
        ensures
            r matches Ok(db) && db.wf() && db@ == (DbV {
                users: Seq::<User>::empty(),
                posts: Seq::<Post>::empty(),
                users_dirty: false,
                posts_dirty: false,
                mode: ModeV::InMemory,
            }),
    {
        Joydb::open_with_config(JoydbConfig { mode: JoydbMode::InMemory })
    }

    /// Opens a store: obtains the initial state from the adapter — a fresh
    /// default for an in-memory store — and fixes mode and policy for the
    /// store's life. Opening an absent location initializes it; opening a
    /// location of the wrong kind, or one whose content does not decode,
    /// fails without constructing a store.
    pub fn open_with_config(config: JoydbConfig) -> (r: Result<Joydb, JoydbError>)
        ensures
            match config.mode@ {
                ModeV::InMemory => r matches Ok(db) && db.wf() && db@ == (DbV {
                    users: Seq::<User>::empty(),
                    posts: Seq::<Post>::empty(),
                    users_dirty: false,
                    posts_dirty: false,
                    mode: ModeV::InMemory,
                }),
                ModeV::Persistent { adapter: AdapterV::Json(a), sync_policy } => match a.target {
                    FsNodeV::Directory => r matches Err(JoydbError::NotFile(p)) && p@
                        == a.file_path,
                    FsNodeV::Absent => r matches Ok(db) && db.wf() && db@ == (DbV {
                        users: Seq::<User>::empty(),
                        posts: Seq::<Post>::empty(),
                        users_dirty: false,
                        posts_dirty: false,
                        mode: ModeV::Persistent {
                            adapter: AdapterV::Json(
                                JsonAdapterV {
                                    target: FsNodeV::File(
                                        json::json_state(
                                            Seq::empty(),
                                            Seq::empty(),
                                            a.pretty,
                                        ),
                                    ),
                                    ..a
                                },
                            ),
                            sync_policy,
                        },
                    }),
                    FsNodeV::File(content) => match json::parse_state_doc(content) {
                        Some(sv) => r matches Ok(db) && db.wf() && deep_users(db@.users) == sv.0
                            && deep_posts(db@.posts) == sv.1 && !db@.users_dirty
                            && !db@.posts_dirty && db@.mode == (ModeV::Persistent {
                            adapter: AdapterV::Json(a),
                            sync_policy,
                        }),
                        None => r matches Err(JoydbError::Deserialize(_)),
                    },
                },
                ModeV::Persistent {
                    adapter: AdapterV::JsonPartitioned(a),
                    sync_policy,
                } => match a.dir {
                    DirTargetV::NotADirectory => r matches Err(JoydbError::NotDirectory(p))
                        && p@ == a.dir_path,
                    _ => {
                        let files = match a.dir {
                            DirTargetV::Present(files) => files,
                            _ => RelationFilesV {
                                users: FsNodeV::Absent,
                                posts: FsNodeV::Absent,
                            },
                        };
                        match spec_load_users(files.users, a.pretty) {
                            RelLoadV::NotAFile => r matches Err(JoydbError::NotFile(p)) && p@
                                == a.dir_path + "/User.json"@,
                            RelLoadV::Corrupt => r matches Err(JoydbError::Deserialize(_)),
                            RelLoadV::Loaded(fu, us) => match spec_load_posts(
                                files.posts,
                                a.pretty,
                            ) {
                                RelLoadV::NotAFile => r matches Err(JoydbError::NotFile(p))
                                    && p@ == a.dir_path + "/Post.json"@,
                                RelLoadV::Corrupt => r matches Err(
                                    JoydbError::Deserialize(_),
                                ),
                                RelLoadV::Loaded(fp, ps) => r matches Ok(db) && db.wf()
                                    && deep_users(db@.users) == us && deep_posts(db@.posts)
                                    == ps && !db@.users_dirty && !db@.posts_dirty && db@.mode
                                    == (ModeV::Persistent {
                                    adapter: AdapterV::JsonPartitioned(
                                        JsonPartitionedAdapterV {
                                            dir: DirTargetV::Present(
                                                RelationFilesV { users: fu, posts: fp },
                                            ),
                                            ..a
                                        },
                                    ),
                                    sync_policy,
                                }),
                            },
                        }
                    },
                },
                ModeV::Persistent { adapter: AdapterV::Ron(a), sync_policy } => match a.target {
                    FsNodeV::Directory => r matches Err(JoydbError::NotFile(p)) && p@
                        == a.file_path,
                    FsNodeV::Absent => r matches Ok(db) && db.wf() && db@ == (DbV {
                        users: Seq::<User>::empty(),
                        posts: Seq::<Post>::empty(),
                        users_dirty: false,
                        posts_dirty: false,
                        mode: ModeV::Persistent {
                            adapter: AdapterV::Ron(
                                RonAdapterV {
                                    target: FsNodeV::File(
                                        ron::ron_state(
                                            Seq::empty(),
                                            Seq::empty(),
                                            a.pretty,
                                        ),
                                    ),
                                    ..a
                                },
                            ),
                            sync_policy,
                        },
                    }),
                    FsNodeV::File(content) => match ron::parse_ron_state_doc(content) {
                        Some(sv) => r matches Ok(db) && db.wf() && deep_users(db@.users) == sv.0
                            && deep_posts(db@.posts) == sv.1 && !db@.users_dirty
                            && !db@.posts_dirty && db@.mode == (ModeV::Persistent {
                            adapter: AdapterV::Ron(a),
                            sync_policy,
                        }),
                        None => r matches Err(JoydbError::Deserialize(_)),
                    },
                },
                ModeV::Persistent {
                    adapter: AdapterV::RonPartitioned(a),
                    sync_policy,
                } => match a.dir {
                    DirTargetV::NotADirectory => r matches Err(JoydbError::NotDirectory(p))
                        && p@ == a.dir_path,
                    _ => {
                        let files = match a.dir {
                            DirTargetV::Present(files) => files,
                            _ => RelationFilesV {
                                users: FsNodeV::Absent,
                                posts: FsNodeV::Absent,
                            },
                        };
                        match spec_load_ron_users(files.users, a.pretty) {
                            RelLoadV::NotAFile => r matches Err(JoydbError::NotFile(p)) && p@
                                == a.dir_path + "/User.ron"@,
                            RelLoadV::Corrupt => r matches Err(JoydbError::Deserialize(_)),
                            RelLoadV::Loaded(fu, us) => match spec_load_ron_posts(
                                files.posts,
                                a.pretty,
                            ) {
                                RelLoadV::NotAFile => r matches Err(JoydbError::NotFile(p))
                                    && p@ == a.dir_path + "/Post.ron"@,
                                RelLoadV::Corrupt => r matches Err(
                                    JoydbError::Deserialize(_),
                                ),
                                RelLoadV::Loaded(fp, ps) => r matches Ok(db) && db.wf()
                                    && deep_users(db@.users) == us && deep_posts(db@.posts)
                                    == ps && !db@.users_dirty && !db@.posts_dirty && db@.mode
                                    == (ModeV::Persistent {
                                    adapter: AdapterV::RonPartitioned(
                                        RonPartitionedAdapterV {
                                            dir: DirTargetV::Present(
                                                RelationFilesV { users: fu, posts: fp },
                                            ),
                                            ..a
                                        },
                                    ),
                                    sync_policy,
                                }),
                            },
                        }
                    },
                },
                ModeV::Persistent { adapter: AdapterV::Csv(a), sync_policy } => match a.dir {
                    DirTargetV::NotADirectory => r matches Err(JoydbError::NotDirectory(p))
                        && p@ == a.dir_path,
                    _ => {
                        let files = match a.dir {
                            DirTargetV::Present(files) => files,
                            _ => RelationFilesV {
                                users: FsNodeV::Absent,
                                posts: FsNodeV::Absent,
                            },
                        };
                        match spec_load_csv_users(files.users) {
                            RelLoadV::NotAFile => r matches Err(JoydbError::NotFile(p)) && p@
                                == a.dir_path + "/User.csv"@,
                            RelLoadV::Corrupt => r matches Err(JoydbError::Deserialize(_)),
                            RelLoadV::Loaded(fu, us) => match spec_load_csv_posts(files.posts) {
                                RelLoadV::NotAFile => r matches Err(JoydbError::NotFile(p))
                                    && p@ == a.dir_path + "/Post.csv"@,
                                RelLoadV::Corrupt => r matches Err(
                                    JoydbError::Deserialize(_),
                                ),
                                RelLoadV::Loaded(fp, ps) => r matches Ok(db) && db.wf()
                                    && deep_users(db@.users) == us && deep_posts(db@.posts)
                                    == ps && !db@.users_dirty && !db@.posts_dirty && db@.mode
                                    == (ModeV::Persistent {
                                    adapter: AdapterV::Csv(
                                        CsvAdapterV {
                                            dir: DirTargetV::Present(
                                                RelationFilesV { users: fu, posts: fp },
                                            ),
                                            ..a
                                        },
                                    ),
                                    sync_policy,
                                }),
                            },
                        }
                    },
                },
            },
    {
        match config.mode {
            JoydbMode::InMemory => Ok(Joydb { state: State::new(), mode: JoydbMode::InMemory }),
            JoydbMode::Persistent { adapter, sync_policy } => {
                let mut adapter = adapter;
                let loaded = match &mut adapter {
                    Adapter::Json(a) => a.load_state(),
                    Adapter::JsonPartitioned(a) => a.load_state(),
                    Adapter::Ron(a) => a.load_state(),
                    Adapter::RonPartitioned(a) => a.load_state(),
                    Adapter::Csv(a) => a.load_state(),
                };
                match loaded {
                    Ok(st) => Ok(
                        Joydb {
                            state: st,
                            mode: JoydbMode::Persistent { adapter, sync_policy },
                        },
                    ),
                    Err(e) => Err(e),
                }
            },
        }
    }

    /// Persists unsaved mutations, if there are any: writes through the
    /// adapter — everything for a unified adapter, only the dirty
    /// relations for a partitioned one — and clears the dirty flags. A
    /// second flush right after is a no-op.
    pub fn flush(&mut self) -> (r: Result<(), JoydbError>)
        requires
            old(self).wf(),
        ensures
            final(self).wf(),
            r is Ok,
            final(self)@ == spec_flush(old(self)@),
    {
        if self.state.is_dirty() {
            match &mut self.mode {
                JoydbMode::InMemory => {},
                JoydbMode::Persistent { adapter, .. } => {
                    match adapter {
                        Adapter::Json(a) => a.write_state(&self.state),
                        Adapter::JsonPartitioned(a) => a.write_state(&self.state),
                        Adapter::Ron(a) => a.write_state(&self.state),
                        Adapter::RonPartitioned(a) => a.write_state(&self.state),
                        Adapter::Csv(a) => a.write_state(&self.state),
                    }
                },
            }
            self.state.reset_dirty();
        }
        Ok(())
    }

    /// Closes the store: flushes one final time, regardless of policy, and
    /// hands the mode — the final storage images included — back to the
    /// host to persist.
    pub fn close(self) -> (r: (JoydbMode, Result<(), JoydbError>))
        requires
            self.wf(),
        ensures
            r.0@ == spec_flush(self@).mode,
            r.1 is Ok,
    {
        let mut db = self;
        let res = db.flush();
        let Joydb { state: _, mode } = db;
        (mode, res)
    }
}

impl Joydb {
    /// The hook after every mutating call: flushes under the instant
    /// policy.
    fn after_change(&mut self) -> (r: Result<(), JoydbError>)
        requires
            old(self).wf(),
        ensures
            final(self).wf(),
            r is Ok,
            final(self)@ == spec_after_change(old(self)@),
    {
        let instant = match &self.mode {
            JoydbMode::Persistent { sync_policy: SyncPolicy::Instant, .. } => true,
            _ => false,
        };
        if instant {
            self.flush()
        } else {
            Ok(())
        }
    }

    /// Inserts a new record; fails with a duplicate-identifier error when
    /// a record with the same identifier is already present, leaving
    /// everything unchanged. Under the instant policy a successful insert
    /// flushes before returning.
    pub fn insert<M: Model>(&mut self, record: &M) -> (r: Result<(), JoydbError>) where
        State: GetRelation<M>,

        requires
            old(self).wf(),
        ensures
            final(self).wf(),
            ({
                let v0 = old(self)@;
                let s0 = <State as GetRelation<M>>::dbv_rel(v0);
                if contains_id(s0, record.spec_id()) {
                    &&& final(self)@ == v0
                    &&& r matches Err(JoydbError::DuplicatedId { id, model }) && id@ == num::dec(
                        record.spec_id(),
                    ) && model@ == M::spec_model_name()
                } else {
                    &&& r is Ok
                    &&& final(self)@ == spec_after_change(
                        <State as GetRelation<M>>::dbv_with(v0, s0.push(*record), true),
                    )
                }
            }),
    {
        let ghost m0 = self.mode@;
        let ghost st0 = self.state;
        let mut tmp: Relation<M> = Relation::new();
        <State as GetRelation<M>>::swap_rel(&mut self.state, &mut tmp);
        let res = tmp.insert(record);
        let ghost tmp1 = tmp;
        <State as GetRelation<M>>::swap_rel(&mut self.state, &mut tmp);
        proof {
            <State as GetRelation<M>>::lemma_coherence(st0, tmp1, m0);
        }
        match res {
            Ok(()) => self.after_change(),
            Err(e) => Err(e),
        }
    }

    /// Returns a copy of the record with the given identifier, or nothing.
    pub fn get<M: Model>(&self, id: u128) -> (r: Result<Option<M>, JoydbError>) where
        State: GetRelation<M>,

        ensures
            ({
                let s0 = <State as GetRelation<M>>::dbv_rel(self@);
                &&& contains_id(s0, id) ==> r == Ok::<Option<M>, JoydbError>(
                    Some(s0[first_idx(s0, id)]),
                )
                &&& !contains_id(s0, id) ==> r == Ok::<Option<M>, JoydbError>(None)
            }),
    {
        proof {
            <State as GetRelation<M>>::lemma_coherence(
                self.state,
                <State as GetRelation<M>>::st_rel(self.state),
                self.mode@,
            );
        }
        <State as GetRelation<M>>::rel(&self.state).get(id)
    }

    /// Returns a copy of all records of the type, in insertion order; the
    /// store commits to insertion order as the order of a full read.
    pub fn get_all<M: Model>(&self) -> (r: Result<Vec<M>, JoydbError>) where
        State: GetRelation<M>,

        ensures
            r matches Ok(v) && v@ == <State as GetRelation<M>>::dbv_rel(self@),
    {
        proof {
            <State as GetRelation<M>>::lemma_coherence(
                self.state,
                <State as GetRelation<M>>::st_rel(self.state),
                self.mode@,
            );
        }
        <State as GetRelation<M>>::rel(&self.state).get_all()
    }

    /// Returns a copy of every record of the type on which the predicate
    /// returns true, in insertion order.
    pub fn get_all_by<M: Model, F: Fn(&M) -> bool>(&self, predicate: F) -> (r: Result<
        Vec<M>,
        JoydbError,
    >) where State: GetRelation<M>
        requires
            forall|k: int|
                0 <= k < <State as GetRelation<M>>::dbv_rel(self@).len() ==> call_requires(
                    predicate,
                    (&<State as GetRelation<M>>::dbv_rel(self@)[k],),
                ),
        ensures
            ({
                let s0 = <State as GetRelation<M>>::dbv_rel(self@);
                r matches Ok(v) && exists|keep: Seq<bool>|
                    {
                        &&& keep.len() == s0.len()
                        &&& forall|t: int|
                            0 <= t < keep.len() ==> call_ensures(
                                predicate,
                                (&s0[t],),
                                #[trigger] keep[t],
                            )
                        &&& v@ == (#[trigger] mask_keep(s0, keep))
                    }
            }),
    {
        proof {
            <State as GetRelation<M>>::lemma_coherence(
                self.state,
                <State as GetRelation<M>>::st_rel(self.state),
                self.mode@,
            );
            let s0 = <State as GetRelation<M>>::dbv_rel(self@);
            let rl = <State as GetRelation<M>>::st_rel(self.state)@;
            assert forall|k: int| 0 <= k < rl.len() implies call_requires(
                predicate,
                (&rl[k],),
            ) by {
                assert(rl[k] == s0[k]);
            }
        }
        let r = <State as GetRelation<M>>::rel(&self.state).get_all_by(predicate);
        proof {
            let s0 = <State as GetRelation<M>>::dbv_rel(self@);
            let rl = <State as GetRelation<M>>::st_rel(self.state)@;
            if r is Ok {
                let keep = choose|keep: Seq<bool>|
                    {
                        &&& keep.len() == rl.len()
                        &&& forall|t: int|
                            0 <= t < keep.len() ==> call_ensures(
                                predicate,
                                (&rl[t],),
                                #[trigger] keep[t],
                            )
                        &&& (r->Ok_0)@ == mask_keep(rl, keep)
                    };
                assert forall|t: int| 0 <= t < keep.len() implies call_ensures(
                    predicate,
                    (&s0[t],),
                    #[trigger] keep[t],
                ) by {
                    assert(rl[t] == s0[t]);
                }
                assert((r->Ok_0)@ == mask_keep(s0, keep));
            }
        }
        r
    }

    /// The number of records of the type; always equal to the length of
    /// what a full read returns.
    pub fn count<M: Model>(&self) -> (r: Result<usize, JoydbError>) where
        State: GetRelation<M>,

        ensures
            r matches Ok(c) && c == <State as GetRelation<M>>::dbv_rel(self@).len(),
    {
        proof {
            <State as GetRelation<M>>::lemma_coherence(
                self.state,
                <State as GetRelation<M>>::st_rel(self.state),
                self.mode@,
            );
        }
        <State as GetRelation<M>>::rel(&self.state).count()
    }

    /// Replaces the record carrying the same identifier as `new_record`,
    /// keeping its position; fails with a not-found error when no record
    /// carries it. Under the instant policy a successful update flushes
    /// before returning.
    pub fn update<M: Model>(&mut self, new_record: &M) -> (r: Result<(), JoydbError>) where
        State: GetRelation<M>,

        requires
            old(self).wf(),
        ensures
            final(self).wf(),
            ({
                let v0 = old(self)@;
                let s0 = <State as GetRelation<M>>::dbv_rel(v0);
                if contains_id(s0, new_record.spec_id()) {
                    &&& r is Ok
                    &&& final(self)@ == spec_after_change(
                        <State as GetRelation<M>>::dbv_with(
                            v0,
                            s0.update(first_idx(s0, new_record.spec_id()), *new_record),
                            true,
                        ),
                    )
                } else {
                    &&& final(self)@ == v0
                    &&& r matches Err(JoydbError::NotFound { id, model }) && id@ == num::dec(
                        new_record.spec_id(),
                    ) && model@ == M::spec_model_name()
                }
            }),
    {
        let ghost m0 = self.mode@;
        let ghost st0 = self.state;
        let mut tmp: Relation<M> = Relation::new();
        <State as GetRelation<M>>::swap_rel(&mut self.state, &mut tmp);
        let res = tmp.update(new_record);
        let ghost tmp1 = tmp;
        <State as GetRelation<M>>::swap_rel(&mut self.state, &mut tmp);
        proof {
            <State as GetRelation<M>>::lemma_coherence(st0, tmp1, m0);
        }
        match res {
            Ok(()) => self.after_change(),
            Err(e) => Err(e),
        }
    }

    /// Replaces the record carrying the same identifier, or inserts the
    /// record when none does; never fails. Under the instant policy it
    /// flushes before returning.
    pub fn upsert<M: Model>(&mut self, record: &M) -> (r: Result<(), JoydbError>) where
        State: GetRelation<M>,

        requires
            old(self).wf(),
        ensures
            final(self).wf(),
            r is Ok,
            ({
                let v0 = old(self)@;
                let s0 = <State as GetRelation<M>>::dbv_rel(v0);
                if contains_id(s0, record.spec_id()) {
                    final(self)@ == spec_after_change(
                        <State as GetRelation<M>>::dbv_with(
                            v0,
                            s0.update(first_idx(s0, record.spec_id()), *record),
                            true,
                        ),
                    )
                } else {
                    final(self)@ == spec_after_change(
                        <State as GetRelation<M>>::dbv_with(v0, s0.push(*record), true),
                    )
                }
            }),
    {
        let ghost m0 = self.mode@;
        let ghost st0 = self.state;
        let mut tmp: Relation<M> = Relation::new();
        <State as GetRelation<M>>::swap_rel(&mut self.state, &mut tmp);
        let res = tmp.upsert(record);
        let ghost tmp1 = tmp;
        <State as GetRelation<M>>::swap_rel(&mut self.state, &mut tmp);
        proof {
            <State as GetRelation<M>>::lemma_coherence(st0, tmp1, m0);
        }
        match res {
            Ok(()) => self.after_change(),
            Err(e) => Err(e),
        }
    }

    /// Removes and returns the record carrying `id`; when no record does,
    /// nothing changes — the dirty flags included — and nothing is
    /// returned. Under the instant policy a removal flushes before
    /// returning.
    pub fn delete<M: Model>(&mut self, id: u128) -> (r: Result<Option<M>, JoydbError>) where
        State: GetRelation<M>,

        requires
            old(self).wf(),
        ensures
            final(self).wf(),
            ({
                let v0 = old(self)@;
                let s0 = <State as GetRelation<M>>::dbv_rel(v0);
                if contains_id(s0, id) {
                    &&& r == Ok::<Option<M>, JoydbError>(Some(s0[first_idx(s0, id)]))
                    &&& final(self)@ == spec_after_change(
                        <State as GetRelation<M>>::dbv_with(
                            v0,
                            s0.remove(first_idx(s0, id)),
                            true,
                        ),
                    )
                } else {
                    &&& r == Ok::<Option<M>, JoydbError>(None)
                    &&& final(self)@ == v0
                }
            }),
    {
        let ghost m0 = self.mode@;
        let ghost st0 = self.state;
        let mut tmp: Relation<M> = Relation::new();
        <State as GetRelation<M>>::swap_rel(&mut self.state, &mut tmp);
        let res = tmp.delete(id);
        let ghost tmp1 = tmp;
        <State as GetRelation<M>>::swap_rel(&mut self.state, &mut tmp);
        proof {
            <State as GetRelation<M>>::lemma_coherence(st0, tmp1, m0);
        }
        match res {
            Ok(Some(rec)) => {
                match self.after_change() {
                    Ok(()) => Ok(Some(rec)),
                    Err(e) => Err(e),
                }
            },
            Ok(None) => Ok(None),
            Err(e) => Err(e),
        }
    }

    /// Removes and returns every record of the type on which the
    /// predicate returns true, preserving the relative order of the
    /// survivors; when at least one record went, the mutation counts and,
    /// under the instant policy, flushes before returning.
    pub fn delete_all_by<M: Model, F: Fn(&M) -> bool>(&mut self, predicate: F) -> (r: Result<
        Vec<M>,
        JoydbError,
    >) where State: GetRelation<M>
        requires
            old(self).wf(),
            forall|k: int|
                0 <= k < <State as GetRelation<M>>::dbv_rel(old(self)@).len() ==> call_requires(
                    predicate,
                    (&<State as GetRelation<M>>::dbv_rel(old(self)@)[k],),
                ),
        ensures
            final(self).wf(),
            ({
                let v0 = old(self)@;
                let s0 = <State as GetRelation<M>>::dbv_rel(v0);
                r matches Ok(removed) && exists|keep: Seq<bool>|
                    {
                        &&& keep.len() == s0.len()
                        &&& forall|t: int|
                            0 <= t < keep.len() ==> call_ensures(
                                predicate,
                                (&s0[t],),
                                #[trigger] keep[t],
                            )
                        &&& removed@ == (#[trigger] mask_keep(s0, keep))
                        &&& final(self)@ == (if removed@.len() > 0 {
                            spec_after_change(
                                <State as GetRelation<M>>::dbv_with(
                                    v0,
                                    mask_drop(s0, keep),
                                    true,
                                ),
                            )
                        } else {
                            <State as GetRelation<M>>::dbv_with(
                                v0,
                                mask_drop(s0, keep),
                                <State as GetRelation<M>>::dbv_rel_dirty(v0),
                            )
                        })
                    }
            }),
    {
        let ghost m0 = self.mode@;
        let ghost st0 = self.state;
        let mut tmp: Relation<M> = Relation::new();
        <State as GetRelation<M>>::swap_rel(&mut self.state, &mut tmp);
        proof {
            <State as GetRelation<M>>::lemma_coherence(st0, tmp, m0);
            let s0 = <State as GetRelation<M>>::dbv_rel(old(self)@);
            assert forall|k: int| 0 <= k < tmp@.len() implies call_requires(
                predicate,
                (&tmp@[k],),
            ) by {
                assert(tmp@[k] == s0[k]);
            }
        }
        let res = tmp.delete_all_by(predicate);
        let ghost tmp1 = tmp;
        <State as GetRelation<M>>::swap_rel(&mut self.state, &mut tmp);
        proof {
            <State as GetRelation<M>>::lemma_coherence(st0, tmp1, m0);
        }
        match res {
            Ok(removed) => {
                if removed.len() > 0 {
                    match self.after_change() {
                        Ok(()) => Ok(removed),
                        Err(e) => Err(e),
                    }
                } else {
                    Ok(removed)
                }
            },
            Err(e) => Err(e),
        }
    }
}

} // verus!
