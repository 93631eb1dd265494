//! Adapters: the pluggable persistence strategies.
//!
//! An adapter owns an in-memory image of its storage target — what sits at
//! its path — and every write rewrites that image through the verified
//! codec. The host process reads the real location into the image before
//! opening a store, and persists the image after mutations; the store's
//! logic, including everything written here, never touches the file system
//! itself.

use vstd::prelude::*;
use vstd::string::StringExecFns;

use crate::codec::csv;
use crate::codec::json;
use crate::codec::ron;
use crate::error::JoydbError;
use crate::model::{Post, PostV, User, UserV};
use crate::relation::Relation;
use crate::state::{deep_posts, deep_users, State};

verus! {

/// What sits at one path: nothing, a regular file with its text, or a
/// directory.
#[derive(Debug)]
pub enum FsNode {
    Absent,
    File(String),
    Directory,
}

/// The mathematical value of an [`FsNode`].
pub ghost enum FsNodeV {
    Absent,
    File(Seq<char>),
    Directory,
}

impl View for FsNode {
    type V = FsNodeV;

    open spec fn view(&self) -> FsNodeV {
        match self {
            FsNode::Absent => FsNodeV::Absent,
            FsNode::File(s) => FsNodeV::File(s@),
            FsNode::Directory => FsNodeV::Directory,
        }
    }
}

impl Clone for FsNode {
    fn clone(&self) -> (r: Self)
        ensures
            r == *self,
    {
        match self {
            FsNode::Absent => FsNode::Absent,
            FsNode::File(s) => FsNode::File(s.clone()),
            FsNode::Directory => FsNode::Directory,
        }
    }
}

/// The per-relation entries of a partitioned storage directory.
#[derive(Debug)]
pub struct RelationFiles {
    pub users: FsNode,
    pub posts: FsNode,
}

/// The mathematical value of a [`RelationFiles`].
pub ghost struct RelationFilesV {
    pub users: FsNodeV,
    pub posts: FsNodeV,
}

impl View for RelationFiles {
    type V = RelationFilesV;

    open spec fn view(&self) -> RelationFilesV {
        RelationFilesV { users: self.users@, posts: self.posts@ }
    }
}

/// What sits at a partitioned adapter's directory path: nothing, something
/// that is not a directory, or the directory with its per-relation
/// entries.
#[derive(Debug)]
pub enum DirTarget {
    Absent,
    NotADirectory,
    Present(RelationFiles),
}

/// The mathematical value of a [`DirTarget`].
pub ghost enum DirTargetV {
    Absent,
    NotADirectory,
    Present(RelationFilesV),
}

impl View for DirTarget {
    type V = DirTargetV;

    open spec fn view(&self) -> DirTargetV {
        match self {
            DirTarget::Absent => DirTargetV::Absent,
            DirTarget::NotADirectory => DirTargetV::NotADirectory,
            DirTarget::Present(f) => DirTargetV::Present(f@),
        }
    }
}

/// What loading one relation file yields: the file as it stands
/// afterwards together with the records, or one of the two failures.
pub ghost enum RelLoadV<T> {
    Loaded(FsNodeV, Seq<T>),
    Corrupt,
    NotAFile,
}

/// What loading the user relation file of a partitioned JSON store does:
/// a missing file is initialized to an empty relation, an existing file is
/// decoded, and anything else fails.
pub open spec fn spec_load_users(f: FsNodeV, pretty: bool) -> RelLoadV<UserV> {
    match f {
        FsNodeV::Absent => RelLoadV::Loaded(
            FsNodeV::File(json::json_users(Seq::<UserV>::empty(), pretty)),
            Seq::<UserV>::empty(),
        ),
        FsNodeV::File(c) => match json::parse_users_doc(c) {
            Some(us) => RelLoadV::Loaded(f, us),
            None => RelLoadV::Corrupt,
        },
        FsNodeV::Directory => RelLoadV::NotAFile,
    }
}

/// What loading the post relation file of a partitioned JSON store does.
pub open spec fn spec_load_posts(f: FsNodeV, pretty: bool) -> RelLoadV<PostV> {
    match f {
        FsNodeV::Absent => RelLoadV::Loaded(
            FsNodeV::File(json::json_posts(Seq::<PostV>::empty(), pretty)),
            Seq::<PostV>::empty(),
        ),
        FsNodeV::File(c) => match json::parse_posts_doc(c) {
            Some(ps) => RelLoadV::Loaded(f, ps),
            None => RelLoadV::Corrupt,
        },
        FsNodeV::Directory => RelLoadV::NotAFile,
    }
}

/// A unified adapter: the whole state lives in one JSON file.
#[derive(Debug)]
pub struct JsonAdapter {
    file_path: String,
    pretty: bool,
    target: FsNode,
}

/// The mathematical value of a [`JsonAdapter`].
pub ghost struct JsonAdapterV {
    pub file_path: Seq<char>,
    pub pretty: bool,
    pub target: FsNodeV,
}

impl View for JsonAdapter {
    type V = JsonAdapterV;

    closed spec fn view(&self) -> JsonAdapterV {
        JsonAdapterV { file_path: self.file_path@, pretty: self.pretty, target: self.target@ }
    }
}

impl JsonAdapter {
    /// Creates an adapter for the given file path; the storage image
    /// starts out absent until the host supplies it.
    pub fn new(file_path: &str, pretty: bool) -> (r: Self)
        ensures
            r@ == (JsonAdapterV { file_path: file_path@, pretty, target: FsNodeV::Absent }),
    {
        JsonAdapter {
            file_path: String::from_str(file_path),
            pretty,
            target: FsNode::Absent,
        }
    }

    /// Supplies what currently sits at the adapter's path.
    pub fn with_target(self, target: FsNode) -> (r: Self)
        ensures
            r@ == (JsonAdapterV { target: target@, ..self@ }),
    {
        JsonAdapter { target, ..self }
    }

    /// The current storage image, for the host to persist.
    pub fn target(&self) -> (r: &FsNode)
        ensures
            r@ == self@.target,
    {
        &self.target
    }

    /// The path this adapter stands for.
    pub fn file_path(&self) -> (r: &str)
        ensures
            r@ == self@.file_path,
    {
        self.file_path.as_str()
    }

    /// Loads the whole state, called exactly once when the store opens: an
    /// absent target is initialized by writing an empty state; an existing
    /// file is decoded; a directory in the way fails.
    pub fn load_state(&mut self) -> (r: Result<State, JoydbError>)
        ensures
            final(self)@.file_path == old(self)@.file_path,
            final(self)@.pretty == old(self)@.pretty,
            match old(self)@.target {
                FsNodeV::Directory => {
                    &&& *final(self) == *old(self)
                    &&& r matches Err(JoydbError::NotFile(p)) && p@ == old(self)@.file_path
                },
                FsNodeV::Absent => {
                    &&& final(self)@.target == FsNodeV::File(
                        json::json_state(
                            Seq::<UserV>::empty(),
                            Seq::<PostV>::empty(),
                            old(self)@.pretty,
                        ),
                    )
                    &&& r matches Ok(st) && st.spec_users()@ == Seq::<User>::empty()
                        && st.spec_posts()@ == Seq::<Post>::empty() && !st.spec_dirty()
                },
                FsNodeV::File(content) => {
                    &&& *final(self) == *old(self)
                    &&& match json::parse_state_doc(content) {
                        Some(sv) => r matches Ok(st) && deep_users(st.spec_users()@) == sv.0
                            && deep_posts(st.spec_posts()@) == sv.1 && !st.spec_dirty(),
                        None => r matches Err(JoydbError::Deserialize(_)),
                    }
                },
            },
    {
        match &self.target {
            FsNode::Directory => Err(JoydbError::NotFile(self.file_path.clone())),
            FsNode::Absent => {
                let st = State::new();
                self.write_state(&st);
                proof {
                    lemma_deep_of_records(st);
                }
                Ok(st)
            },
            FsNode::File(content) => {
                match json::decode_state(content.as_str()) {
                    Ok((users, posts)) => {
                        let st = State::new_with(
                            Relation::new_with_records(users),
                            Relation::new_with_records(posts),
                        );
                        proof {
                            lemma_deep_of_records(st);
                        }
                        Ok(st)
                    },
                    Err(e) => Err(e),
                }
            },
        }
    }

    /// Rewrites the storage image with the encoding of the whole state.
    pub fn write_state(&mut self, state: &State)
        ensures
            final(self)@.file_path == old(self)@.file_path,
            final(self)@.pretty == old(self)@.pretty,
            final(self)@.target == FsNodeV::File(
                json::json_state(
                    deep_users(state.spec_users()@),
                    deep_posts(state.spec_posts()@),
                    old(self)@.pretty,
                ),
            ),
    {
        let text = json::encode_state(
            state.users().records(),
            state.posts().records(),
            self.pretty,
        );
        proof {
            lemma_deep_of_records(*state);
        }
        self.target = FsNode::File(text);
    }
}

/// A vector's deep view is the deep view of the record sequence it holds.
pub proof fn lemma_deep_of_records(st: State)
    ensures
        forall|v: Vec<User>|
            v@ == st.spec_users()@ ==> #[trigger] v.deep_view() == deep_users(st.spec_users()@),
        forall|v: Vec<Post>|
            v@ == st.spec_posts()@ ==> #[trigger] v.deep_view() == deep_posts(st.spec_posts()@),
{
    assert forall|v: Vec<User>| v@ == st.spec_users()@ implies #[trigger] v.deep_view()
        == deep_users(st.spec_users()@) by {
        assert(v.deep_view() =~= deep_users(st.spec_users()@));
    }
    assert forall|v: Vec<Post>| v@ == st.spec_posts()@ implies #[trigger] v.deep_view()
        == deep_posts(st.spec_posts()@) by {
        assert(v.deep_view() =~= deep_posts(st.spec_posts()@));
    }
}

/// A partitioned adapter: one JSON file per relation, inside one
/// directory.
#[derive(Debug)]
pub struct JsonPartitionedAdapter {
    dir_path: String,
    pretty: bool,
    dir: DirTarget,
}

/// The mathematical value of a [`JsonPartitionedAdapter`].
pub ghost struct JsonPartitionedAdapterV {
    pub dir_path: Seq<char>,
    pub pretty: bool,
    pub dir: DirTargetV,
}

impl View for JsonPartitionedAdapter {
    type V = JsonPartitionedAdapterV;

    closed spec fn view(&self) -> JsonPartitionedAdapterV {
        JsonPartitionedAdapterV { dir_path: self.dir_path@, pretty: self.pretty, dir: self.dir@ }
    }
}

impl JsonPartitionedAdapter {
    /// Creates an adapter for the given directory path; the storage image
    /// starts out absent until the host supplies it.
    pub fn new(dir_path: &str, pretty: bool) -> (r: Self)
        ensures
            r@ == (JsonPartitionedAdapterV {
                dir_path: dir_path@,
                pretty,
                dir: DirTargetV::Absent,
            }),
    {
        JsonPartitionedAdapter {
            dir_path: String::from_str(dir_path),
            pretty,
            dir: DirTarget::Absent,
        }
    }

    /// Supplies what currently sits at the adapter's directory path.
    pub fn with_dir(self, dir: DirTarget) -> (r: Self)
        ensures
            r@ == (JsonPartitionedAdapterV { dir: dir@, ..self@ }),
    {
        JsonPartitionedAdapter { dir, ..self }
    }

    /// The current storage image, for the host to persist.
    pub fn dir(&self) -> (r: &DirTarget)
        ensures
            r@ == self@.dir,
    {
        &self.dir
    }

    /// The path this adapter stands for.
    pub fn dir_path(&self) -> (r: &str)
        ensures
            r@ == self@.dir_path,
    {
        self.dir_path.as_str()
    }

    /// Loads the whole state, called exactly once when the store opens:
    /// the directory is created when absent, each relation file is decoded
    /// or lazily initialized to an empty relation, and a non-directory in
    /// the way fails. A failure on the second relation leaves any
    /// initialization of the first in place, exactly as loading them in
    /// order would on disk.
    pub fn load_state(&mut self) -> (r: Result<State, JoydbError>)
        ensures
            final(self)@.dir_path == old(self)@.dir_path,
            final(self)@.pretty == old(self)@.pretty,
            match old(self)@.dir {
                DirTargetV::NotADirectory => {
                    &&& *final(self) == *old(self)
                    &&& r matches Err(JoydbError::NotDirectory(p)) && p@ == old(self)@.dir_path
                },
                _ => {
                    let files = match old(self)@.dir {
                        DirTargetV::Present(files) => files,
                        _ => RelationFilesV { users: FsNodeV::Absent, posts: FsNodeV::Absent },
                    };
                    match spec_load_users(files.users, old(self)@.pretty) {
                        RelLoadV::NotAFile => {
                            &&& final(self)@.dir == DirTargetV::Present(files)
                            &&& r matches Err(JoydbError::NotFile(p)) && p@ == old(
                                self,
                            )@.dir_path + "/User.json"@
                        },
                        RelLoadV::Corrupt => {
                            &&& final(self)@.dir == DirTargetV::Present(files)
                            &&& r matches Err(JoydbError::Deserialize(_))
                        },
                        RelLoadV::Loaded(fu, us) => match spec_load_posts(
                            files.posts,
                            old(self)@.pretty,
                        ) {
                            RelLoadV::NotAFile => {
                                &&& final(self)@.dir == DirTargetV::Present(
                                    RelationFilesV { users: fu, ..files },
                                )
                                &&& r matches Err(JoydbError::NotFile(p)) && p@ == old(
                                    self,
                                )@.dir_path + "/Post.json"@
                            },
                            RelLoadV::Corrupt => {
                                &&& final(self)@.dir == DirTargetV::Present(
                                    RelationFilesV { users: fu, ..files },
                                )
                                &&& r matches Err(JoydbError::Deserialize(_))
                            },
                            RelLoadV::Loaded(fp, ps) => {
                                &&& final(self)@.dir == DirTargetV::Present(
                                    RelationFilesV { users: fu, posts: fp },
                                )
                                &&& r matches Ok(st) && deep_users(st.spec_users()@) == us
                                    && deep_posts(st.spec_posts()@) == ps && !st.spec_dirty()
                            },
                        },
                    }
                },
            },
    {
        match &self.dir {
            DirTarget::NotADirectory => {
                return Err(JoydbError::NotDirectory(self.dir_path.clone()));
            },
            DirTarget::Absent => {
                self.dir = DirTarget::Present(
                    RelationFiles { users: FsNode::Absent, posts: FsNode::Absent },
                );
            },
            DirTarget::Present(_) => {},
        }
        // Load or initialize the user relation file.
        let users = match self.load_users_file() {
            Ok(v) => v,
            Err(e) => {
                return Err(e);
            },
        };
        // Load or initialize the post relation file.
        let posts = match self.load_posts_file() {
            Ok(v) => v,
            Err(e) => {
                return Err(e);
            },
        };
        let st = State::new_with(
            Relation::new_with_records(users),
            Relation::new_with_records(posts),
        );
        proof {
            lemma_deep_of_records(st);
        }
        Ok(st)
    }

    /// Loads or lazily initializes the user relation file.
    fn load_users_file(&mut self) -> (r: Result<Vec<User>, JoydbError>)
        requires
            old(self)@.dir is Present,
        ensures
            final(self)@.dir_path == old(self)@.dir_path,
            final(self)@.pretty == old(self)@.pretty,
            ({
                let files = old(self)@.dir->Present_0;
                match spec_load_users(files.users, old(self)@.pretty) {
                    RelLoadV::NotAFile => {
                        &&& *final(self) == *old(self)
                        &&& r matches Err(JoydbError::NotFile(p)) && p@ == old(
                            self,
                        )@.dir_path + "/User.json"@
                    },
                    RelLoadV::Corrupt => {
                        &&& *final(self) == *old(self)
                        &&& r matches Err(JoydbError::Deserialize(_))
                    },
                    RelLoadV::Loaded(fu, us) => {
                        &&& final(self)@.dir == DirTargetV::Present(
                            RelationFilesV { users: fu, ..files },
                        )
                        &&& r matches Ok(v) && v.deep_view() == us
                    },
                }
            }),
    {
        let pretty = self.pretty;
        match &self.dir {
            DirTarget::Present(files) => match &files.users {
                FsNode::Directory => {
                    let mut p = self.dir_path.clone();
                    p.append("/User.json");
                    Err(JoydbError::NotFile(p))
                },
                FsNode::File(c) => {
                    match json::decode_users(c.as_str()) {
                        Ok(v) => Ok(v),
                        Err(e) => Err(e),
                    }
                },
                FsNode::Absent => {
                    let empty: Vec<User> = Vec::new();
                    let text = json::encode_users(&empty, pretty);
                    let posts_node = match &self.dir {
                        DirTarget::Present(files) => files.posts.clone(),
                        _ => FsNode::Absent,
                    };
                    self.dir = DirTarget::Present(
                        RelationFiles { users: FsNode::File(text), posts: posts_node },
                    );
                    proof {
                        assert(empty.deep_view() =~= Seq::<UserV>::empty());
                    }
                    Ok(empty)
                },
            },
            _ => {
                // Unreachable: the directory is present.
                Err(JoydbError::NotDirectory(self.dir_path.clone()))
            },
        }
    }

    /// Loads or lazily initializes the post relation file.
    fn load_posts_file(&mut self) -> (r: Result<Vec<Post>, JoydbError>)
        requires
            old(self)@.dir is Present,
        ensures
            final(self)@.dir_path == old(self)@.dir_path,
            final(self)@.pretty == old(self)@.pretty,
            ({
                let files = old(self)@.dir->Present_0;
                match spec_load_posts(files.posts, old(self)@.pretty) {
                    RelLoadV::NotAFile => {
                        &&& *final(self) == *old(self)
                        &&& r matches Err(JoydbError::NotFile(p)) && p@ == old(
                            self,
                        )@.dir_path + "/Post.json"@
                    },
                    RelLoadV::Corrupt => {
                        &&& *final(self) == *old(self)
                        &&& r matches Err(JoydbError::Deserialize(_))
                    },
                    RelLoadV::Loaded(fp, ps) => {
                        &&& final(self)@.dir == DirTargetV::Present(
                            RelationFilesV { posts: fp, ..files },
                        )
                        &&& r matches Ok(v) && v.deep_view() == ps
                    },
                }
            }),
    {
        let pretty = self.pretty;
        match &self.dir {
            DirTarget::Present(files) => match &files.posts {
                FsNode::Directory => {
                    let mut p = self.dir_path.clone();
                    p.append("/Post.json");
                    Err(JoydbError::NotFile(p))
                },
                FsNode::File(c) => {
                    match json::decode_posts(c.as_str()) {
                        Ok(v) => Ok(v),
                        Err(e) => Err(e),
                    }
                },
                FsNode::Absent => {
                    let empty: Vec<Post> = Vec::new();
                    let text = json::encode_posts(&empty, pretty);
                    let users_node = match &self.dir {
                        DirTarget::Present(files) => files.users.clone(),
                        _ => FsNode::Absent,
                    };
                    self.dir = DirTarget::Present(
                        RelationFiles { users: users_node, posts: FsNode::File(text) },
                    );
                    proof {
                        assert(empty.deep_view() =~= Seq::<PostV>::empty());
                    }
                    Ok(empty)
                },
            },
            _ => {
                // Unreachable: the directory is present.
                Err(JoydbError::NotDirectory(self.dir_path.clone()))
            },
        }
    }

    /// Rewrites the relation files of every dirty relation; clean
    /// relations keep their files untouched.
    pub fn write_state(&mut self, state: &State)
        requires
            old(self)@.dir is Present,
        ensures
            final(self)@.dir_path == old(self)@.dir_path,
            final(self)@.pretty == old(self)@.pretty,
            ({
                let files = old(self)@.dir->Present_0;
                final(self)@.dir == DirTargetV::Present(
                    RelationFilesV {
                        users: if state.spec_users().spec_dirty() {
                            FsNodeV::File(
                                json::json_users(
                                    deep_users(state.spec_users()@),
                                    old(self)@.pretty,
                                ),
                            )
                        } else {
                            files.users
                        },
                        posts: if state.spec_posts().spec_dirty() {
                            FsNodeV::File(
                                json::json_posts(
                                    deep_posts(state.spec_posts()@),
                                    old(self)@.pretty,
                                ),
                            )
                        } else {
                            files.posts
                        },
                    },
                )
            }),
    {
        let pretty = self.pretty;
        proof {
            lemma_deep_of_records(*state);
        }
        let (old_users, old_posts) = match &self.dir {
            DirTarget::Present(files) => (files.users.clone(), files.posts.clone()),
            _ => (FsNode::Absent, FsNode::Absent),
        };
        let users_node = if state.users().is_dirty() {
            FsNode::File(json::encode_users(state.users().records(), pretty))
        } else {
            old_users
        };
        let posts_node = if state.posts().is_dirty() {
            FsNode::File(json::encode_posts(state.posts().records(), pretty))
        } else {
            old_posts
        };
        self.dir = DirTarget::Present(RelationFiles { users: users_node, posts: posts_node });
    }
}

/// The persistence strategy of a store: exactly one of the adapter kinds,
/// fixed when the store opens.
#[derive(Debug)]
pub enum Adapter {
    Json(JsonAdapter),
    JsonPartitioned(JsonPartitionedAdapter),
    Ron(RonAdapter),
    RonPartitioned(RonPartitionedAdapter),
    Csv(CsvAdapter),
}

/// What loading the user relation file of a CSV store does.
pub open spec fn spec_load_csv_users(f: FsNodeV) -> RelLoadV<UserV> {
    match f {
        FsNodeV::Absent => RelLoadV::Loaded(
            FsNodeV::File(csv::csv_users(Seq::<UserV>::empty())),
            Seq::<UserV>::empty(),
        ),
        FsNodeV::File(c) => match csv::parse_csv_users_doc(c) {
            Some(us) => RelLoadV::Loaded(f, us),
            None => RelLoadV::Corrupt,
        },
        FsNodeV::Directory => RelLoadV::NotAFile,
    }
}

/// What loading the post relation file of a CSV store does.
pub open spec fn spec_load_csv_posts(f: FsNodeV) -> RelLoadV<PostV> {
    match f {
        FsNodeV::Absent => RelLoadV::Loaded(
            FsNodeV::File(csv::csv_posts(Seq::<PostV>::empty())),
            Seq::<PostV>::empty(),
        ),
        FsNodeV::File(c) => match csv::parse_csv_posts_doc(c) {
            Some(ps) => RelLoadV::Loaded(f, ps),
            None => RelLoadV::Corrupt,
        },
        FsNodeV::Directory => RelLoadV::NotAFile,
    }
}

/// A partitioned adapter: one CSV file per relation, inside one directory.
#[derive(Debug)]
pub struct CsvAdapter {
    dir_path: String,
    dir: DirTarget,
}

/// The mathematical value of a [`CsvAdapter`].
pub ghost struct CsvAdapterV {
    pub dir_path: Seq<char>,
    pub dir: DirTargetV,
}

impl View for CsvAdapter {
    type V = CsvAdapterV;

    closed spec fn view(&self) -> CsvAdapterV {
        CsvAdapterV { dir_path: self.dir_path@, dir: self.dir@ }
    }
}

impl CsvAdapter {
    /// Creates an adapter for the given directory path; the storage image
    /// starts out absent until the host supplies it.
    pub fn new(dir_path: &str) -> (r: Self)
        ensures
            r@ == (CsvAdapterV { dir_path: dir_path@, dir: DirTargetV::Absent }),
    {
        CsvAdapter { dir_path: String::from_str(dir_path), dir: DirTarget::Absent }
    }

    /// Supplies what currently sits at the adapter's directory path.
    pub fn with_dir(self, dir: DirTarget) -> (r: Self)
        ensures
            r@ == (CsvAdapterV { dir: dir@, ..self@ }),
    {
        CsvAdapter { dir, ..self }
    }

    /// The current storage image, for the host to persist.
    pub fn dir(&self) -> (r: &DirTarget)
        ensures
            r@ == self@.dir,
    {
        &self.dir
    }

    /// The path this adapter stands for.
    pub fn dir_path(&self) -> (r: &str)
        ensures
            r@ == self@.dir_path,
    {
        self.dir_path.as_str()
    }

    /// Loads the whole state, exactly as the partitioned JSON adapter
    /// does, with CSV relation files.
    pub fn load_state(&mut self) -> (r: Result<State, JoydbError>)
        ensures
            final(self)@.dir_path == old(self)@.dir_path,
            match old(self)@.dir {
                DirTargetV::NotADirectory => {
                    &&& *final(self) == *old(self)
                    &&& r matches Err(JoydbError::NotDirectory(p)) && p@ == old(self)@.dir_path
                },
                _ => {
                    let files = match old(self)@.dir {
                        DirTargetV::Present(files) => files,
                        _ => RelationFilesV { users: FsNodeV::Absent, posts: FsNodeV::Absent },
                    };
                    match spec_load_csv_users(files.users) {
                        RelLoadV::NotAFile => {
                            &&& final(self)@.dir == DirTargetV::Present(files)
                            &&& r matches Err(JoydbError::NotFile(p)) && p@ == old(
                                self,
                            )@.dir_path + "/User.csv"@
                        },
                        RelLoadV::Corrupt => {
                            &&& final(self)@.dir == DirTargetV::Present(files)
                            &&& r matches Err(JoydbError::Deserialize(_))
                        },
                        RelLoadV::Loaded(fu, us) => match spec_load_csv_posts(files.posts) {
                            RelLoadV::NotAFile => {
                                &&& final(self)@.dir == DirTargetV::Present(
                                    RelationFilesV { users: fu, ..files },
                                )
                                &&& r matches Err(JoydbError::NotFile(p)) && p@ == old(
                                    self,
                                )@.dir_path + "/Post.csv"@
                            },
                            RelLoadV::Corrupt => {
                                &&& final(self)@.dir == DirTargetV::Present(
                                    RelationFilesV { users: fu, ..files },
                                )
                                &&& r matches Err(JoydbError::Deserialize(_))
                            },
                            RelLoadV::Loaded(fp, ps) => {
                                &&& final(self)@.dir == DirTargetV::Present(
                                    RelationFilesV { users: fu, posts: fp },
                                )
                                &&& r matches Ok(st) && deep_users(st.spec_users()@) == us
                                    && deep_posts(st.spec_posts()@) == ps && !st.spec_dirty()
                            },
                        },
                    }
                },
            },
    {
        match &self.dir {
            DirTarget::NotADirectory => {
                return Err(JoydbError::NotDirectory(self.dir_path.clone()));
            },
            DirTarget::Absent => {
                self.dir = DirTarget::Present(
                    RelationFiles { users: FsNode::Absent, posts: FsNode::Absent },
                );
            },
            DirTarget::Present(_) => {},
        }
        let users = match self.load_users_file() {
            Ok(v) => v,
            Err(e) => {
                return Err(e);
            },
        };
        let posts = match self.load_posts_file() {
            Ok(v) => v,
            Err(e) => {
                return Err(e);
            },
        };
        let st = State::new_with(
            Relation::new_with_records(users),
            Relation::new_with_records(posts),
        );
        proof {
            lemma_deep_of_records(st);
        }
        Ok(st)
    }

    /// Loads or lazily initializes the user relation file.
    fn load_users_file(&mut self) -> (r: Result<Vec<User>, JoydbError>)
        requires
            old(self)@.dir is Present,
        ensures
            final(self)@.dir_path == old(self)@.dir_path,
            ({
                let files = old(self)@.dir->Present_0;
                match spec_load_csv_users(files.users) {
                    RelLoadV::NotAFile => {
                        &&& *final(self) == *old(self)
                        &&& r matches Err(JoydbError::NotFile(p)) && p@ == old(
                            self,
                        )@.dir_path + "/User.csv"@
                    },
                    RelLoadV::Corrupt => {
                        &&& *final(self) == *old(self)
                        &&& r matches Err(JoydbError::Deserialize(_))
                    },
                    RelLoadV::Loaded(fu, us) => {
                        &&& final(self)@.dir == DirTargetV::Present(
                            RelationFilesV { users: fu, ..files },
                        )
                        &&& r matches Ok(v) && v.deep_view() == us
                    },
                }
            }),
    {
        match &self.dir {
            DirTarget::Present(files) => match &files.users {
                FsNode::Directory => {
                    let mut p = self.dir_path.clone();
                    p.append("/User.csv");
                    Err(JoydbError::NotFile(p))
                },
                FsNode::File(c) => {
                    match csv::decode_csv_users(c.as_str()) {
                        Ok(v) => Ok(v),
                        Err(e) => Err(e),
                    }
                },
                FsNode::Absent => {
                    let empty: Vec<User> = Vec::new();
                    let text = csv::encode_csv_users(&empty);
                    let posts_node = match &self.dir {
                        DirTarget::Present(files) => files.posts.clone(),
                        _ => FsNode::Absent,
                    };
                    self.dir = DirTarget::Present(
                        RelationFiles { users: FsNode::File(text), posts: posts_node },
                    );
                    proof {
                        assert(empty.deep_view() =~= Seq::<UserV>::empty());
                    }
                    Ok(empty)
                },
            },
            _ => {
                // Unreachable: the directory is present.
                Err(JoydbError::NotDirectory(self.dir_path.clone()))
            },
        }
    }

    /// Loads or lazily initializes the post relation file.
    fn load_posts_file(&mut self) -> (r: Result<Vec<Post>, JoydbError>)
        requires
            old(self)@.dir is Present,
        ensures
            final(self)@.dir_path == old(self)@.dir_path,
            ({
                let files = old(self)@.dir->Present_0;
                match spec_load_csv_posts(files.posts) {
                    RelLoadV::NotAFile => {
                        &&& *final(self) == *old(self)
                        &&& r matches Err(JoydbError::NotFile(p)) && p@ == old(
                            self,
                        )@.dir_path + "/Post.csv"@
                    },
                    RelLoadV::Corrupt => {
                        &&& *final(self) == *old(self)
                        &&& r matches Err(JoydbError::Deserialize(_))
                    },
                    RelLoadV::Loaded(fp, ps) => {
                        &&& final(self)@.dir == DirTargetV::Present(
                            RelationFilesV { posts: fp, ..files },
                        )
                        &&& r matches Ok(v) && v.deep_view() == ps
                    },
                }
            }),
    {
        match &self.dir {
            DirTarget::Present(files) => match &files.posts {
                FsNode::Directory => {
                    let mut p = self.dir_path.clone();
                    p.append("/Post.csv");
                    Err(JoydbError::NotFile(p))
                },
                FsNode::File(c) => {
                    match csv::decode_csv_posts(c.as_str()) {
                        Ok(v) => Ok(v),
                        Err(e) => Err(e),
                    }
                },
                FsNode::Absent => {
                    let empty: Vec<Post> = Vec::new();
                    let text = csv::encode_csv_posts(&empty);
                    let users_node = match &self.dir {
                        DirTarget::Present(files) => files.users.clone(),
                        _ => FsNode::Absent,
                    };
                    self.dir = DirTarget::Present(
                        RelationFiles { users: users_node, posts: FsNode::File(text) },
                    );
                    proof {
                        assert(empty.deep_view() =~= Seq::<PostV>::empty());
                    }
                    Ok(empty)
                },
            },
            _ => {
                // Unreachable: the directory is present.
                Err(JoydbError::NotDirectory(self.dir_path.clone()))
            },
        }
    }

    /// Rewrites the relation files of every dirty relation; clean
    /// relations keep their files untouched.
    pub fn write_state(&mut self, state: &State)
        requires
            old(self)@.dir is Present,
        ensures
            final(self)@.dir_path == old(self)@.dir_path,
            ({
                let files = old(self)@.dir->Present_0;
                final(self)@.dir == DirTargetV::Present(
                    RelationFilesV {
                        users: if state.spec_users().spec_dirty() {
                            FsNodeV::File(csv::csv_users(deep_users(state.spec_users()@)))
                        } else {
                            files.users
                        },
                        posts: if state.spec_posts().spec_dirty() {
                            FsNodeV::File(csv::csv_posts(deep_posts(state.spec_posts()@)))
                        } else {
                            files.posts
                        },
                    },
                )
            }),
    {
        proof {
            lemma_deep_of_records(*state);
        }
        let (old_users, old_posts) = match &self.dir {
            DirTarget::Present(files) => (files.users.clone(), files.posts.clone()),
            _ => (FsNode::Absent, FsNode::Absent),
        };
        let users_node = if state.users().is_dirty() {
            FsNode::File(csv::encode_csv_users(state.users().records()))
        } else {
            old_users
        };
        let posts_node = if state.posts().is_dirty() {
            FsNode::File(csv::encode_csv_posts(state.posts().records()))
        } else {
            old_posts
        };
        self.dir = DirTarget::Present(RelationFiles { users: users_node, posts: posts_node });
    }
}

/// Builds an adapter from a path, with each adapter kind's default
/// options; the storage image starts out absent until the host supplies
/// it.
pub trait FromPath: Sized {
    /// Creates the adapter for the given file or directory path.
    fn from_path(path: &str) -> Self;
}

impl FromPath for JsonAdapter {
    fn from_path(path: &str) -> Self {
        JsonAdapter::new(path, true)
    }
}

impl FromPath for JsonPartitionedAdapter {
    fn from_path(path: &str) -> Self {
        JsonPartitionedAdapter::new(path, true)
    }
}

impl FromPath for CsvAdapter {
    fn from_path(path: &str) -> Self {
        CsvAdapter::new(path)
    }
}

/// What loading the user relation file of a partitioned RON store does.
pub open spec fn spec_load_ron_users(f: FsNodeV, pretty: bool) -> RelLoadV<UserV> {
    match f {
        FsNodeV::Absent => RelLoadV::Loaded(
            FsNodeV::File(ron::ron_users(Seq::<UserV>::empty(), pretty)),
            Seq::<UserV>::empty(),
        ),
        FsNodeV::File(c) => match ron::parse_ron_users_doc(c) {
            Some(us) => RelLoadV::Loaded(f, us),
            None => RelLoadV::Corrupt,
        },
        FsNodeV::Directory => RelLoadV::NotAFile,
    }
}

/// What loading the post relation file of a partitioned RON store does.
pub open spec fn spec_load_ron_posts(f: FsNodeV, pretty: bool) -> RelLoadV<PostV> {
    match f {
        FsNodeV::Absent => RelLoadV::Loaded(
            FsNodeV::File(ron::ron_posts(Seq::<PostV>::empty(), pretty)),
            Seq::<PostV>::empty(),
        ),
        FsNodeV::File(c) => match ron::parse_ron_posts_doc(c) {
            Some(ps) => RelLoadV::Loaded(f, ps),
            None => RelLoadV::Corrupt,
        },
        FsNodeV::Directory => RelLoadV::NotAFile,
    }
}

/// A unified adapter: the whole state lives in one RON file.
#[derive(Debug)]
pub struct RonAdapter {
    file_path: String,
    pretty: bool,
    target: FsNode,
}

/// The mathematical value of a [`RonAdapter`].
pub ghost struct RonAdapterV {
    pub file_path: Seq<char>,
    pub pretty: bool,
    pub target: FsNodeV,
}

impl View for RonAdapter {
    type V = RonAdapterV;

    closed spec fn view(&self) -> RonAdapterV {
        RonAdapterV { file_path: self.file_path@, pretty: self.pretty, target: self.target@ }
    }
}

impl RonAdapter {
    /// Creates an adapter for the given file path; the storage image
    /// starts out absent until the host supplies it.
    pub fn new(file_path: &str, pretty: bool) -> (r: Self)
        ensures
            r@ == (RonAdapterV { file_path: file_path@, pretty, target: FsNodeV::Absent }),
    {
        RonAdapter {
            file_path: String::from_str(file_path),
            pretty,
            target: FsNode::Absent,
        }
    }

    /// Supplies what currently sits at the adapter's path.
    pub fn with_target(self, target: FsNode) -> (r: Self)
        ensures
            r@ == (RonAdapterV { target: target@, ..self@ }),
    {
        RonAdapter { target, ..self }
    }

    /// The current storage image, for the host to persist.
    pub fn target(&self) -> (r: &FsNode)
        ensures
            r@ == self@.target,
    {
        &self.target
    }

    /// The path this adapter stands for.
    pub fn file_path(&self) -> (r: &str)
        ensures
            r@ == self@.file_path,
    {
        self.file_path.as_str()
    }

    /// Loads the whole state, exactly as the unified JSON adapter does,
    /// with the RON format.
    pub fn load_state(&mut self) -> (r: Result<State, JoydbError>)
        ensures
            final(self)@.file_path == old(self)@.file_path,
            final(self)@.pretty == old(self)@.pretty,
            match old(self)@.target {
                FsNodeV::Directory => {
                    &&& *final(self) == *old(self)
                    &&& r matches Err(JoydbError::NotFile(p)) && p@ == old(self)@.file_path
                },
                FsNodeV::Absent => {
                    &&& final(self)@.target == FsNodeV::File(
                        ron::ron_state(
                            Seq::<UserV>::empty(),
                            Seq::<PostV>::empty(),
                            old(self)@.pretty,
                        ),
                    )
                    &&& r matches Ok(st) && st.spec_users()@ == Seq::<User>::empty()
                        && st.spec_posts()@ == Seq::<Post>::empty() && !st.spec_dirty()
                },
                FsNodeV::File(content) => {
                    &&& *final(self) == *old(self)
                    &&& match ron::parse_ron_state_doc(content) {
                        Some(sv) => r matches Ok(st) && deep_users(st.spec_users()@) == sv.0
                            && deep_posts(st.spec_posts()@) == sv.1 && !st.spec_dirty(),
                        None => r matches Err(JoydbError::Deserialize(_)),
                    }
                },
            },
    {
        match &self.target {
            FsNode::Directory => Err(JoydbError::NotFile(self.file_path.clone())),
            FsNode::Absent => {
                let st = State::new();
                self.write_state(&st);
                proof {
                    lemma_deep_of_records(st);
                }
                Ok(st)
            },
            FsNode::File(content) => {
                match ron::decode_ron_state(content.as_str()) {
                    Ok((users, posts)) => {
                        let st = State::new_with(
                            Relation::new_with_records(users),
                            Relation::new_with_records(posts),
                        );
                        proof {
                            lemma_deep_of_records(st);
                        }
                        Ok(st)
                    },
                    Err(e) => Err(e),
                }
            },
        }
    }

    /// Rewrites the storage image with the encoding of the whole state.
    pub fn write_state(&mut self, state: &State)
        ensures
            final(self)@.file_path == old(self)@.file_path,
            final(self)@.pretty == old(self)@.pretty,
            final(self)@.target == FsNodeV::File(
                ron::ron_state(
                    deep_users(state.spec_users()@),
                    deep_posts(state.spec_posts()@),
                    old(self)@.pretty,
                ),
            ),
    {
        let text = ron::encode_ron_state(
            state.users().records(),
            state.posts().records(),
            self.pretty,
        );
        proof {
            lemma_deep_of_records(*state);
        }
        self.target = FsNode::File(text);
    }
}

/// A partitioned adapter: one RON file per relation, inside one directory.
#[derive(Debug)]
pub struct RonPartitionedAdapter {
    dir_path: String,
    pretty: bool,
    dir: DirTarget,
}

/// The mathematical value of a [`RonPartitionedAdapter`].
pub ghost struct RonPartitionedAdapterV {
    pub dir_path: Seq<char>,
    pub pretty: bool,
    pub dir: DirTargetV,
}

impl View for RonPartitionedAdapter {
    type V = RonPartitionedAdapterV;

    closed spec fn view(&self) -> RonPartitionedAdapterV {
        RonPartitionedAdapterV {
            dir_path: self.dir_path@,
            pretty: self.pretty,
            dir: self.dir@,
        }
    }
}

impl RonPartitionedAdapter {
    /// Creates an adapter for the given directory path; the storage image
    /// starts out absent until the host supplies it.
    pub fn new(dir_path: &str, pretty: bool) -> (r: Self)
        ensures
            r@ == (RonPartitionedAdapterV {
                dir_path: dir_path@,
                pretty,
                dir: DirTargetV::Absent,
            }),
    {
        RonPartitionedAdapter {
            dir_path: String::from_str(dir_path),
            pretty,
            dir: DirTarget::Absent,
        }
    }

    /// Supplies what currently sits at the adapter's directory path.
    pub fn with_dir(self, dir: DirTarget) -> (r: Self)
        ensures
            r@ == (RonPartitionedAdapterV { dir: dir@, ..self@ }),
    {
        RonPartitionedAdapter { dir, ..self }
    }

    /// The current storage image, for the host to persist.
    pub fn dir(&self) -> (r: &DirTarget)
        ensures
            r@ == self@.dir,
    {
        &self.dir
    }

    /// The path this adapter stands for.
    pub fn dir_path(&self) -> (r: &str)
        ensures
            r@ == self@.dir_path,
    {
        self.dir_path.as_str()
    }

    /// Loads the whole state, exactly as the partitioned JSON adapter
    /// does, with RON relation files.
    pub fn load_state(&mut self) -> (r: Result<State, JoydbError>)
        ensures
            final(self)@.dir_path == old(self)@.dir_path,
            final(self)@.pretty == old(self)@.pretty,
            match old(self)@.dir {
                DirTargetV::NotADirectory => {
                    &&& *final(self) == *old(self)
                    &&& r matches Err(JoydbError::NotDirectory(p)) && p@ == old(self)@.dir_path
                },
                _ => {
                    let files = match old(self)@.dir {
                        DirTargetV::Present(files) => files,
                        _ => RelationFilesV { users: FsNodeV::Absent, posts: FsNodeV::Absent },
                    };
                    match spec_load_ron_users(files.users, old(self)@.pretty) {
                        RelLoadV::NotAFile => {
                            &&& final(self)@.dir == DirTargetV::Present(files)
                            &&& r matches Err(JoydbError::NotFile(p)) && p@ == old(
                                self,
                            )@.dir_path + "/User.ron"@
                        },
                        RelLoadV::Corrupt => {
                            &&& final(self)@.dir == DirTargetV::Present(files)
                            &&& r matches Err(JoydbError::Deserialize(_))
                        },
                        RelLoadV::Loaded(fu, us) => match spec_load_ron_posts(
                            files.posts,
                            old(self)@.pretty,
                        ) {
                            RelLoadV::NotAFile => {
                                &&& final(self)@.dir == DirTargetV::Present(
                                    RelationFilesV { users: fu, ..files },
                                )
                                &&& r matches Err(JoydbError::NotFile(p)) && p@ == old(
                                    self,
                                )@.dir_path + "/Post.ron"@
                            },
                            RelLoadV::Corrupt => {
                                &&& final(self)@.dir == DirTargetV::Present(
                                    RelationFilesV { users: fu, ..files },
                                )
                                &&& r matches Err(JoydbError::Deserialize(_))
                            },
                            RelLoadV::Loaded(fp, ps) => {
                                &&& final(self)@.dir == DirTargetV::Present(
                                    RelationFilesV { users: fu, posts: fp },
                                )
                                &&& r matches Ok(st) && deep_users(st.spec_users()@) == us
                                    && deep_posts(st.spec_posts()@) == ps && !st.spec_dirty()
                            },
                        },
                    }
                },
            },
    {
        match &self.dir {
            DirTarget::NotADirectory => {
                return Err(JoydbError::NotDirectory(self.dir_path.clone()));
            },
            DirTarget::Absent => {
                self.dir = DirTarget::Present(
                    RelationFiles { users: FsNode::Absent, posts: FsNode::Absent },
                );
            },
            DirTarget::Present(_) => {},
        }
        let users = match self.load_users_file() {
            Ok(v) => v,
            Err(e) => {
                return Err(e);
            },
        };
        let posts = match self.load_posts_file() {
            Ok(v) => v,
            Err(e) => {
                return Err(e);
            },
        };
        let st = State::new_with(
            Relation::new_with_records(users),
            Relation::new_with_records(posts),
        );
        proof {
            lemma_deep_of_records(st);
        }
        Ok(st)
    }

    /// Loads or lazily initializes the user relation file.
    fn load_users_file(&mut self) -> (r: Result<Vec<User>, JoydbError>)
        requires
            old(self)@.dir is Present,
        ensures
            final(self)@.dir_path == old(self)@.dir_path,
            final(self)@.pretty == old(self)@.pretty,
            ({
                let files = old(self)@.dir->Present_0;
                match spec_load_ron_users(files.users, old(self)@.pretty) {
                    RelLoadV::NotAFile => {
                        &&& *final(self) == *old(self)
                        &&& r matches Err(JoydbError::NotFile(p)) && p@ == old(
                            self,
                        )@.dir_path + "/User.ron"@
                    },
                    RelLoadV::Corrupt => {
                        &&& *final(self) == *old(self)
                        &&& r matches Err(JoydbError::Deserialize(_))
                    },
                    RelLoadV::Loaded(fu, us) => {
                        &&& final(self)@.dir == DirTargetV::Present(
                            RelationFilesV { users: fu, ..files },
                        )
                        &&& r matches Ok(v) && v.deep_view() == us
                    },
                }
            }),
    {
        let pretty = self.pretty;
        match &self.dir {
            DirTarget::Present(files) => match &files.users {
                FsNode::Directory => {
                    let mut p = self.dir_path.clone();
                    p.append("/User.ron");
                    Err(JoydbError::NotFile(p))
                },
                FsNode::File(c) => {
                    match ron::decode_ron_users(c.as_str()) {
                        Ok(v) => Ok(v),
                        Err(e) => Err(e),
                    }
                },
                FsNode::Absent => {
                    let empty: Vec<User> = Vec::new();
                    let text = ron::encode_ron_users(&empty, pretty);
                    let posts_node = match &self.dir {
                        DirTarget::Present(files) => files.posts.clone(),
                        _ => FsNode::Absent,
                    };
                    self.dir = DirTarget::Present(
                        RelationFiles { users: FsNode::File(text), posts: posts_node },
                    );
                    proof {
                        assert(empty.deep_view() =~= Seq::<UserV>::empty());
                    }
                    Ok(empty)
                },
            },
            _ => {
                // Unreachable: the directory is present.
                Err(JoydbError::NotDirectory(self.dir_path.clone()))
            },
        }
    }

    /// Loads or lazily initializes the post relation file.
    fn load_posts_file(&mut self) -> (r: Result<Vec<Post>, JoydbError>)
        requires
            old(self)@.dir is Present,
        ensures
            final(self)@.dir_path == old(self)@.dir_path,
            final(self)@.pretty == old(self)@.pretty,
            ({
                let files = old(self)@.dir->Present_0;
                match spec_load_ron_posts(files.posts, old(self)@.pretty) {
                    RelLoadV::NotAFile => {
                        &&& *final(self) == *old(self)
                        &&& r matches Err(JoydbError::NotFile(p)) && p@ == old(
                            self,
                        )@.dir_path + "/Post.ron"@
                    },
                    RelLoadV::Corrupt => {
                        &&& *final(self) == *old(self)
                        &&& r matches Err(JoydbError::Deserialize(_))
                    },
                    RelLoadV::Loaded(fp, ps) => {
                        &&& final(self)@.dir == DirTargetV::Present(
                            RelationFilesV { posts: fp, ..files },
                        )
                        &&& r matches Ok(v) && v.deep_view() == ps
                    },
                }
            }),
    {
        let pretty = self.pretty;
        match &self.dir {
            DirTarget::Present(files) => match &files.posts {
                FsNode::Directory => {
                    let mut p = self.dir_path.clone();
                    p.append("/Post.ron");
                    Err(JoydbError::NotFile(p))
                },
                FsNode::File(c) => {
                    match ron::decode_ron_posts(c.as_str()) {
                        Ok(v) => Ok(v),
                        Err(e) => Err(e),
                    }
                },
                FsNode::Absent => {
                    let empty: Vec<Post> = Vec::new();
                    let text = ron::encode_ron_posts(&empty, pretty);
                    let users_node = match &self.dir {
                        DirTarget::Present(files) => files.users.clone(),
                        _ => FsNode::Absent,
                    };
                    self.dir = DirTarget::Present(
                        RelationFiles { users: users_node, posts: FsNode::File(text) },
                    );
                    proof {
                        assert(empty.deep_view() =~= Seq::<PostV>::empty());
                    }
                    Ok(empty)
                },
            },
            _ => {
                // Unreachable: the directory is present.
                Err(JoydbError::NotDirectory(self.dir_path.clone()))
            },
        }
    }

    /// Rewrites the relation files of every dirty relation; clean
    /// relations keep their files untouched.
    pub fn write_state(&mut self, state: &State)
        requires
            old(self)@.dir is Present,
        ensures
            final(self)@.dir_path == old(self)@.dir_path,
            final(self)@.pretty == old(self)@.pretty,
            ({
                let files = old(self)@.dir->Present_0;
                final(self)@.dir == DirTargetV::Present(
                    RelationFilesV {
                        users: if state.spec_users().spec_dirty() {
                            FsNodeV::File(
                                ron::ron_users(
                                    deep_users(state.spec_users()@),
                                    old(self)@.pretty,
                                ),
                            )
                        } else {
                            files.users
                        },
                        posts: if state.spec_posts().spec_dirty() {
                            FsNodeV::File(
                                ron::ron_posts(
                                    deep_posts(state.spec_posts()@),
                                    old(self)@.pretty,
                                ),
                            )
                        } else {
                            files.posts
                        },
                    },
                )
            }),
    {
        let pretty = self.pretty;
        proof {
            lemma_deep_of_records(*state);
        }
        let (old_users, old_posts) = match &self.dir {
            DirTarget::Present(files) => (files.users.clone(), files.posts.clone()),
            _ => (FsNode::Absent, FsNode::Absent),
        };
        let users_node = if state.users().is_dirty() {
            FsNode::File(ron::encode_ron_users(state.users().records(), pretty))
        } else {
            old_users
        };
        let posts_node = if state.posts().is_dirty() {
            FsNode::File(ron::encode_ron_posts(state.posts().records(), pretty))
        } else {
            old_posts
        };
        self.dir = DirTarget::Present(RelationFiles { users: users_node, posts: posts_node });
    }
}

impl FromPath for RonAdapter {
    fn from_path(path: &str) -> Self {
        RonAdapter::new(path, true)
    }
}

impl FromPath for RonPartitionedAdapter {
    fn from_path(path: &str) -> Self {
        RonPartitionedAdapter::new(path, true)
    }
}

} // verus!
