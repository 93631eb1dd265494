//! The state: the aggregate of all relations of one store instance, with
//! the aggregate dirty flag.

use vstd::prelude::*;

use crate::model::{Post, PostV, User, UserV};
use crate::relation::Relation;

verus! {

/// The deep views of a sequence of user records.
pub open spec fn deep_users(s: Seq<User>) -> Seq<UserV> {
    Seq::new(s.len(), |i: int| s[i].deep_view())
}

/// The deep views of a sequence of post records.
pub open spec fn deep_posts(s: Seq<Post>) -> Seq<PostV> {
    Seq::new(s.len(), |i: int| s[i].deep_view())
}

/// The fixed, closed registry of relations: one per registered record
/// type. The aggregate dirty flag is the disjunction of the members'.
#[derive(Debug)]
pub struct State {
    users: Relation<User>,
    posts: Relation<Post>,
}

impl State {
    /// The user relation, as seen by specifications.
    pub closed spec fn spec_users(self) -> Relation<User> {
        self.users
    }

    /// The post relation, as seen by specifications.
    pub closed spec fn spec_posts(self) -> Relation<Post> {
        self.posts
    }

    /// Whether any member relation holds unsaved mutations.
    pub open spec fn spec_dirty(self) -> bool {
        self.spec_users().spec_dirty() || self.spec_posts().spec_dirty()
    }

    /// The state with the user relation replaced.
    pub closed spec fn spec_with_users(self, r: Relation<User>) -> State {
        State { users: r, ..self }
    }

    /// The state with the post relation replaced.
    pub closed spec fn spec_with_posts(self, r: Relation<Post>) -> State {
        State { posts: r, ..self }
    }

    /// Replacing one relation keeps the other and drops any earlier
    /// replacement of the same one.
    pub proof fn lemma_with(self, ru: Relation<User>, rp: Relation<Post>)
        ensures
            self.spec_with_users(ru).spec_users() == ru,
            self.spec_with_users(ru).spec_posts() == self.spec_posts(),
            self.spec_with_posts(rp).spec_posts() == rp,
            self.spec_with_posts(rp).spec_users() == self.spec_users(),
            forall|a: Relation<User>|
                (#[trigger] self.spec_with_users(a)).spec_with_users(ru) == self.spec_with_users(
                    ru,
                ),
            forall|a: Relation<Post>|
                (#[trigger] self.spec_with_posts(a)).spec_with_posts(rp) == self.spec_with_posts(
                    rp,
                ),
    {
    }

    /// Creates a state whose every relation is empty and clean.
    pub fn new() -> (r: Self)
        ensures
            r.spec_users()@ == Seq::<User>::empty(),
            r.spec_posts()@ == Seq::<Post>::empty(),
            !r.spec_users().spec_dirty(),
            !r.spec_posts().spec_dirty(),
    {
        State { users: Relation::new(), posts: Relation::new() }
    }

    /// Assembles a state from loaded relations.
    pub fn new_with(users: Relation<User>, posts: Relation<Post>) -> (r: Self)
        ensures
            r.spec_users() == users,
            r.spec_posts() == posts,
    {
        State { users, posts }
    }

    /// Whether any member relation holds unsaved mutations.
    pub fn is_dirty(&self) -> (r: bool)
        ensures
            r == self.spec_dirty(),
    {
        self.users.is_dirty() || self.posts.is_dirty()
    }

    /// Clears every member relation's dirty flag; invoked only after a
    /// fully successful flush.
    pub fn reset_dirty(&mut self)
        ensures
            final(self).spec_users()@ == old(self).spec_users()@,
            final(self).spec_posts()@ == old(self).spec_posts()@,
            !final(self).spec_users().spec_dirty(),
            !final(self).spec_posts().spec_dirty(),
    {
        self.users.reset_dirty();
        self.posts.reset_dirty();
    }

    /// The user relation.
    pub fn users(&self) -> (r: &Relation<User>)
        ensures
            *r == self.spec_users(),
    {
        &self.users
    }

    /// The post relation.
    pub fn posts(&self) -> (r: &Relation<Post>)
        ensures
            *r == self.spec_posts(),
    {
        &self.posts
    }

    /// Exchanges the user relation with the caller's.
    pub fn swap_users(&mut self, x: &mut Relation<User>)
        ensures
            *final(x) == old(self).spec_users(),
            *final(self) == old(self).spec_with_users(*old(x)),
    {
        core::mem::swap(&mut self.users, x);
    }

    /// Exchanges the post relation with the caller's.
    pub fn swap_posts(&mut self, x: &mut Relation<Post>)
        ensures
            *final(x) == old(self).spec_posts(),
            *final(self) == old(self).spec_with_posts(*old(x)),
    {
        core::mem::swap(&mut self.posts, x);
    }
}

} // verus!
