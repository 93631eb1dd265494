use vstd::prelude::*;

verus! {

/// An identifiable record that can be stored in a relation.
///
/// The store is a closed registry: the registered record types live in this
/// module and the [`crate::state::State`] struct holds one relation per
/// registered type. Identifiers are 128-bit integers, wide enough to carry a
/// UUID; a record's identity for matching is its identifier, not its full
/// value.
pub trait Model: Sized + DeepView {
    /// The record's identifier, as seen by specifications.
    spec fn spec_id(&self) -> u128;

    /// The identifier of a record's deep view.
    spec fn view_id(v: Self::V) -> u128;

    /// The name of the record type, as seen by specifications.
    spec fn spec_model_name() -> Seq<char>;

    /// Returns the record's identifier.
    fn id(&self) -> (r: u128)
        ensures
            r == self.spec_id(),
    ;

    /// The name under which the relation of this record type is registered;
    /// partitioned adapters derive the relation's file name from it.
    fn relation_name() -> (r: &'static str)
        ensures
            r@ == Self::spec_model_name(),
    ;

    /// Returns a copy of the record equal to the original.
    fn clone_record(&self) -> (r: Self)
        ensures
            r == *self,
    ;

    /// A record and its deep view carry the same identifier.
    proof fn lemma_view_id(&self)
        ensures
            Self::view_id(self.deep_view()) == self.spec_id(),
    ;
}

/// A registered record type: a user with a name and an age.
#[derive(Debug, PartialEq, Eq)]
pub struct User {
    pub id: u128,
    pub name: String,
    pub age: u8,
}

/// The mathematical value of a [`User`].
pub ghost struct UserV {
    pub id: u128,
    pub name: Seq<char>,
    pub age: u8,
}

impl DeepView for User {
    type V = UserV;

    open spec fn deep_view(&self) -> UserV {
        UserV { id: self.id, name: self.name@, age: self.age }
    }
}

impl Clone for User {
    fn clone(&self) -> (r: Self)
        ensures
            r == *self,
    {
        User { id: self.id, name: self.name.clone(), age: self.age }
    }
}

impl Model for User {
    open spec fn spec_id(&self) -> u128 {
        self.id
    }

    open spec fn view_id(v: UserV) -> u128 {
        v.id
    }

    open spec fn spec_model_name() -> Seq<char> {
        "User"@
    }

    fn id(&self) -> (r: u128) {
        self.id
    }

    fn relation_name() -> (r: &'static str) {
        "User"
    }

    fn clone_record(&self) -> (r: Self) {
        self.clone()
    }

    proof fn lemma_view_id(&self) {
    }
}

/// A registered record type: a post with a title.
#[derive(Debug, PartialEq, Eq)]
pub struct Post {
    pub id: u128,
    pub title: String,
}

/// The mathematical value of a [`Post`].
pub ghost struct PostV {
    pub id: u128,
    pub title: Seq<char>,
}

impl DeepView for Post {
    type V = PostV;

    open spec fn deep_view(&self) -> PostV {
        PostV { id: self.id, title: self.title@ }
    }
}

impl Clone for Post {
    fn clone(&self) -> (r: Self)
        ensures
            r == *self,
    {
        Post { id: self.id, title: self.title.clone() }
    }
}

impl Model for Post {
    open spec fn spec_id(&self) -> u128 {
        self.id
    }

    open spec fn view_id(v: PostV) -> u128 {
        v.id
    }

    open spec fn spec_model_name() -> Seq<char> {
        "Post"@
    }

    fn id(&self) -> (r: u128) {
        self.id
    }

    fn relation_name() -> (r: &'static str) {
        "Post"
    }

    fn clone_record(&self) -> (r: Self) {
        self.clone()
    }

    proof fn lemma_view_id(&self) {
    }
}

} // verus!
