//! Rows of a small blogging schema: users write posts, and posts carry tags
//! through a join table. The `New*` forms are rows before the store gives
//! them an id.
use vstd::prelude::*;

verus! {

#[derive(Clone, Debug)]
pub struct Post {
    pub id: i32,
    pub title: String,
    pub user_id: i32,
}

#[derive(Clone, Debug)]
pub struct NewPost {
    pub title: String,
    pub user_id: i32,
}

#[derive(Clone, Debug)]
pub struct Tag {
    pub id: i32,
    pub label: String,
}

#[derive(Clone, Debug)]
pub struct NewTag {
    pub label: String,
}

#[derive(Clone, Copy, Debug, PartialEq, Eq, Structural)]
pub struct PostTag {
    pub id: i32,
    pub post_id: i32,
    pub tag_id: i32,
}

#[derive(Clone, Copy, Debug, PartialEq, Eq, Structural)]
pub struct NewPostTag {
    pub post_id: i32,
    pub tag_id: i32,
}

} // verus!
