//! Posts and their mathematical view.

use vstd::prelude::*;

verus! {

/// A point in time: whole seconds since the Unix epoch and the nanoseconds
/// into that second.
#[derive(Clone, Copy, Debug, PartialEq, Eq, Structural)]
pub struct Timestamp {
    pub secs: i64,
    pub nanos: u32,
}

/// A post as the board stores it and hands it out.
#[derive(Debug, PartialEq, Eq)]
pub struct Post {
    pub title: String,
    pub body: String,
    pub hashed_poster: String,
    pub timestamp: Timestamp,
    pub id: usize,
}

/// What a post is: its texts as character sequences, its identifier as a
/// natural number.
pub struct PostView {
    pub title: Seq<char>,
    pub body: Seq<char>,
    pub hashed_poster: Seq<char>,
    pub timestamp: Timestamp,
    pub id: nat,
}

impl PostView {
    /// The same post with another body.
    pub open spec fn with_body(self, body: Seq<char>) -> PostView {
        PostView { body, ..self }
    }
}

impl View for Post {
    type V = PostView;

    open spec fn view(&self) -> PostView {
        PostView {
            title: self.title@,
            body: self.body@,
            hashed_poster: self.hashed_poster@,
            timestamp: self.timestamp,
            id: self.id as nat,
        }
    }
}

/// The views of a list of posts.
pub open spec fn views(list: Seq<Post>) -> Seq<PostView> {
    list.map_values(|p: Post| p@)
}

impl Clone for Post {
    fn clone(&self) -> (out: Self)
        ensures
            out@ == self@,
    {
        Post {
            title: self.title.clone(),
            body: self.body.clone(),
            hashed_poster: self.hashed_poster.clone(),
            timestamp: self.timestamp,
            id: self.id,
        }
    }
}

} // verus!
