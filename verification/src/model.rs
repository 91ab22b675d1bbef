//! The board as a mathematical value, and what each operation does to it.

use vstd::prelude::*;
use crate::post::{PostView, Timestamp};

verus! {

/// The most posts that the board keeps.
pub const MAX_POSTS: usize = 1000;

/// Whether some post in the sequence has the given identifier.
pub open spec fn has_id(posts: Seq<PostView>, id: nat) -> bool {
    exists|i: int| 0 <= i < posts.len() && (#[trigger] posts[i]).id == id
}

/// A place in the sequence at which the given identifier stands.
pub open spec fn index_of(posts: Seq<PostView>, id: nat) -> int {
    choose|i: int| 0 <= i < posts.len() && (#[trigger] posts[i]).id == id
}

/// The board: the next identifier to hand out, the smallest identifier that
/// eviction has not looked at yet, and the posts, oldest first.
pub struct StateView {
    pub id_counter: nat,
    pub id_start: nat,
    pub posts: Seq<PostView>,
}

impl StateView {
    /// At most `MAX_POSTS` posts, in strictly ascending order of identifier,
    /// each identifier at or above the eviction cursor and below the counter.
    pub open spec fn wf(self) -> bool {
        &&& self.id_start <= self.id_counter
        &&& self.posts.len() <= MAX_POSTS
        &&& forall|i: int|
            0 <= i < self.posts.len() ==> self.id_start <= (#[trigger] self.posts[i]).id
                < self.id_counter
        &&& forall|i: int, j: int|
            0 <= i < j < self.posts.len() ==> (#[trigger] self.posts[i]).id
                < (#[trigger] self.posts[j]).id
    }

    /// The board before anything was posted.
    pub open spec fn empty() -> StateView {
        StateView { id_counter: 0, id_start: 0, posts: Seq::empty() }
    }

    /// The post with the given identifier, if the board holds one.
    pub open spec fn get(self, id: nat) -> Option<PostView> {
        if has_id(self.posts, id) {
            Some(self.posts[index_of(self.posts, id)])
        } else {
            None
        }
    }

    /// The posts in order; with a filter, those of that fingerprint only.
    pub open spec fn list(self, filter: Option<Seq<char>>) -> Seq<PostView> {
        match filter {
            Some(f) => self.posts.filter(|p: PostView| p.hashed_poster == f),
            None => self.posts,
        }
    }

    /// The post that the next insertion creates.
    pub open spec fn next_post(
        self,
        title: Seq<char>,
        body: Seq<char>,
        hashed_poster: Seq<char>,
        timestamp: Timestamp,
    ) -> PostView {
        PostView { title, body, hashed_poster, timestamp, id: self.id_counter }
    }

    /// The board after `post` was appended: the counter moves on, and where
    /// the board was full its oldest post leaves and the eviction cursor
    /// stands right behind it.
    pub open spec fn insert(self, post: PostView) -> StateView {
        let pushed = self.posts.push(post);
        if pushed.len() > MAX_POSTS {
            StateView {
                id_counter: self.id_counter + 1,
                id_start: pushed[0].id + 1,
                posts: pushed.drop_first(),
            }
        } else {
            StateView { id_counter: self.id_counter + 1, id_start: self.id_start, posts: pushed }
        }
    }

    /// Whether the board holds a post with this identifier that is bound to
    /// this fingerprint.
    pub open spec fn authorized(self, id: nat, hashed_poster: Seq<char>) -> bool {
        exists|i: int|
            0 <= i < self.posts.len() && (#[trigger] self.posts[i]).id == id
                && self.posts[i].hashed_poster == hashed_poster
    }

    /// The board after the post with this identifier got another body.
    pub open spec fn update_body(self, id: nat, body: Seq<char>) -> StateView {
        let i = index_of(self.posts, id);
        StateView { posts: self.posts.update(i, self.posts[i].with_body(body)), ..self }
    }

    /// The board after the post with this identifier left.
    pub open spec fn remove(self, id: nat) -> StateView {
        StateView { posts: self.posts.remove(index_of(self.posts, id)), ..self }
    }
}

} // verus!
