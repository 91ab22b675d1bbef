//! The board itself: posts in an insertion-ordered map, the identifier
//! counter and the eviction cursor.

use linked_hash_map::LinkedHashMap;
use vstd::prelude::*;
use crate::fingerprint::{hash, hashable, spec_hash};
use crate::model::{has_id, index_of, StateView, MAX_POSTS};
use crate::ordered_map::{
    entries, has_key, map_get, map_get_mut, map_insert, map_len, map_new, map_remove, map_values,
};
use crate::post::{views, Post, PostView, Timestamp};

verus! {

/// Why a request was turned down.
#[derive(Clone, Copy, Debug, PartialEq, Eq, Structural)]
pub enum PostError {
    /// No post has the identifier that was asked for.
    NotFound,
    /// No post has the identifier, or the secret is not its author's: the
    /// two are not told apart.
    NotAuthorizedOrNotFound,
    /// The board cannot be used: the lock that guards it is poisoned, or
    /// its identifiers are used up.
    Unavailable,
}

/// The board.
pub struct State {
    id_counter: usize,
    posts: LinkedHashMap<usize, Post>,
    id_start: usize,
}

/// A filter as a character sequence.
pub open spec fn filter_view(poster_hash: Option<String>) -> Option<Seq<char>> {
    match poster_hash {
        Some(f) => Some(f@),
        None => None,
    }
}

/// The posts of a sequence of entries, without their keys.
pub open spec fn posts_of(e: Seq<(usize, PostView)>) -> Seq<PostView> {
    e.map_values(|entry: (usize, PostView)| entry.1)
}

impl View for State {
    type V = StateView;

    closed spec fn view(&self) -> StateView {
        StateView {
            id_counter: self.id_counter as nat,
            id_start: self.id_start as nat,
            posts: posts_of(entries(self.posts)),
        }
    }
}

/// Reads the clock through `chrono::Utc::now` and takes the seconds and
/// nanoseconds out. Nothing is claimed of the time that comes back. `chrono`
/// panics where the system clock stands before the Unix epoch.
#[verifier::external_body]
fn clock_now() -> (now: Timestamp) {
    let now = chrono::Utc::now();
    Timestamp { secs: now.timestamp(), nanos: now.timestamp_subsec_nanos() }
}

impl State {
    /// Every key is the identifier of the post that it leads to.
    pub closed spec fn keyed(&self) -> bool {
        forall|i: int|
            0 <= i < entries(self.posts).len() ==> (#[trigger] entries(self.posts)[i]).0 as nat
                == entries(self.posts)[i].1.id
    }

    /// The board's invariant.
    pub open spec fn wf(&self) -> bool {
        self@.wf() && self.keyed()
    }

    /// An empty board whose first post will get the identifier 0.
    pub fn new() -> (state: State)
        ensures
            state.wf(),
            state@ == StateView::empty(),
    {
        let state = State { id_counter: 0, posts: map_new(), id_start: 0 };
        assert(state@.posts =~= Seq::<PostView>::empty());
        state
    }

    /// The identifier that the next post will get.
    pub fn id_counter(&self) -> (n: usize)
        ensures
            n == self@.id_counter,
    {
        self.id_counter
    }

    /// The smallest identifier that eviction has not looked at yet.
    pub fn id_start(&self) -> (n: usize)
        ensures
            n == self@.id_start,
    {
        self.id_start
    }

    /// The number of posts on the board.
    pub fn len(&self) -> (n: usize)
        ensures
            n == self@.posts.len(),
    {
        map_len(&self.posts)
    }

    /// Appends a post that was written at `timestamp` and evicts the oldest
    /// post where the board was full.
    pub fn create_post_at(
        &mut self,
        title: String,
        body: String,
        poster: String,
        timestamp: Timestamp,
    ) -> (post: Post)
        requires
            old(self).wf(),
            old(self)@.id_counter < usize::MAX,
            hashable(poster@),
        ensures
            final(self).wf(),
            post@ == old(self)@.next_post(title@, body@, spec_hash(poster@), timestamp),
            final(self)@ == old(self)@.insert(post@),
    {
        let ghost before = entries(self.posts);
        let ghost start = self.id_start;
        let id = self.id_counter;
        self.id_counter += 1;
        let post = Post { id, title, body, hashed_poster: hash(poster), timestamp };
        map_insert(&mut self.posts, id, post.clone());
        let ghost pushed = entries(self.posts);
        proof {
            assert(forall|i: int|
                0 <= i < before.len() ==> (#[trigger] before[i]).0 as nat == posts_of(
                    before,
                )[i].id);
            assert(!has_key(before, id)) by {
                if has_key(before, id) {
                    let i = choose|i: int|
                        0 <= i < before.len() && (#[trigger] before[i]).0 == id;
                    assert(posts_of(before)[i].id < id);
                }
            }
            assert(pushed == before.push((id, post@)));
            assert(posts_of(pushed) =~= posts_of(before).push(post@));
        }
        while map_len(&self.posts) > MAX_POSTS
            invariant
                self.id_counter == id + 1,
                pushed == before.push((id, post@)),
                pushed.len() <= MAX_POSTS + 1,
                forall|i: int|
                    0 <= i < pushed.len() ==> (#[trigger] pushed[i]).0 as nat == pushed[i].1.id,
                forall|i: int, j: int|
                    0 <= i < j < pushed.len() ==> (#[trigger] pushed[i]).0 < (
                    #[trigger] pushed[j]).0,
                pushed.len() <= MAX_POSTS ==> self.id_start == start,
                (entries(self.posts) == pushed && start <= self.id_start <= pushed[0].0) || (
                pushed.len() == MAX_POSTS + 1 && entries(self.posts) == pushed.drop_first()
                    && self.id_start == pushed[0].0 + 1),
                forall|i: int| 0 <= i < pushed.len() ==> (#[trigger] pushed[i]).0 <= id,
                self.id_start <= self.id_counter,
            decreases self.id_counter - self.id_start,
        {
            let id_start = self.id_start;
            let gone = map_remove(&mut self.posts, id_start);
            proof {
                assert(pushed.drop_first().len() == pushed.len() - 1);
                if id_start < pushed[0].0 {
                    if gone is Some {
                        let i = choose|i: int|
                            0 <= i < pushed.len() && (#[trigger] pushed[i]).0 == id_start;
                        assert(pushed[0].0 <= pushed[i].0);
                    }
                } else {
                    assert(pushed[0].0 == id_start);
                    let p = gone->Some_0;
                    let i = choose|i: int|
                        0 <= i < pushed.len() && #[trigger] pushed[i] == (id_start, p@) && entries(
                            self.posts,
                        ) == pushed.remove(i);
                    assert(i == 0) by {
                        if i > 0 {
                            assert(pushed[0].0 < pushed[i].0);
                        }
                    }
                    assert(pushed.remove(0) =~= pushed.drop_first());
                }
            }
            self.id_start += 1;
        }
        proof {
            if pushed.len() > MAX_POSTS {
                assert(posts_of(pushed.drop_first()) =~= posts_of(pushed).drop_first());
                assert(forall|i: int|
                    0 <= i < pushed.drop_first().len() ==> (#[trigger] pushed.drop_first()[i])
                        == pushed[i + 1]);
            }
        }
        post
    }

    /// Appends a post stamped with the current time; see `create_post_at`.
    pub fn create_post(&mut self, title: String, body: String, poster: String) -> (post: Post)
        requires
            old(self).wf(),
            old(self)@.id_counter < usize::MAX,
            hashable(poster@),
        ensures
            final(self).wf(),
            post@ == old(self)@.next_post(title@, body@, spec_hash(poster@), post@.timestamp),
            final(self)@ == old(self)@.insert(post@),
    {
        let now = clock_now();
        self.create_post_at(title, body, poster, now)
    }

    /// Looks a post up by its identifier.
    pub fn get_post(&self, post_id: usize) -> (found: Result<Post, PostError>)
        requires
            self.wf(),
        ensures
            match found {
                Ok(post) => self@.get(post_id as nat) == Some(post@),
                Err(e) => e == PostError::NotFound && self@.get(post_id as nat).is_none(),
            },
    {
        proof {
            self.lemma_keys(post_id);
        }
        match map_get(&self.posts, post_id) {
            Some(post) => {
                proof {
                    let e = entries(self.posts);
                    let i = choose|i: int| 0 <= i < e.len() && #[trigger] e[i] == (post_id, post@);
                    self.lemma_index(post_id, i);
                }
                Ok(post.clone())
            },
            None => Err(PostError::NotFound),
        }
    }

    /// Lists the posts, oldest first; with a filter, those bound to that
    /// fingerprint only.
    pub fn get_posts(&self, poster_hash: Option<String>) -> (list: Vec<Post>)
        requires
            self.wf(),
        ensures
            views(list@) == self@.list(filter_view(poster_hash)),
    {
        let all = map_values(&self.posts);
        let ghost posts = self@.posts;
        let ghost wanted = |p: PostView|
            match poster_hash {
                Some(f) => p.hashed_poster == f@,
                None => true,
            };
        let mut list: Vec<Post> = Vec::new();
        let mut i: usize = 0;
        proof {
            assert(posts.take(0) =~= Seq::<PostView>::empty());
            assert(list@.map_values(|p: Post| p@) =~= Seq::<PostView>::empty());
        }
        while i < all.len()
            invariant
                i <= all.len(),
                all@.len() == posts.len(),
                posts == posts_of(entries(self.posts)),
                forall|k: int| 0 <= k < all@.len() ==> (#[trigger] all@[k])@ == posts[k],
                list@.map_values(|p: Post| p@) == posts.take(i as int).filter(wanted),
                wanted == |p: PostView|
                    match poster_hash {
                        Some(f) => p.hashed_poster == f@,
                        None => true,
                    },
            decreases all.len() - i,
        {
            let post = all[i];
            let keep = match &poster_hash {
                Some(f) => post.hashed_poster == *f,
                None => true,
            };
            proof {
                assert(posts.take(i + 1).drop_last() =~= posts.take(i as int));
                assert(posts.take(i + 1).last() == posts[i as int]);
                reveal(Seq::filter);
                assert(keep == wanted(posts[i as int]));
            }
            let ghost shown = list@.map_values(|p: Post| p@);
            if keep {
                let copy = post.clone();
                list.push(copy);
                assert(list@.map_values(|p: Post| p@) =~= shown.push(copy@));
            }
            i += 1;
        }
        proof {
            assert(posts.take(i as int) =~= posts);
            match poster_hash {
                Some(f) => {
                    assert(wanted == |p: PostView| p.hashed_poster == f@) by {
                        assert(forall|p: PostView| #[trigger] wanted(p) == (p.hashed_poster == f@));
                        assert(wanted =~= (|p: PostView| p.hashed_poster == f@));
                    }
                },
                None => {
                    lemma_filter_all(posts, wanted);
                },
            }
        }
        list
    }

    /// Replaces the body of a post, for the holder of its author's secret.
    pub fn update_post(&mut self, post_id: usize, body: String, poster: String) -> (updated: Result<
        Post,
        PostError,
    >)
        requires
            old(self).wf(),
            hashable(poster@),
        ensures
            final(self).wf(),
            updated is Ok <==> old(self)@.authorized(post_id as nat, spec_hash(poster@)),
            match updated {
                Ok(post) => final(self)@ == old(self)@.update_body(post_id as nat, body@)
                    && old(self)@.get(post_id as nat) is Some
                    && post@ == old(self)@.get(post_id as nat)->Some_0.with_body(body@),
                Err(e) => e == PostError::NotAuthorizedOrNotFound && final(self)@ == old(self)@,
            },
    {
        let ghost e = entries(self.posts);
        proof {
            self.lemma_keys(post_id);
        }
        match map_get_mut(&mut self.posts, post_id) {
            Some(post) => {
                let ghost i = choose|i: int|
                    0 <= i < e.len() && #[trigger] e[i] == (post_id, (*post)@);
                proof {
                    old(self).lemma_index(post_id, i);
                }
                if post.hashed_poster == hash(poster) {
                    post.body = body;
                    let copy = post.clone();
                    proof {
                        assert(posts_of(e.update(i, (post_id, copy@))) =~= posts_of(e).update(
                            i,
                            copy@,
                        ));
                    }
                    Ok(copy)
                } else {
                    proof {
                        assert(e.update(i, e[i]) =~= e);
                    }
                    Err(PostError::NotAuthorizedOrNotFound)
                }
            },
            None => Err(PostError::NotAuthorizedOrNotFound),
        }
    }

    /// Takes a post off the board, for the holder of its author's secret.
    pub fn delete_post(&mut self, post_id: usize, poster: String) -> (deleted: Result<
        Post,
        PostError,
    >)
        requires
            old(self).wf(),
            hashable(poster@),
        ensures
            final(self).wf(),
            deleted is Ok <==> old(self)@.authorized(post_id as nat, spec_hash(poster@)),
            match deleted {
                Ok(post) => final(self)@ == old(self)@.remove(post_id as nat) && old(self)@.get(
                    post_id as nat,
                ) == Some(post@),
                Err(e) => e == PostError::NotAuthorizedOrNotFound && final(self)@ == old(self)@,
            },
    {
        let ghost e = entries(self.posts);
        proof {
            self.lemma_keys(post_id);
        }
        let owned = match map_get(&self.posts, post_id) {
            Some(post) => {
                proof {
                    let i = choose|i: int| 0 <= i < e.len() && #[trigger] e[i] == (post_id, post@);
                    self.lemma_index(post_id, i);
                }
                post.hashed_poster == hash(poster)
            },
            None => false,
        };
        if owned {
            match map_remove(&mut self.posts, post_id) {
                Some(post) => {
                    proof {
                        let i = choose|i: int|
                            0 <= i < e.len() && #[trigger] e[i] == (post_id, post@) && entries(
                                self.posts,
                            ) == e.remove(i);
                        old(self).lemma_index(post_id, i);
                        assert(posts_of(e.remove(i)) =~= posts_of(e).remove(i));
                    }
                    Ok(post)
                },
                None => Err(PostError::NotAuthorizedOrNotFound),
            }
        } else {
            Err(PostError::NotAuthorizedOrNotFound)
        }
    }

    /// A key is in the map exactly if a post has it as its identifier.
    proof fn lemma_keys(&self, key: usize)
        requires
            self.wf(),
        ensures
            has_key(entries(self.posts), key) == has_id(self@.posts, key as nat),
    {
        let e = entries(self.posts);
        if has_key(e, key) {
            let i = choose|i: int| 0 <= i < e.len() && (#[trigger] e[i]).0 == key;
            assert(self@.posts[i].id == key as nat);
        }
        if has_id(self@.posts, key as nat) {
            let i = choose|i: int| 0 <= i < e.len() && (#[trigger] self@.posts[i]).id == key as nat;
            assert(e[i].0 == key);
        }
    }

    /// The place at which a key stands is the one place of its identifier.
    proof fn lemma_index(&self, key: usize, i: int)
        requires
            self.wf(),
            0 <= i < entries(self.posts).len(),
            entries(self.posts)[i].0 == key,
        ensures
            has_id(self@.posts, key as nat),
            index_of(self@.posts, key as nat) == i,
            self@.posts[i] == entries(self.posts)[i].1,
            forall|j: int|
                0 <= j < self@.posts.len() && (#[trigger] self@.posts[j]).id == key as nat ==> j
                    == i,
            forall|j: int|
                0 <= j < entries(self.posts).len() && (#[trigger] entries(self.posts)[j]).0 == key
                    ==> j == i,
    {
        let posts = self@.posts;
        assert forall|j: int|
            0 <= j < entries(self.posts).len() && (#[trigger] entries(self.posts)[j]).0
                == key implies j == i by {
            assert(posts[j].id == key as nat);
            if j < i {
                assert(posts[j].id < posts[i].id);
            }
            if i < j {
                assert(posts[i].id < posts[j].id);
            }
        }
        assert(posts[i].id == key as nat);
        assert forall|j: int|
            0 <= j < posts.len() && (#[trigger] posts[j]).id == key as nat implies j == i by {
            if j < i {
                assert(posts[j].id < posts[i].id);
            }
            if i < j {
                assert(posts[i].id < posts[j].id);
            }
        }
    }
}

/// A filter that every element passes changes nothing.
proof fn lemma_filter_all(s: Seq<PostView>, pred: spec_fn(PostView) -> bool)
    requires
        forall|p: PostView| #[trigger] pred(p),
    ensures
        s.filter(pred) == s,
    decreases s.len(),
{
    reveal(Seq::filter);
    if s.len() > 0 {
        lemma_filter_all(s.drop_last(), pred);
        assert(s.drop_last().push(s.last()) =~= s);
    }
}

} // verus!
