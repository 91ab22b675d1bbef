//! The board behind a reader/writer lock: the one door through which
//! concurrent callers reach it. Readers share the board; a writer has it
//! alone. A poisoned lock makes every request fail as unavailable.

use std::sync::{RwLock, RwLockReadGuard, RwLockWriteGuard};
use vstd::prelude::*;
use crate::board::Board;
use crate::fingerprint::{hashable, spec_hash};
use crate::laws::{ascending, lemma_authorized_iff_owner, lemma_list_exact};
use crate::model::MAX_POSTS;
use crate::post::{views, Post, PostView};
use crate::state::{filter_view, PostError};

verus! {

#[verifier::external_type_specification]
#[verifier::external_body]
#[verifier::reject_recursive_types(T)]
pub struct ExRwLock<T: ?Sized>(RwLock<T>);

#[verifier::external_type_specification]
#[verifier::external_body]
#[verifier::reject_recursive_types(T)]
pub struct ExRwLockReadGuard<'a, T: ?Sized>(RwLockReadGuard<'a, T>);

#[verifier::external_type_specification]
#[verifier::external_body]
#[verifier::reject_recursive_types(T)]
pub struct ExRwLockWriteGuard<'a, T: ?Sized + 'a>(RwLockWriteGuard<'a, T>);

/// Calls `RwLock::new`. Nothing is claimed of the lock.
#[verifier::external_body]
fn lock_new(board: Board) -> (lock: RwLock<Board>) {
    RwLock::new(board)
}

/// Calls `RwLock::read`, which waits for shared access, and turns a poisoned
/// lock into `None`. Nothing is claimed of what the guard leads to.
#[verifier::external_body]
fn lock_read<'a>(lock: &'a RwLock<Board>) -> (guard: Option<RwLockReadGuard<'a, Board>>) {
    lock.read().ok()
}

/// Calls `RwLock::write`, which waits for exclusive access, and turns a
/// poisoned lock into `None`. Nothing is claimed of what the guard leads to.
#[verifier::external_body]
fn lock_write<'a>(lock: &'a RwLock<Board>) -> (guard: Option<RwLockWriteGuard<'a, Board>>) {
    lock.write().ok()
}

/// Dereferences a read guard. Nothing is claimed of the board behind it.
#[verifier::external_body]
fn guard_ref<'a, 'b>(guard: &'a RwLockReadGuard<'b, Board>) -> (board: &'a Board) {
    &**guard
}

/// Dereferences a write guard. Nothing is claimed of the board behind it.
#[verifier::external_body]
fn guard_mut<'a, 'b>(guard: &'a mut RwLockWriteGuard<'b, Board>) -> (board: &'a mut Board) {
    &mut **guard
}

/// The board and its lock. Other callers may change the board between two
/// requests, so a request's contract states what holds of its answer
/// whatever the board held; what the answer is for a given board is stated
/// by the operation of `Board` that serves it.
pub struct PostService {
    lock: RwLock<Board>,
}

impl PostService {
    /// A service with an empty board.
    pub fn new() -> (service: PostService) {
        PostService { lock: lock_new(Board::new()) }
    }

    /// Lists the posts under shared access: oldest first, and with a filter
    /// those of that fingerprint only.
    pub fn list(&self, poster_hash: Option<String>) -> (listed: Result<Vec<Post>, PostError>)
        ensures
            match listed {
                Ok(list) => list@.len() <= MAX_POSTS && ascending(views(list@)) && forall|k: int|
                    0 <= k < list@.len() && poster_hash is Some ==> (
                    #[trigger] list@[k])@.hashed_poster == poster_hash->Some_0@,
                Err(e) => e == PostError::Unavailable,
            },
    {
        match lock_read(&self.lock) {
            Some(guard) => {
                let board = guard_ref(&guard);
                let list = board.list(poster_hash);
                proof {
                    lemma_list_exact(board@, filter_view(poster_hash));
                    assert(views(list@).len() == list@.len());
                    if poster_hash is Some {
                        board@.posts.lemma_filter_len(
                            |p: PostView| p.hashed_poster == poster_hash->Some_0@,
                        );
                    }
                    assert forall|k: int|
                        0 <= k < list@.len() && poster_hash is Some implies (
                    #[trigger] list@[k])@.hashed_poster == poster_hash->Some_0@ by {
                        assert(views(list@)[k] == list@[k]@);
                    }
                }
                Ok(list)
            },
            None => Err(PostError::Unavailable),
        }
    }

    /// Looks a post up under shared access.
    pub fn get(&self, post_id: usize) -> (found: Result<Post, PostError>)
        ensures
            match found {
                Ok(post) => post@.id == post_id,
                Err(e) => e == PostError::NotFound || e == PostError::Unavailable,
            },
    {
        match lock_read(&self.lock) {
            Some(guard) => {
                let board = guard_ref(&guard);
                board.get(post_id)
            },
            None => Err(PostError::Unavailable),
        }
    }

    /// Creates a post under exclusive access. The board is unavailable too
    /// once its identifiers are used up: none is ever handed out twice.
    pub fn create(&self, title: String, body: String, poster: String) -> (created: Result<
        Post,
        PostError,
    >)
        requires
            hashable(poster@),
        ensures
            match created {
                Ok(post) => post@.title == title@ && post@.body == body@ && post@.hashed_poster
                    == spec_hash(poster@),
                Err(e) => e == PostError::Unavailable,
            },
    {
        match lock_write(&self.lock) {
            Some(guard) => {
                let mut guard = guard;
                let board = guard_mut(&mut guard);
                board.create(title, body, poster)
            },
            None => Err(PostError::Unavailable),
        }
    }

    /// Replaces the body of a post under exclusive access.
    pub fn update(&self, post_id: usize, body: String, poster: String) -> (updated: Result<
        Post,
        PostError,
    >)
        requires
            hashable(poster@),
        ensures
            match updated {
                Ok(post) => post@.id == post_id && post@.body == body@ && post@.hashed_poster
                    == spec_hash(poster@),
                Err(e) => e == PostError::NotAuthorizedOrNotFound || e == PostError::Unavailable,
            },
    {
        match lock_write(&self.lock) {
            Some(guard) => {
                let mut guard = guard;
                let board = guard_mut(&mut guard);
                let ghost before = board@;
                let updated = board.update(post_id, body, poster);
                proof {
                    lemma_authorized_iff_owner(before, post_id as nat, spec_hash(poster@));
                }
                updated
            },
            None => Err(PostError::Unavailable),
        }
    }

    /// Takes a post off the board under exclusive access.
    pub fn delete(&self, post_id: usize, poster: String) -> (deleted: Result<Post, PostError>)
        requires
            hashable(poster@),
        ensures
            match deleted {
                Ok(post) => post@.id == post_id && post@.hashed_poster == spec_hash(poster@),
                Err(e) => e == PostError::NotAuthorizedOrNotFound || e == PostError::Unavailable,
            },
    {
        match lock_write(&self.lock) {
            Some(guard) => {
                let mut guard = guard;
                let board = guard_mut(&mut guard);
                let ghost before = board@;
                let deleted = board.delete(post_id, poster);
                proof {
                    lemma_authorized_iff_owner(before, post_id as nat, spec_hash(poster@));
                }
                deleted
            },
            None => Err(PostError::Unavailable),
        }
    }
}

} // verus!
