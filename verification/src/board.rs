//! The board with its invariant sealed in the type.

use vstd::prelude::*;
use crate::fingerprint::{hashable, spec_hash};
use crate::model::StateView;
use crate::post::{views, Post};
use crate::state::{filter_view, PostError, State};

verus! {

/// The board with its invariant sealed in: every operation can be called on
/// every board, and this is what the lock holds.
pub struct Board {
    state: State,
}

impl View for Board {
    type V = StateView;

    closed spec fn view(&self) -> StateView {
        self.state@
    }
}

impl Board {
    #[verifier::type_invariant]
    spec fn sound(self) -> bool {
        self.state.wf()
    }

    /// Takes the state out for a change and leaves an empty one in its place.
    fn open(&mut self) -> (state: State)
        ensures
            state.wf(),
            state@ == old(self)@,
    {
        let mut held = Board { state: State::new() };
        core::mem::swap(self, &mut held);
        proof {
            use_type_invariant(&held);
        }
        held.state
    }

    /// Puts the state back once the change is made.
    fn close(&mut self, state: State)
        requires
            state.wf(),
        ensures
            final(self)@ == state@,
    {
        *self = Board { state };
    }

    /// An empty board whose first post will get the identifier 0.
    pub fn new() -> (board: Board)
        ensures
            board@ == StateView::empty(),
    {
        Board { state: State::new() }
    }

    /// Lists the posts, oldest first; with a filter, those bound to that
    /// fingerprint only.
    pub fn list(&self, poster_hash: Option<String>) -> (list: Vec<Post>)
        ensures
            self@.wf(),
            views(list@) == self@.list(filter_view(poster_hash)),
    {
        proof {
            use_type_invariant(self);
        }
        self.state.get_posts(poster_hash)
    }

    /// Looks a post up by its identifier.
    pub fn get(&self, post_id: usize) -> (found: Result<Post, PostError>)
        ensures
            self@.wf(),
            match found {
                Ok(post) => self@.get(post_id as nat) == Some(post@),
                Err(e) => e == PostError::NotFound && self@.get(post_id as nat).is_none(),
            },
    {
        proof {
            use_type_invariant(self);
        }
        self.state.get_post(post_id)
    }

    /// Appends a post stamped with the current time and evicts the oldest
    /// post where the board was full. Once the identifiers are used up the
    /// board takes no more posts: none is ever handed out twice.
    pub fn create(&mut self, title: String, body: String, poster: String) -> (created: Result<
        Post,
        PostError,
    >)
        requires
            hashable(poster@),
        ensures
            old(self)@.wf(),
            final(self)@.wf(),
            created is Ok <==> old(self)@.id_counter < usize::MAX,
            match created {
                Ok(post) => post@ == old(self)@.next_post(
                    title@,
                    body@,
                    spec_hash(poster@),
                    post@.timestamp,
                ) && final(self)@ == old(self)@.insert(post@),
                Err(e) => e == PostError::Unavailable && final(self)@ == old(self)@,
            },
    {
        let mut state = self.open();
        let created = if state.id_counter() < usize::MAX {
            Ok(state.create_post(title, body, poster))
        } else {
            Err(PostError::Unavailable)
        };
        self.close(state);
        created
    }

    /// Replaces the body of a post, for the holder of its author's secret.
    pub fn update(&mut self, post_id: usize, body: String, poster: String) -> (updated: Result<
        Post,
        PostError,
    >)
        requires
            hashable(poster@),
        ensures
            old(self)@.wf(),
            final(self)@.wf(),
            updated is Ok <==> old(self)@.authorized(post_id as nat, spec_hash(poster@)),
            match updated {
                Ok(post) => final(self)@ == old(self)@.update_body(post_id as nat, body@)
                    && old(self)@.get(post_id as nat) is Some
                    && post@ == old(self)@.get(post_id as nat)->Some_0.with_body(body@),
                Err(e) => e == PostError::NotAuthorizedOrNotFound && final(self)@ == old(self)@,
            },
    {
        let mut state = self.open();
        let updated = state.update_post(post_id, body, poster);
        self.close(state);
        updated
    }

    /// Takes a post off the board, for the holder of its author's secret.
    pub fn delete(&mut self, post_id: usize, poster: String) -> (deleted: Result<Post, PostError>)
        requires
            hashable(poster@),
        ensures
            old(self)@.wf(),
            final(self)@.wf(),
            deleted is Ok <==> old(self)@.authorized(post_id as nat, spec_hash(poster@)),
            match deleted {
                Ok(post) => final(self)@ == old(self)@.remove(post_id as nat) && old(self)@.get(
                    post_id as nat,
                ) == Some(post@),
                Err(e) => e == PostError::NotAuthorizedOrNotFound && final(self)@ == old(self)@,
            },
    {
        let mut state = self.open();
        let deleted = state.delete_post(post_id, poster);
        self.close(state);
        deleted
    }
}

} // verus!
