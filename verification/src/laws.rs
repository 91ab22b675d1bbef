//! What holds of the board whatever is asked of it, proved over its model.

use vstd::prelude::*;
use crate::model::{has_id, index_of, StateView, MAX_POSTS};
use crate::post::{PostView, Timestamp};

verus! {

/// A request that may change the board. Each carries the fingerprint of the
/// secret that came with it.
pub enum Request {
    Create { title: Seq<char>, body: Seq<char>, hashed_poster: Seq<char>, timestamp: Timestamp },
    Update { id: nat, body: Seq<char>, hashed_poster: Seq<char> },
    Delete { id: nat, hashed_poster: Seq<char> },
}

/// The board after one request: an update or a deletion that is not
/// authorized leaves it as it is.
pub open spec fn step(s: StateView, r: Request) -> StateView {
    match r {
        Request::Create { title, body, hashed_poster, timestamp } => s.insert(
            s.next_post(title, body, hashed_poster, timestamp),
        ),
        Request::Update { id, body, hashed_poster } => if s.authorized(id, hashed_poster) {
            s.update_body(id, body)
        } else {
            s
        },
        Request::Delete { id, hashed_poster } => if s.authorized(id, hashed_poster) {
            s.remove(id)
        } else {
            s
        },
    }
}

/// The board after a sequence of requests, served in order.
pub open spec fn run(s: StateView, rs: Seq<Request>) -> StateView
    decreases rs.len(),
{
    if rs.len() == 0 {
        s
    } else {
        step(run(s, rs.drop_last()), rs.last())
    }
}

/// The identifier that the request at place `k` gets if it creates a post.
pub open spec fn assigned_id(s: StateView, rs: Seq<Request>, k: int) -> nat {
    run(s, rs.take(k)).id_counter
}

/// Whether the identifiers of a sequence of posts strictly ascend.
pub open spec fn ascending(posts: Seq<PostView>) -> bool {
    forall|i: int, j: int|
        0 <= i < j < posts.len() ==> (#[trigger] posts[i]).id < (#[trigger] posts[j]).id
}

/// On a well-formed board an identifier stands at one place only.
pub proof fn lemma_index_unique(s: StateView, i: int)
    requires
        s.wf(),
        0 <= i < s.posts.len(),
    ensures
        has_id(s.posts, s.posts[i].id),
        index_of(s.posts, s.posts[i].id) == i,
        s.get(s.posts[i].id) == Some(s.posts[i]),
{
    let id = s.posts[i].id;
    let j = index_of(s.posts, id);
    if j < i {
        assert(s.posts[j].id < s.posts[i].id);
    }
    if i < j {
        assert(s.posts[i].id < s.posts[j].id);
    }
}

/// A request is authorized exactly if the board holds a post with that
/// identifier and the post's fingerprint is the one that came with the
/// request. The post that a lookup finds has the identifier asked for.
pub proof fn lemma_authorized_iff_owner(s: StateView, id: nat, hashed_poster: Seq<char>)
    requires
        s.wf(),
    ensures
        s.authorized(id, hashed_poster) <==> (s.get(id) is Some && s.get(id)->Some_0.hashed_poster
            == hashed_poster),
        s.get(id) is Some ==> s.get(id)->Some_0.id == id,
{
    if s.authorized(id, hashed_poster) {
        let i = choose|i: int|
            0 <= i < s.posts.len() && (#[trigger] s.posts[i]).id == id && s.posts[i].hashed_poster
                == hashed_poster;
        lemma_index_unique(s, i);
    }
    if s.get(id) is Some && s.get(id)->Some_0.hashed_poster == hashed_poster {
        let i = index_of(s.posts, id);
        assert(s.posts[i].id == id);
    }
}

/// Appending a post keeps the board well-formed and within its capacity.
/// A post that the insertion evicts had the smallest identifier on the
/// board, and the new post itself stays.
pub proof fn lemma_insert_evicts_oldest(
    s: StateView,
    title: Seq<char>,
    body: Seq<char>,
    hashed_poster: Seq<char>,
    timestamp: Timestamp,
)
    requires
        s.wf(),
    ensures
        ({
            let post = s.next_post(title, body, hashed_poster, timestamp);
            let after = s.insert(post);
            &&& after.wf()
            &&& after.posts.len() <= MAX_POSTS
            &&& after.posts.last() == post
            &&& forall|i: int|
                0 <= i < s.posts.len() && !has_id(after.posts, (#[trigger] s.posts[i]).id)
                    ==> i == 0 && after.posts == s.posts.drop_first().push(post)
            &&& forall|i: int, j: int|
                0 <= i < s.posts.len() && 0 <= j < s.posts.len() && !has_id(
                    after.posts,
                    (#[trigger] s.posts[i]).id,
                ) ==> s.posts[i].id <= (#[trigger] s.posts[j]).id
        }),
{
    let post = s.next_post(title, body, hashed_poster, timestamp);
    let pushed = s.posts.push(post);
    let after = s.insert(post);
    assert forall|i: int, j: int| 0 <= i < j < pushed.len() implies (#[trigger] pushed[i]).id < (
    #[trigger] pushed[j]).id by {
        if j < s.posts.len() {
            assert(s.posts[i].id < s.posts[j].id);
        } else {
            assert(s.posts[i].id < s.id_counter);
        }
    }
    if pushed.len() > MAX_POSTS {
        assert(after.posts =~= s.posts.drop_first().push(post));
        assert forall|i: int| 0 <= i < after.posts.len() implies after.id_start <= (
        #[trigger] after.posts[i]).id < after.id_counter by {
            assert(pushed[0].id < pushed[i + 1].id);
            assert(after.posts[i] == pushed[i + 1]);
        }
        assert forall|i: int, j: int| 0 <= i < j < after.posts.len() implies (
        #[trigger] after.posts[i]).id < (#[trigger] after.posts[j]).id by {
            assert(pushed[i + 1].id < pushed[j + 1].id);
        }
        assert forall|i: int|
            0 <= i < s.posts.len() && !has_id(after.posts, (#[trigger] s.posts[i]).id) implies i
            == 0 by {
            if i > 0 {
                assert(after.posts[i - 1] == s.posts[i]);
            }
        }
    } else {
        assert forall|i: int| 0 <= i < after.posts.len() implies after.id_start <= (
        #[trigger] after.posts[i]).id < after.id_counter by {
            if i < s.posts.len() {
                assert(s.posts[i].id < s.id_counter);
            }
        }
        assert forall|i: int|
            0 <= i < s.posts.len() && !has_id(
                after.posts,
                (#[trigger] s.posts[i]).id,
            ) implies false by {
            assert(after.posts[i] == s.posts[i]);
        }
    }
    assert forall|i: int, j: int|
        0 <= i < s.posts.len() && 0 <= j < s.posts.len() && !has_id(
            after.posts,
            (#[trigger] s.posts[i]).id,
        ) implies s.posts[i].id <= (#[trigger] s.posts[j]).id by {
        if 0 < j {
            assert(s.posts[0].id < s.posts[j].id);
        }
    }
}

/// Every request keeps the board well-formed, never lowers the counter or
/// the eviction cursor, and leaves the identifier and the fingerprint of
/// each post that stays as they were.
pub proof fn lemma_step_preserves(s: StateView, r: Request)
    requires
        s.wf(),
    ensures
        step(s, r).wf(),
        s.id_counter <= step(s, r).id_counter,
        s.id_start <= step(s, r).id_start,
        r is Create ==> step(s, r).id_counter == s.id_counter + 1,
        forall|i: int|
            0 <= i < step(s, r).posts.len() && (#[trigger] step(s, r).posts[i]).id < s.id_counter
                ==> {
                &&& s.get(step(s, r).posts[i].id) is Some
                &&& s.get(step(s, r).posts[i].id)->Some_0.hashed_poster == step(
                    s,
                    r,
                ).posts[i].hashed_poster
                &&& s.get(step(s, r).posts[i].id)->Some_0.title == step(s, r).posts[i].title
                &&& s.get(step(s, r).posts[i].id)->Some_0.timestamp == step(s, r).posts[i].timestamp
            },
{
    let t = step(s, r);
    match r {
        Request::Create { title, body, hashed_poster, timestamp } => {
            lemma_insert_evicts_oldest(s, title, body, hashed_poster, timestamp);
            let post = s.next_post(title, body, hashed_poster, timestamp);
            let pushed = s.posts.push(post);
            assert forall|i: int| 0 <= i < t.posts.len() && (#[trigger] t.posts[i]).id
                < s.id_counter implies s.get(t.posts[i].id) == Some(t.posts[i]) by {
                if pushed.len() > MAX_POSTS {
                    assert(t.posts[i] == pushed[i + 1]);
                    assert(i + 1 < s.posts.len());
                    lemma_index_unique(s, i + 1);
                } else {
                    assert(t.posts[i] == pushed[i]);
                    assert(i < s.posts.len());
                    lemma_index_unique(s, i);
                }
            }
        },
        Request::Update { id, body, hashed_poster } => {
            if s.authorized(id, hashed_poster) {
                let k = index_of(s.posts, id);
                assert forall|i: int| 0 <= i < t.posts.len() implies (#[trigger] t.posts[i]).id
                    == s.posts[i].id by {}
                assert forall|i: int, j: int| 0 <= i < j < t.posts.len() implies (
                #[trigger] t.posts[i]).id < (#[trigger] t.posts[j]).id by {
                    assert(s.posts[i].id < s.posts[j].id);
                }
                assert forall|i: int| 0 <= i < t.posts.len() implies s.id_start <= (
                #[trigger] t.posts[i]).id < s.id_counter by {
                    assert(s.id_start <= s.posts[i].id < s.id_counter);
                }
                assert forall|i: int| 0 <= i < t.posts.len() implies s.get(
                    (#[trigger] t.posts[i]).id,
                ) == Some(s.posts[i]) by {
                    lemma_index_unique(s, i);
                }
            } else {
                assert forall|i: int| 0 <= i < t.posts.len() implies s.get(
                    (#[trigger] t.posts[i]).id,
                ) == Some(t.posts[i]) by {
                    lemma_index_unique(s, i);
                }
            }
        },
        Request::Delete { id, hashed_poster } => {
            if s.authorized(id, hashed_poster) {
                let k = index_of(s.posts, id);
                assert forall|i: int| 0 <= i < t.posts.len() implies (#[trigger] t.posts[i])
                    == s.posts[if i < k { i } else { i + 1 }] by {}
                assert forall|i: int, j: int| 0 <= i < j < t.posts.len() implies (
                #[trigger] t.posts[i]).id < (#[trigger] t.posts[j]).id by {
                    let from_i = if i < k { i } else { i + 1 };
                    let from_j = if j < k { j } else { j + 1 };
                    assert(s.posts[from_i].id < s.posts[from_j].id);
                }
                assert forall|i: int| 0 <= i < t.posts.len() implies s.id_start <= (
                #[trigger] t.posts[i]).id < s.id_counter by {
                    assert(s.id_start <= s.posts[if i < k { i } else { i + 1 }].id < s.id_counter);
                }
                assert forall|i: int| 0 <= i < t.posts.len() implies s.get(
                    (#[trigger] t.posts[i]).id,
                ) == Some(t.posts[i]) by {
                    lemma_index_unique(s, if i < k { i } else { i + 1 });
                }
            } else {
                assert forall|i: int| 0 <= i < t.posts.len() implies s.get(
                    (#[trigger] t.posts[i]).id,
                ) == Some(t.posts[i]) by {
                    lemma_index_unique(s, i);
                }
            }
        },
    }
}

/// Whatever requests were served, the board is well-formed and its counter
/// has not gone down.
pub proof fn lemma_run_preserves(s: StateView, rs: Seq<Request>)
    requires
        s.wf(),
    ensures
        run(s, rs).wf(),
        s.id_counter <= run(s, rs).id_counter,
    decreases rs.len(),
{
    if rs.len() > 0 {
        lemma_run_preserves(s, rs.drop_last());
        lemma_step_preserves(run(s, rs.drop_last()), rs.last());
    }
}

/// Of two requests that create a post, the later one gets the greater
/// identifier, whatever was created, updated or deleted in between: no
/// identifier is handed out twice. The identifier of a new post is also
/// above that of every post on the board.
pub proof fn lemma_ids_strictly_increase(s: StateView, rs: Seq<Request>, a: int, b: int)
    requires
        s.wf(),
        0 <= a < b < rs.len(),
        rs[a] is Create,
    ensures
        assigned_id(s, rs, a) < assigned_id(s, rs, b),
        forall|i: int|
            0 <= i < run(s, rs.take(b)).posts.len() ==> (#[trigger] run(s, rs.take(b)).posts[i]).id
                < assigned_id(s, rs, b),
    decreases b - a,
{
    lemma_run_preserves(s, rs.take(b));
    let before = run(s, rs.take(b - 1));
    assert(rs.take(b).drop_last() =~= rs.take(b - 1));
    assert(rs.take(b).last() == rs[b - 1]);
    lemma_run_preserves(s, rs.take(b - 1));
    lemma_step_preserves(before, rs[b - 1]);
    if a < b - 1 {
        lemma_ids_strictly_increase(s, rs, a, b - 1);
    }
}

/// A listing is in strictly ascending order of identifier; with a filter it
/// holds the posts of that fingerprint, all of them and no others.
pub proof fn lemma_list_exact(s: StateView, filter: Option<Seq<char>>)
    requires
        s.wf(),
    ensures
        ascending(s.list(filter)),
        forall|k: int|
            0 <= k < s.list(filter).len() ==> s.posts.contains(#[trigger] s.list(filter)[k]) && (
            filter is Some ==> s.list(filter)[k].hashed_poster == filter->Some_0),
        forall|i: int|
            0 <= i < s.posts.len() && (filter is Some ==> (#[trigger] s.posts[i]).hashed_poster
                == filter->Some_0) ==> s.list(filter).contains(s.posts[i]),
{
    match filter {
        Some(f) => {
            lemma_filter_ascending(s.posts, |p: PostView| p.hashed_poster == f);
        },
        None => {
            assert forall|i: int| 0 <= i < s.posts.len() implies s.posts.contains(
                #[trigger] s.posts[i],
            ) by {}
        },
    }
}

/// Filtering keeps an ascending sequence ascending, keeps what passes and
/// nothing else.
pub proof fn lemma_filter_ascending(posts: Seq<PostView>, pred: spec_fn(PostView) -> bool)
    requires
        ascending(posts),
    ensures
        ascending(posts.filter(pred)),
        forall|k: int|
            0 <= k < posts.filter(pred).len() ==> posts.contains(#[trigger] posts.filter(pred)[k])
                && pred(posts.filter(pred)[k]),
        forall|i: int|
            0 <= i < posts.len() && pred(#[trigger] posts[i]) ==> posts.filter(pred).contains(
                posts[i],
            ),
    decreases posts.len(),
{
    reveal(Seq::filter);
    let kept = posts.filter(pred);
    if posts.len() > 0 {
        let init = posts.drop_last();
        let last = posts.last();
        lemma_filter_ascending(init, pred);
        let sub = init.filter(pred);
        assert forall|k: int| 0 <= k < sub.len() implies posts.contains(#[trigger] sub[k])
            && sub[k].id < last.id by {
            let m = choose|m: int| 0 <= m < init.len() && init[m] == sub[k];
            assert(posts[m] == sub[k]);
            assert(posts[m].id < posts[posts.len() - 1].id);
        }
        assert(posts.contains(last)) by {
            assert(posts[posts.len() - 1] == last);
        }
        assert forall|i: int|
            0 <= i < posts.len() && pred(#[trigger] posts[i]) implies kept.contains(
            posts[i],
        ) by {
            if i < init.len() {
                assert(init[i] == posts[i]);
                let m = choose|m: int| 0 <= m < sub.len() && sub[m] == posts[i];
                assert(kept[m] == posts[i]);
            } else {
                assert(kept[kept.len() - 1] == posts[i]);
            }
        }
    }
}

} // verus!
