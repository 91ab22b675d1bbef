use post_board::fingerprint::hash;
use post_board::post::{Post, Timestamp};
use post_board::state::{PostError, State};

fn s(text: &str) -> String {
    text.to_string()
}

fn at(secs: i64) -> Timestamp {
    Timestamp { secs, nanos: 0 }
}

fn ids(posts: &[Post]) -> Vec<usize> {
    posts.iter().map(|p| p.id).collect()
}

#[test]
fn new_board_is_empty() {
    let board = State::new();
    assert_eq!(board.len(), 0);
    assert_eq!(board.id_counter(), 0);
    assert_eq!(board.id_start(), 0);
    assert!(board.get_posts(None).is_empty());
    assert_eq!(board.get_post(0), Err(PostError::NotFound));
}

#[test]
fn create_fills_every_field() {
    let mut board = State::new();
    let stamp = Timestamp { secs: 1_600_000_000, nanos: 123_456_789 };
    let post = board.create_post_at(s("t"), s("b"), s("alice"), stamp);
    assert_eq!(
        post,
        Post {
            title: s("t"),
            body: s("b"),
            hashed_poster: s("2bd806c97f0e00af1a1fc3328fa763a9269723c8db8fac4f93af71db186d6e90"),
            timestamp: stamp,
            id: 0,
        }
    );
    assert_eq!(board.get_post(0), Ok(post));
    assert_eq!(board.id_counter(), 1);
    assert_eq!(board.len(), 1);
}

#[test]
fn create_stamps_the_current_time() {
    let mut board = State::new();
    let post = board.create_post(s("t"), s("b"), s("alice"));
    assert_eq!(post.id, 0);
    assert_eq!(post.title, "t");
    assert_eq!(post.body, "b");
    assert_eq!(post.hashed_poster, hash(s("alice")));
    assert!(post.timestamp.secs > 1_500_000_000);
    assert!(post.timestamp.nanos < 2_000_000_000);
    assert_eq!(board.get_post(0), Ok(post));
}

#[test]
fn thousand_and_one_inserts_evict_the_first() {
    let mut board = State::new();
    for i in 0..=1000usize {
        let post = board.create_post(s("title"), i.to_string(), s("alice"));
        assert_eq!(post.id, i);
        assert!(board.len() <= 1000);
    }
    let all = board.get_posts(None);
    assert_eq!(all.len(), 1000);
    assert_eq!(board.len(), 1000);
    assert_eq!(all.first().map(|p| p.id), Some(1));
    assert_eq!(all.last().map(|p| p.id), Some(1000));
    assert_eq!(all.first().map(|p| p.body.clone()), Some(s("1")));
    assert_eq!(all.last().map(|p| p.body.clone()), Some(s("1000")));
    assert_eq!(board.get_post(0), Err(PostError::NotFound));
    assert_eq!(board.id_start(), 1);
    assert_eq!(board.id_counter(), 1001);
}

#[test]
fn update_needs_the_authors_secret() {
    let mut board = State::new();
    let post = board.create_post_at(s("t"), s("b"), s("alice"), at(7));
    assert_eq!(post.id, 0);

    let updated = board.update_post(0, s("b2"), s("alice")).unwrap();
    assert_eq!(updated.body, "b2");
    assert_eq!(updated.id, 0);
    assert_eq!(updated.title, "t");
    assert_eq!(updated.hashed_poster, post.hashed_poster);
    assert_eq!(updated.timestamp, at(7));
    assert_eq!(board.get_post(0), Ok(updated.clone()));

    assert_eq!(
        board.update_post(0, s("b3"), s("bob")),
        Err(PostError::NotAuthorizedOrNotFound)
    );
    assert_eq!(board.get_post(0), Ok(updated));
}

#[test]
fn delete_needs_the_authors_secret() {
    let mut board = State::new();
    let post = board.create_post_at(s("t"), s("b"), s("alice"), at(7));

    assert_eq!(board.delete_post(0, s("bob")), Err(PostError::NotAuthorizedOrNotFound));
    assert_eq!(board.get_post(0), Ok(post.clone()));

    assert_eq!(board.delete_post(0, s("alice")), Ok(post));
    assert_eq!(board.get_post(0), Err(PostError::NotFound));
    assert_eq!(board.len(), 0);
}

#[test]
fn list_filters_by_fingerprint() {
    let mut board = State::new();
    let a = board.create_post_at(s("ta"), s("ba"), s("alice"), at(1));
    let b = board.create_post_at(s("tb"), s("bb"), s("bob"), at(2));

    assert_eq!(board.get_posts(Some(hash(s("alice")))), vec![a.clone()]);
    assert_eq!(board.get_posts(Some(hash(s("bob")))), vec![b.clone()]);
    assert_eq!(board.get_posts(Some(s("alice"))), Vec::<Post>::new());
    assert_eq!(board.get_posts(None), vec![a, b]);
}

#[test]
fn list_keeps_ascending_order() {
    let mut board = State::new();
    for i in 0..10usize {
        let poster = if i % 3 == 0 { "alice" } else { "bob" };
        board.create_post_at(s("t"), i.to_string(), s(poster), at(i as i64));
    }
    board.delete_post(3, s("alice")).unwrap();
    board.update_post(6, s("changed"), s("alice")).unwrap();
    assert_eq!(ids(&board.get_posts(None)), vec![0, 1, 2, 4, 5, 6, 7, 8, 9]);
    assert_eq!(ids(&board.get_posts(Some(hash(s("alice"))))), vec![0, 6, 9]);
    assert_eq!(ids(&board.get_posts(Some(hash(s("bob"))))), vec![1, 2, 4, 5, 7, 8]);
    assert_eq!(board.get_post(6).unwrap().body, "changed");
}

#[test]
fn ids_are_never_reused_after_deletion() {
    let mut board = State::new();
    for i in 0..3usize {
        assert_eq!(board.create_post_at(s("t"), s("b"), s("alice"), at(0)).id, i);
    }
    board.delete_post(2, s("alice")).unwrap();
    board.delete_post(0, s("alice")).unwrap();
    assert_eq!(board.create_post_at(s("t"), s("b"), s("alice"), at(0)).id, 3);
    assert_eq!(board.create_post_at(s("t"), s("b"), s("bob"), at(0)).id, 4);
    assert_eq!(ids(&board.get_posts(None)), vec![1, 3, 4]);
    assert_eq!(board.id_counter(), 5);
}

#[test]
fn update_keeps_the_place_in_the_order() {
    let mut board = State::new();
    for _ in 0..3 {
        board.create_post_at(s("t"), s("b"), s("alice"), at(0));
    }
    board.update_post(0, s("new"), s("alice")).unwrap();
    let all = board.get_posts(None);
    assert_eq!(ids(&all), vec![0, 1, 2]);
    assert_eq!(all[0].body, "new");
    assert_eq!(all[1].body, "b");
}

#[test]
fn absent_id_and_wrong_secret_fail_alike() {
    let mut board = State::new();
    board.create_post_at(s("t"), s("b"), s("alice"), at(0));
    let wrong_secret = board.update_post(0, s("x"), s("bob"));
    let absent = board.update_post(5, s("x"), s("alice"));
    assert_eq!(wrong_secret, Err(PostError::NotAuthorizedOrNotFound));
    assert_eq!(wrong_secret, absent);
    let wrong_secret = board.delete_post(0, s("bob"));
    let absent = board.delete_post(5, s("alice"));
    assert_eq!(wrong_secret, Err(PostError::NotAuthorizedOrNotFound));
    assert_eq!(wrong_secret, absent);
    assert_eq!(board.len(), 1);
    assert_eq!(board.get_post(0).unwrap().body, "b");
}

#[test]
fn fingerprint_itself_is_no_secret() {
    let mut board = State::new();
    let post = board.create_post_at(s("t"), s("b"), s("alice"), at(0));
    assert_eq!(
        board.update_post(0, s("x"), post.hashed_poster.clone()),
        Err(PostError::NotAuthorizedOrNotFound)
    );
    assert_eq!(
        board.delete_post(0, post.hashed_poster),
        Err(PostError::NotAuthorizedOrNotFound)
    );
}

#[test]
fn eviction_cursor_passes_deleted_ids() {
    let mut board = State::new();
    for _ in 0..1000 {
        board.create_post_at(s("t"), s("b"), s("alice"), at(0));
    }
    board.delete_post(0, s("alice")).unwrap();
    board.delete_post(1, s("alice")).unwrap();
    assert_eq!(board.len(), 998);
    board.create_post_at(s("t"), s("b"), s("alice"), at(0));
    board.create_post_at(s("t"), s("b"), s("alice"), at(0));
    assert_eq!(board.len(), 1000);
    assert_eq!(board.id_start(), 0);
    assert_eq!(board.get_post(2).map(|p| p.id), Ok(2));

    let newest = board.create_post_at(s("t"), s("b"), s("alice"), at(0));
    assert_eq!(newest.id, 1002);
    assert_eq!(board.len(), 1000);
    assert_eq!(board.id_start(), 3);
    assert_eq!(board.get_post(2), Err(PostError::NotFound));
    let all = board.get_posts(None);
    assert_eq!(all.first().map(|p| p.id), Some(3));
    assert_eq!(all.last().map(|p| p.id), Some(1002));
}

#[test]
fn deletion_in_the_middle_delays_eviction() {
    let mut board = State::new();
    for _ in 0..1000 {
        board.create_post_at(s("t"), s("b"), s("alice"), at(0));
    }
    board.delete_post(500, s("alice")).unwrap();
    board.create_post_at(s("t"), s("b"), s("alice"), at(0));
    assert_eq!(board.len(), 1000);
    assert_eq!(board.get_post(0).map(|p| p.id), Ok(0));
    board.create_post_at(s("t"), s("b"), s("alice"), at(0));
    assert_eq!(board.len(), 1000);
    assert_eq!(board.get_post(0), Err(PostError::NotFound));
    assert_eq!(board.get_post(1).map(|p| p.id), Ok(1));
    assert_eq!(board.id_start(), 1);
}

#[test]
fn clone_of_a_post_is_equal() {
    let mut board = State::new();
    let post = board.create_post_at(s("t"), s("b"), s("alice"), at(3));
    assert_eq!(post.clone(), post);
}
