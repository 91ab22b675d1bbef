use post_board::fingerprint::hash;
use post_board::post::Post;
use post_board::service::PostService;
use post_board::state::PostError;

fn text(value: &str) -> String {
    value.to_string()
}

#[test]
fn service_starts_empty() {
    let service = PostService::new();
    assert_eq!(service.list(None), Ok(Vec::<Post>::new()));
    assert_eq!(service.get(0), Err(PostError::NotFound));
}

#[test]
fn service_create_then_get() {
    let service = PostService::new();
    let post = service.create(text("t"), text("b"), text("alice")).unwrap();
    assert_eq!(post.id, 0);
    assert_eq!(post.title, "t");
    assert_eq!(post.body, "b");
    assert_eq!(
        post.hashed_poster,
        "2bd806c97f0e00af1a1fc3328fa763a9269723c8db8fac4f93af71db186d6e90"
    );
    assert_eq!(service.get(0), Ok(post.clone()));
    assert_eq!(service.list(None), Ok(vec![post]));
    assert_eq!(service.get(1), Err(PostError::NotFound));
}

#[test]
fn service_update_scenario() {
    let service = PostService::new();
    let post = service.create(text("t"), text("b"), text("alice")).unwrap();
    assert_eq!(post.id, 0);
    let updated = service.update(0, text("b2"), text("alice")).unwrap();
    assert_eq!(updated.body, "b2");
    assert_eq!(updated.title, "t");
    assert_eq!(updated.timestamp, post.timestamp);
    assert_eq!(service.get(0), Ok(updated.clone()));
    assert_eq!(
        service.update(0, text("b3"), text("bob")),
        Err(PostError::NotAuthorizedOrNotFound)
    );
    assert_eq!(service.get(0), Ok(updated));
}

#[test]
fn service_delete_scenario() {
    let service = PostService::new();
    let post = service.create(text("t"), text("b"), text("alice")).unwrap();
    assert_eq!(service.delete(0, text("bob")), Err(PostError::NotAuthorizedOrNotFound));
    assert_eq!(service.get(0), Ok(post.clone()));
    assert_eq!(service.delete(0, text("alice")), Ok(post));
    assert_eq!(service.get(0), Err(PostError::NotFound));
    assert_eq!(service.delete(0, text("alice")), Err(PostError::NotAuthorizedOrNotFound));
}

#[test]
fn service_list_by_fingerprint() {
    let service = PostService::new();
    let alice = service.create(text("ta"), text("ba"), text("alice")).unwrap();
    let bob = service.create(text("tb"), text("bb"), text("bob")).unwrap();
    assert_eq!(service.list(Some(hash(text("alice")))), Ok(vec![alice.clone()]));
    assert_eq!(service.list(Some(hash(text("bob")))), Ok(vec![bob.clone()]));
    assert_eq!(service.list(None), Ok(vec![alice, bob]));
}

#[test]
fn service_keeps_the_board_between_requests() {
    let service = PostService::new();
    for i in 0..=1000usize {
        let post = service.create(text("t"), i.to_string(), text("alice")).unwrap();
        assert_eq!(post.id, i);
    }
    let all = service.list(None).unwrap();
    assert_eq!(all.len(), 1000);
    assert_eq!(all.first().map(|p| p.id), Some(1));
    assert_eq!(all.last().map(|p| p.id), Some(1000));
    assert_eq!(all.last().map(|p| p.body.clone()), Some(text("1000")));
    assert_eq!(service.get(0), Err(PostError::NotFound));
}
