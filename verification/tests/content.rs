use social_backend::store::SocialStore;
use social_backend::types::{
    StoreError, CreatePostRequest, CreateCommentRequest, UpdateProfileRequest,
};

fn profile_req() -> UpdateProfileRequest {
    UpdateProfileRequest {
        username: None,
        name: None,
        bio: None,
        profile_photo: None,
        cover_photo: None,
    }
}

fn post_req(content: &str) -> CreatePostRequest {
    CreatePostRequest {
        content: content.to_string(),
        media: None,
        media_type: None,
    }
}

#[test]
fn create_post_and_read_back() {
    let mut s = SocialStore::new();
    let a = String::from("a");
    s.create_profile(&a, profile_req(), 1).unwrap();
    let p = s.create_post(&a, post_req("first"), 10);
    assert_eq!(p.id, "post_10");
    assert_eq!(p.author, "a");
    assert_eq!(p.content, "first");
    assert_eq!(p.likes_count, 0);
    assert_eq!(p.comments_count, 0);
    assert_eq!(p.shares_count, 0);
    assert_eq!(p.created_at, 10);
    let got = s.get_post(&String::from("post_10")).unwrap();
    assert_eq!(got.content, "first");
    assert_eq!(s.get_profile(&a).unwrap().posts_count, 1);
}

#[test]
fn user_posts_keep_creation_order() {
    let mut s = SocialStore::new();
    let a = String::from("a");
    s.create_profile(&a, profile_req(), 1).unwrap();
    s.create_post(&a, post_req("one"), 10);
    s.create_post(&a, post_req("two"), 20);
    let ps = s.get_user_posts(&a);
    assert_eq!(ps.len(), 2);
    assert_eq!(ps[0].content, "one");
    assert_eq!(ps[1].content, "two");
    assert_eq!(s.get_profile(&a).unwrap().posts_count, 2);
}

#[test]
fn post_without_profile_is_an_orphan() {
    let mut s = SocialStore::new();
    let a = String::from("a");
    let p = s.create_post(&a, post_req("loose"), 10);
    assert_eq!(s.get_post(&p.id).unwrap().content, "loose");
    assert!(s.get_profile(&a).is_none());
}

#[test]
fn post_id_freshness() {
    let mut s = SocialStore::new();
    let a = String::from("a");
    assert!(s.post_id_fresh(10));
    s.create_post(&a, post_req("x"), 10);
    assert!(!s.post_id_fresh(10));
    assert!(s.post_id_fresh(11));
}

#[test]
fn delete_post_only_by_author() {
    let mut s = SocialStore::new();
    let a = String::from("a");
    let b = String::from("b");
    s.create_profile(&a, profile_req(), 1).unwrap();
    let p = s.create_post(&a, post_req("mine"), 10);
    assert!(!s.delete_post(&b, &p.id));
    let still = s.get_post(&p.id).unwrap();
    assert_eq!(still.content, "mine");
    assert_eq!(s.get_profile(&a).unwrap().posts_count, 1);
    assert!(s.delete_post(&a, &p.id));
    assert!(s.get_post(&p.id).is_none());
    assert_eq!(s.get_profile(&a).unwrap().posts_count, 0);
    assert!(s.get_user_posts(&a).is_empty());
    assert!(!s.delete_post(&a, &p.id));
}

#[test]
fn like_and_unlike_post_track_membership() {
    let mut s = SocialStore::new();
    let a = String::from("a");
    let b = String::from("b");
    let p = s.create_post(&a, post_req("likeable"), 10);
    assert!(!s.is_post_liked(&b, &p.id));
    assert!(s.like_post(&b, &p.id));
    assert!(s.is_post_liked(&b, &p.id));
    assert_eq!(s.get_post(&p.id).unwrap().likes_count, 1);
    assert!(!s.like_post(&b, &p.id));
    assert_eq!(s.get_post(&p.id).unwrap().likes_count, 1);
    assert!(s.unlike_post(&b, &p.id));
    assert_eq!(s.get_post(&p.id).unwrap().likes_count, 0);
    assert!(!s.unlike_post(&b, &p.id));
}

#[test]
fn like_missing_post_records_the_edge() {
    let mut s = SocialStore::new();
    let b = String::from("b");
    let missing = String::from("post_404");
    assert!(s.like_post(&b, &missing));
    assert!(s.is_post_liked(&b, &missing));
    assert!(!s.like_post(&b, &missing));
}

#[test]
fn share_post_lineage() {
    let mut s = SocialStore::new();
    let a = String::from("a");
    let b = String::from("b");
    s.create_profile(&a, profile_req(), 1).unwrap();
    s.create_profile(&b, profile_req(), 2).unwrap();
    let orig = CreatePostRequest {
        content: "hello".to_string(),
        media: Some(vec![9, 9]),
        media_type: Some("image/png".to_string()),
    };
    let p = s.create_post(&a, orig, 10);
    let shared = s.share_post(&b, &p.id, 20).unwrap();
    assert_eq!(shared.id, "shared_post_20");
    assert_eq!(shared.author, "b");
    assert_eq!(shared.content, "Shared: hello");
    assert_eq!(shared.media, Some(vec![9, 9]));
    assert_eq!(shared.media_type, Some("image/png".to_string()));
    assert_eq!(shared.likes_count, 0);
    assert_eq!(shared.comments_count, 0);
    assert_eq!(shared.shares_count, 0);
    assert_eq!(s.get_post(&p.id).unwrap().shares_count, 1);
    assert_eq!(s.get_profile(&b).unwrap().posts_count, 1);
    assert_eq!(s.get_profile(&a).unwrap().posts_count, 1);
}

#[test]
fn share_missing_post_fails() {
    let mut s = SocialStore::new();
    let b = String::from("b");
    let e = s.share_post(&b, &String::from("post_404"), 20).unwrap_err();
    assert_eq!(e, StoreError::NotFound);
}

#[test]
fn comment_on_existing_post() {
    let mut s = SocialStore::new();
    let a = String::from("a");
    let b = String::from("b");
    let p = s.create_post(&a, post_req("topic"), 10);
    let c = s.create_comment(
        &b,
        CreateCommentRequest { post_id: p.id.clone(), content: "nice".to_string() },
        20,
    );
    assert_eq!(c.id, "comment_20");
    assert_eq!(c.post_id, p.id);
    assert_eq!(c.author, "b");
    assert_eq!(s.get_post(&p.id).unwrap().comments_count, 1);
    let cs = s.get_post_comments(&p.id);
    assert_eq!(cs.len(), 1);
    assert_eq!(cs[0].content, "nice");
}

#[test]
fn orphan_comment_is_tolerated() {
    let mut s = SocialStore::new();
    let b = String::from("b");
    let missing = String::from("post_404");
    let c = s.create_comment(
        &b,
        CreateCommentRequest { post_id: missing.clone(), content: "lost".to_string() },
        20,
    );
    assert_eq!(c.post_id, "post_404");
    let cs = s.get_post_comments(&missing);
    assert_eq!(cs.len(), 1);
    assert_eq!(cs[0].content, "lost");
    assert!(s.get_post(&missing).is_none());
}

#[test]
fn delete_comment_only_by_author() {
    let mut s = SocialStore::new();
    let a = String::from("a");
    let b = String::from("b");
    let p = s.create_post(&a, post_req("topic"), 10);
    let c = s.create_comment(
        &b,
        CreateCommentRequest { post_id: p.id.clone(), content: "nice".to_string() },
        20,
    );
    assert!(!s.delete_comment(&a, &c.id));
    assert_eq!(s.get_post(&p.id).unwrap().comments_count, 1);
    assert!(s.delete_comment(&b, &c.id));
    assert_eq!(s.get_post(&p.id).unwrap().comments_count, 0);
    assert!(s.get_post_comments(&p.id).is_empty());
    assert!(!s.delete_comment(&b, &c.id));
}

#[test]
fn like_and_unlike_comment_track_membership() {
    let mut s = SocialStore::new();
    let a = String::from("a");
    let b = String::from("b");
    let p = s.create_post(&a, post_req("topic"), 10);
    let c = s.create_comment(
        &b,
        CreateCommentRequest { post_id: p.id.clone(), content: "nice".to_string() },
        20,
    );
    assert!(s.like_comment(&a, &c.id));
    assert!(!s.like_comment(&a, &c.id));
    let cs = s.get_post_comments(&p.id);
    assert_eq!(cs[0].likes_count, 1);
    assert!(s.unlike_comment(&a, &c.id));
    assert!(!s.unlike_comment(&a, &c.id));
    let cs2 = s.get_post_comments(&p.id);
    assert_eq!(cs2[0].likes_count, 0);
}

#[test]
fn feed_is_sorted_newest_first() {
    let mut s = SocialStore::new();
    let a = String::from("a");
    let b = String::from("b");
    let c = String::from("c");
    s.create_profile(&a, profile_req(), 1).unwrap();
    s.create_profile(&b, profile_req(), 2).unwrap();
    s.create_profile(&c, profile_req(), 3).unwrap();
    assert!(s.follow_user(&a, &b));
    s.create_post(&a, post_req("ten"), 10);
    s.create_post(&b, post_req("twenty"), 20);
    s.create_post(&a, post_req("thirty"), 30);
    s.create_post(&c, post_req("unseen"), 40);
    let feed = s.get_feed(&a);
    let times: Vec<u64> = feed.iter().map(|p| p.created_at).collect();
    assert_eq!(times, vec![30, 20, 10]);
    let contents: Vec<String> = feed.into_iter().map(|p| p.content).collect();
    assert_eq!(
        contents,
        vec!["thirty".to_string(), "twenty".to_string(), "ten".to_string()]
    );
}

#[test]
fn feed_of_a_loner_is_their_own_posts() {
    let mut s = SocialStore::new();
    let a = String::from("a");
    s.create_profile(&a, profile_req(), 1).unwrap();
    s.create_post(&a, post_req("solo"), 10);
    let feed = s.get_feed(&a);
    assert_eq!(feed.len(), 1);
    assert_eq!(feed[0].content, "solo");
}

#[test]
fn feed_keeps_equal_timestamps_together() {
    let mut s = SocialStore::new();
    let a = String::from("a");
    let b = String::from("b");
    s.create_profile(&a, profile_req(), 1).unwrap();
    s.create_profile(&b, profile_req(), 2).unwrap();
    assert!(s.follow_user(&a, &b));
    let p = s.create_post(&a, post_req("mine"), 10);
    s.share_post(&b, &p.id, 10).unwrap();
    let feed = s.get_feed(&a);
    assert_eq!(feed.len(), 2);
    assert_eq!(feed[0].created_at, 10);
    assert_eq!(feed[1].created_at, 10);
}

#[test]
fn post_ids_render_large_times_in_decimal() {
    let mut s = SocialStore::new();
    let a = String::from("a");
    let p = s.create_post(&a, post_req("late"), 1_700_000_000_123_456_789);
    assert_eq!(p.id, "post_1700000000123456789");
    assert!(s.get_post(&String::from("post_1700000000123456789")).is_some());
}
