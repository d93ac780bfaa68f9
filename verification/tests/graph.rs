use social_backend::store::SocialStore;
use social_backend::types::{StoreError, UpdateProfileRequest};

fn empty_req() -> UpdateProfileRequest {
    UpdateProfileRequest {
        username: None,
        name: None,
        bio: None,
        profile_photo: None,
        cover_photo: None,
    }
}

fn named_req(username: &str, name: &str) -> UpdateProfileRequest {
    UpdateProfileRequest {
        username: Some(username.to_string()),
        name: Some(name.to_string()),
        bio: None,
        profile_photo: None,
        cover_photo: None,
    }
}

#[test]
fn create_profile_defaults() {
    let mut s = SocialStore::new();
    let alice = String::from("alice-principal");
    let p = s.create_profile(&alice, empty_req(), 7).unwrap();
    assert_eq!(p.id, "alice-principal");
    assert_eq!(p.username, "user_alice-pr");
    assert_eq!(p.name, "Anonymous User");
    assert_eq!(p.bio, "");
    assert_eq!(p.followers_count, 0);
    assert_eq!(p.following_count, 0);
    assert_eq!(p.posts_count, 0);
    assert_eq!(p.created_at, 7);
    let got = s.get_profile(&alice).unwrap();
    assert_eq!(got.username, "user_alice-pr");
}

#[test]
fn create_profile_short_identity_default() {
    let mut s = SocialStore::new();
    let tiny = String::from("ab");
    let p = s.create_profile(&tiny, empty_req(), 1).unwrap();
    assert_eq!(p.username, "user_ab");
}

#[test]
fn create_profile_already_exists() {
    let mut s = SocialStore::new();
    let alice = String::from("alice");
    s.create_profile(&alice, empty_req(), 1).unwrap();
    let e = s.create_profile(&alice, named_req("new", "New"), 2).unwrap_err();
    assert_eq!(e, StoreError::AlreadyExists);
    assert_eq!(s.get_profile(&alice).unwrap().username, "user_alice");
}

#[test]
fn update_profile_partial() {
    let mut s = SocialStore::new();
    let alice = String::from("alice");
    s.create_profile(&alice, named_req("alice99", "Alice"), 1).unwrap();
    let upd = UpdateProfileRequest {
        username: None,
        name: None,
        bio: Some("hi there".to_string()),
        profile_photo: Some(vec![1, 2, 3]),
        cover_photo: None,
    };
    let p = s.update_profile(&alice, upd).unwrap();
    assert_eq!(p.username, "alice99");
    assert_eq!(p.name, "Alice");
    assert_eq!(p.bio, "hi there");
    assert_eq!(p.profile_photo, Some(vec![1, 2, 3]));
    assert_eq!(p.cover_photo, None);
}

#[test]
fn update_profile_not_found() {
    let mut s = SocialStore::new();
    let ghost_user = String::from("nobody");
    let e = s.update_profile(&ghost_user, empty_req()).unwrap_err();
    assert_eq!(e, StoreError::NotFound);
}

#[test]
fn self_follow_rejected() {
    let mut s = SocialStore::new();
    let a = String::from("a");
    s.create_profile(&a, empty_req(), 1).unwrap();
    assert!(!s.follow_user(&a, &a));
    assert!(!s.is_following(&a, &a));
    assert!(s.get_followers(&a).is_empty());
    assert_eq!(s.get_profile(&a).unwrap().following_count, 0);
}

#[test]
fn follow_is_idempotent() {
    let mut s = SocialStore::new();
    let a = String::from("a");
    let b = String::from("b");
    s.create_profile(&a, empty_req(), 1).unwrap();
    s.create_profile(&b, empty_req(), 2).unwrap();
    assert!(s.follow_user(&a, &b));
    assert!(s.follow_user(&a, &b));
    assert_eq!(s.get_profile(&a).unwrap().following_count, 1);
    assert_eq!(s.get_profile(&b).unwrap().followers_count, 1);
    assert_eq!(s.get_followers(&b), vec![String::from("a")]);
    assert_eq!(s.get_following(&a), vec![String::from("b")]);
    assert!(s.is_following(&a, &b));
    assert!(!s.is_following(&b, &a));
}

#[test]
fn unfollow_before_follow_is_a_no_op() {
    let mut s = SocialStore::new();
    let a = String::from("a");
    let b = String::from("b");
    s.create_profile(&a, empty_req(), 1).unwrap();
    s.create_profile(&b, empty_req(), 2).unwrap();
    assert!(!s.unfollow_user(&a, &b));
    assert_eq!(s.get_profile(&a).unwrap().following_count, 0);
    assert_eq!(s.get_profile(&b).unwrap().followers_count, 0);
}

#[test]
fn follow_then_unfollow_round_trip() {
    let mut s = SocialStore::new();
    let a = String::from("a");
    let b = String::from("b");
    s.create_profile(&a, empty_req(), 1).unwrap();
    s.create_profile(&b, empty_req(), 2).unwrap();
    assert!(s.follow_user(&a, &b));
    assert!(s.unfollow_user(&a, &b));
    assert!(!s.is_following(&a, &b));
    assert_eq!(s.get_profile(&a).unwrap().following_count, 0);
    assert_eq!(s.get_profile(&b).unwrap().followers_count, 0);
    assert!(!s.unfollow_user(&a, &b));
}

#[test]
fn follow_without_profiles_still_records_edge() {
    let mut s = SocialStore::new();
    let a = String::from("a");
    let b = String::from("b");
    assert!(s.follow_user(&a, &b));
    assert!(s.is_following(&a, &b));
    assert_eq!(s.get_followers(&b), vec![String::from("a")]);
}

#[test]
fn search_users_is_case_insensitive() {
    let mut s = SocialStore::new();
    let a = String::from("a");
    let b = String::from("b");
    s.create_profile(&a, named_req("Alice", "Wonder"), 1).unwrap();
    s.create_profile(&b, named_req("bob", "Builder"), 2).unwrap();
    let hits = s.search_users(&String::from("LIC"));
    assert_eq!(hits.len(), 1);
    assert_eq!(hits[0].username, "Alice");
    let by_name = s.search_users(&String::from("builD"));
    assert_eq!(by_name.len(), 1);
    assert_eq!(by_name[0].username, "bob");
    assert!(s.search_users(&String::from("xyz")).is_empty());
    assert_eq!(s.search_users(&String::from("")).len(), 2);
}

#[test]
fn get_all_users_lists_everyone_once() {
    let mut s = SocialStore::new();
    let a = String::from("a");
    let b = String::from("b");
    s.create_profile(&a, empty_req(), 1).unwrap();
    s.create_profile(&b, empty_req(), 2).unwrap();
    let mut ids: Vec<String> = s.get_all_users().into_iter().map(|p| p.id).collect();
    ids.sort();
    assert_eq!(ids, vec![String::from("a"), String::from("b")]);
}

#[test]
fn profile_created_after_edges_starts_consistent() {
    let mut s = SocialStore::new();
    let a = String::from("a");
    let b = String::from("b");
    assert!(s.follow_user(&a, &b));
    let p = s.create_profile(&b, empty_req(), 5).unwrap();
    assert_eq!(p.followers_count, 1);
    assert_eq!(p.following_count, 0);
    let q = s.create_profile(&a, empty_req(), 6).unwrap();
    assert_eq!(q.following_count, 1);
}
