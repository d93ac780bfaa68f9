//! The store itself: one structure owning every collection, whose public
//! operations are verified against the transitions in `model` and shown to
//! preserve the consistency invariant.

use vstd::prelude::*;
use crate::smap::SMap;
use crate::sset::{vec_contains_str, vec_set_insert, vec_set_remove, clone_str_vec};
use crate::strings::{str_eq, make_id, take_prefix, char_vec, find_sub, lower, lower_of, contains_sub};
use crate::types::{
    UserProfile, Post, Comment, StoreError, CreatePostRequest, UpdateProfileRequest,
    CreateCommentRequest, ProfileView,
};
use crate::model::{
    StoreView, inv, empty_store, posts_seq, comments_seq, feeds_from, feed_seq, sorted_desc, list_of, followers_of, following_of, post_likers_of,
    comment_likers_of, posts_idx_of, comments_idx_of, post_id, shared_post_id, comment_id,
    post_id_unused, comment_id_unused, new_profile, create_profile_t, applied_profile,
    update_profile_t, follow_ok, follow_t, unfollow_ok, unfollow_t, like_post_t, unlike_post_t,
    like_comment_t, unlike_comment_t, new_post, create_post_t, delete_post_ok, delete_post_t,
    shared_content, share_post_t, new_shared_post, new_comment, create_comment_t, delete_comment_ok,
    delete_comment_t, lemma_create_profile_inv, lemma_update_profile_inv, lemma_follow_inv,
    lemma_unfollow_inv, lemma_like_post_inv, lemma_unlike_post_inv, lemma_like_comment_inv,
    lemma_unlike_comment_inv, lemma_create_post_inv, lemma_delete_post_inv, lemma_share_post_inv,
    lemma_create_comment_inv, lemma_delete_comment_inv, lemma_empty_inv,
};

verus! {

broadcast use vstd::seq_lib::group_to_multiset_ensures;

/// Whether a profile matches a search query, case-insensitively, against
/// username or display name.
pub open spec fn profile_matches(p: ProfileView, q: Seq<char>) -> bool {
    contains_sub(lower_of(p.username), lower_of(q)) || contains_sub(lower_of(p.name), lower_of(q))
}

/// Sorts posts newest first; the multiset of posts is unchanged.
fn sort_posts_desc(input: Vec<Post>) -> (out: Vec<Post>)
    ensures
        out.deep_view().to_multiset() == input.deep_view().to_multiset(),
        crate::model::sorted_desc(out.deep_view()),
{
    let mut work = input;
    let mut out: Vec<Post> = Vec::new();
    proof {
        assert(out.deep_view().to_multiset().add(work.deep_view().to_multiset())
            =~= input.deep_view().to_multiset());
    }
    while work.len() > 0
        invariant
            out.deep_view().to_multiset().add(work.deep_view().to_multiset())
                == input.deep_view().to_multiset(),
            crate::model::sorted_desc(out.deep_view()),
            forall|a: int, b: int|
                0 <= a < out.deep_view().len() && 0 <= b < work.deep_view().len() ==> (
                #[trigger] out.deep_view()[a]).created_at >= (
                #[trigger] work.deep_view()[b]).created_at,
        decreases work.len(),
    {
        let mut mi: usize = 0;
        let mut k: usize = 1;
        while k < work.len()
            invariant
                0 < work@.len(),
                mi < k,
                k <= work@.len(),
                forall|t: int|
                    0 <= t < k ==> (#[trigger] work.deep_view()[t]).created_at
                        <= work.deep_view()[mi as int].created_at,
            decreases work@.len() - k,
        {
            if work[k].created_at > work[mi].created_at {
                mi = k;
            }
            k = k + 1;
        }
        let ghost wd = work.deep_view();
        let ghost od = out.deep_view();
        let p = work.remove(mi);
        let ghost pv = p.deep_view();
        proof {
            assert(pv == wd[mi as int]);
            assert(work.deep_view() =~= wd.remove(mi as int));
        }
        out.push(p);
        proof {
            assert(out.deep_view() =~= od.push(pv));
            assert(wd.contains(wd[mi as int]));
            assert(wd.remove(mi as int).to_multiset() =~= wd.to_multiset().remove(pv));
            assert(od.push(pv).to_multiset() =~= od.to_multiset().insert(pv));
            assert(wd.to_multiset().count(pv) > 0);
            assert(out.deep_view().to_multiset().add(work.deep_view().to_multiset()) =~= od.to_multiset().add(
                wd.to_multiset(),
            ));
            assert(crate::model::sorted_desc(out.deep_view())) by {
                assert forall|i: int, j: int|
                    0 <= i <= j < out.deep_view().len() implies out.deep_view()[i].created_at
                    >= out.deep_view()[j].created_at by {
                    if j < od.len() {
                        assert(out.deep_view()[i] == od[i]);
                        assert(out.deep_view()[j] == od[j]);
                    } else if i < od.len() {
                        assert(out.deep_view()[i] == od[i]);
                        assert(od[i].created_at >= wd[mi as int].created_at);
                    }
                }
            }
            assert forall|a: int, b: int|
                0 <= a < out.deep_view().len() && 0 <= b < work.deep_view().len() implies (
            out.deep_view()[a]).created_at >= (work.deep_view()[b]).created_at by {
                let src: int = if b < mi as int {
                    b
                } else {
                    b + 1
                };
                assert(work.deep_view()[b] == wd[src]);
                assert(wd[src].created_at <= wd[mi as int].created_at);
                if a < od.len() {
                    assert(out.deep_view()[a] == od[a]);
                    assert(od[a].created_at >= wd[src].created_at);
                } else {
                    assert(out.deep_view()[a] == pv);
                }
            }
        }
    }
    out
}

/// The number of entries in the list a key maps to, absent keys counting
/// as empty.
fn list_len(m: &SMap<Vec<String>>, k: &String) -> (n: usize)
    requires
        m.wf(),
    ensures
        n == list_of(m@, k@).len(),
{
    match m.get(k) {
        Some(l) => l.len(),
        None => 0,
    }
}

/// The social graph store: profiles, posts, comments, follow and like
/// edges, and the id indexes, kept mutually consistent.
pub struct SocialStore {
    users: SMap<UserProfile>,
    posts: SMap<Post>,
    comments: SMap<Comment>,
    followers: SMap<Vec<String>>,
    following: SMap<Vec<String>>,
    post_likes: SMap<Vec<String>>,
    comment_likes: SMap<Vec<String>>,
    user_posts: SMap<Vec<String>>,
    post_comments: SMap<Vec<String>>,
}

impl View for SocialStore {
    type V = StoreView;

    closed spec fn view(&self) -> StoreView {
        StoreView {
            users: self.users@,
            posts: self.posts@,
            comments: self.comments@,
            followers: self.followers@,
            following: self.following@,
            post_likes: self.post_likes@,
            comment_likes: self.comment_likes@,
            user_posts: self.user_posts@,
            post_comments: self.post_comments@,
        }
    }
}

impl SocialStore {
    /// The underlying association lists hold no repeated keys.
    pub closed spec fn maps_wf(&self) -> bool {
        &&& self.users.wf()
        &&& self.posts.wf()
        &&& self.comments.wf()
        &&& self.followers.wf()
        &&& self.following.wf()
        &&& self.post_likes.wf()
        &&& self.comment_likes.wf()
        &&& self.user_posts.wf()
        &&& self.post_comments.wf()
    }

    /// Well-formed: sound representation and the consistency invariant.
    pub open spec fn wf(&self) -> bool {
        &&& self.maps_wf()
        &&& inv(self@)
    }

    /// An empty store.
    pub fn new() -> (r: Self)
        ensures
            r.wf(),
            r@ == empty_store(),
    {
        let r = SocialStore {
            users: SMap::new(),
            posts: SMap::new(),
            comments: SMap::new(),
            followers: SMap::new(),
            following: SMap::new(),
            post_likes: SMap::new(),
            comment_likes: SMap::new(),
            user_posts: SMap::new(),
            post_comments: SMap::new(),
        };
        proof {
            assert(r@ =~~= empty_store());
            lemma_empty_inv();
        }
        r
    }

    /// The profile of an identity, if any.
    pub fn get_profile(&self, user_id: &String) -> (r: Option<UserProfile>)
        requires
            self.wf(),
        ensures
            match r {
                Some(p) => self@.users.contains_key(user_id@) && p@ == self@.users[user_id@],
                None => !self@.users.contains_key(user_id@),
            },
    {
        match self.users.get(user_id) {
            Some(p) => Some(p.clone()),
            None => None,
        }
    }

    /// Creates the caller's profile; rejected when one already exists.
    /// Absent fields are defaulted, and the counters start at the present
    /// cardinality of their backing collections (zero on a quiet identity).
    pub fn create_profile(
        &mut self,
        caller: &String,
        req: UpdateProfileRequest,
        now: u64,
    ) -> (r: Result<UserProfile, StoreError>)
        requires
            old(self).wf(),
        ensures
            final(self).wf(),
            final(self)@ == create_profile_t(old(self)@, caller@, req.deep_view(), now),
            match r {
                Ok(p) => !old(self)@.users.contains_key(caller@) && p@ == new_profile(
                    old(self)@,
                    caller@,
                    req.deep_view(),
                    now,
                ),
                Err(e) => old(self)@.users.contains_key(caller@) && e == StoreError::AlreadyExists,
            },
    {
        if self.users.contains(caller) {
            return Err(StoreError::AlreadyExists);
        }
        let UpdateProfileRequest { username, name, bio, profile_photo, cover_photo } = req;
        let username_v = match username {
            Some(u) => u,
            None => {
                let mut s = String::from_str("user_");
                let pre = take_prefix(caller, 8);
                s.append(pre.as_str());
                s
            },
        };
        let name_v = match name {
            Some(n) => n,
            None => String::from_str("Anonymous User"),
        };
        let bio_v = match bio {
            Some(b) => b,
            None => String::new(),
        };
        let fc = list_len(&self.followers, caller);
        let gc = list_len(&self.following, caller);
        let pc = list_len(&self.user_posts, caller);
        let profile = UserProfile {
            id: caller.clone(),
            username: username_v,
            name: name_v,
            bio: bio_v,
            profile_photo,
            cover_photo,
            followers_count: fc as u64,
            following_count: gc as u64,
            posts_count: pc as u64,
            created_at: now,
        };
        proof {
            assert(profile@ =~= new_profile(old(self)@, caller@, req.deep_view(), now));
        }
        let out = profile.clone();
        self.users.insert(caller, profile);
        proof {
            lemma_create_profile_inv(old(self)@, caller@, req.deep_view(), now);
            assert(self@ =~~= create_profile_t(old(self)@, caller@, req.deep_view(), now));
        }
        Ok(out)
    }

    /// Applies the present fields of the request to the caller's profile;
    /// fails when the caller has none.
    pub fn update_profile(
        &mut self,
        caller: &String,
        req: UpdateProfileRequest,
    ) -> (r: Result<UserProfile, StoreError>)
        requires
            old(self).wf(),
        ensures
            final(self).wf(),
            final(self)@ == update_profile_t(old(self)@, caller@, req.deep_view()),
            match r {
                Ok(p) => old(self)@.users.contains_key(caller@) && p@ == applied_profile(
                    old(self)@.users[caller@],
                    req.deep_view(),
                ),
                Err(e) => !old(self)@.users.contains_key(caller@) && e == StoreError::NotFound,
            },
    {
        let mut p = match self.users.get(caller) {
            Some(p) => p.clone(),
            None => {
                return Err(StoreError::NotFound);
            },
        };
        let UpdateProfileRequest { username, name, bio, profile_photo, cover_photo } = req;
        if let Some(u) = username {
            p.username = u;
        }
        if let Some(n) = name {
            p.name = n;
        }
        if let Some(b) = bio {
            p.bio = b;
        }
        if let Some(ph) = profile_photo {
            p.profile_photo = Some(ph);
        }
        if let Some(cv) = cover_photo {
            p.cover_photo = Some(cv);
        }
        proof {
            assert(p@ =~= applied_profile(old(self)@.users[caller@], req.deep_view()));
        }
        let out = p.clone();
        self.users.insert(caller, p);
        proof {
            lemma_update_profile_inv(old(self)@, caller@, req.deep_view());
            assert(self@ =~~= update_profile_t(old(self)@, caller@, req.deep_view()));
        }
        Ok(out)
    }

    /// Whether the caller follows the target.
    pub fn is_following(&self, caller: &String, target: &String) -> (r: bool)
        requires
            self.wf(),
        ensures
            r == following_of(self@, caller@).contains(target@),
    {
        match self.following.get(caller) {
            Some(l) => vec_contains_str(l, target),
            None => false,
        }
    }

    /// Follows a target: inserts the edge on both sides and bumps both
    /// counters only when the edge is new; rejects only a self-follow.
    pub fn follow_user(&mut self, caller: &String, target: &String) -> (r: bool)
        requires
            old(self).wf(),
        ensures
            final(self).wf(),
            final(self)@ == follow_t(old(self)@, caller@, target@),
            r == follow_ok(caller@, target@),
    {
        if str_eq(caller, target) {
            return false;
        }
        let already = match self.following.get(caller) {
            Some(l) => vec_contains_str(l, target),
            None => false,
        };
        if already {
            return true;
        }
        let mut fw = match self.following.remove(caller) {
            Some(l) => l,
            None => Vec::new(),
        };
        let _ = vec_set_insert(&mut fw, target);
        let fw_len = fw.len();
        self.following.insert(caller, fw);
        let mut fr = match self.followers.remove(target) {
            Some(l) => l,
            None => Vec::new(),
        };
        let _ = vec_set_insert(&mut fr, caller);
        let fr_len = fr.len();
        self.followers.insert(target, fr);
        match self.users.remove(caller) {
            Some(mut p) => {
                p.following_count = fw_len as u64;
                self.users.insert(caller, p);
            },
            None => {},
        }
        match self.users.remove(target) {
            Some(mut p) => {
                p.followers_count = fr_len as u64;
                self.users.insert(target, p);
            },
            None => {},
        }
        proof {
            lemma_follow_inv(old(self)@, caller@, target@);
            assert(self@ =~~= follow_t(old(self)@, caller@, target@));
        }
        true
    }

    /// Unfollows a target: succeeds, removes the edge from both sides and
    /// refreshes both counters only when the edge was present on both;
    /// otherwise nothing changes at all.
    pub fn unfollow_user(&mut self, caller: &String, target: &String) -> (r: bool)
        requires
            old(self).wf(),
        ensures
            final(self).wf(),
            final(self)@ == unfollow_t(old(self)@, caller@, target@),
            r == unfollow_ok(old(self)@, caller@, target@),
    {
        let had_fw = match self.following.get(caller) {
            Some(l) => vec_contains_str(l, target),
            None => false,
        };
        let had_fr = match self.followers.get(target) {
            Some(l) => vec_contains_str(l, caller),
            None => false,
        };
        if !(had_fw && had_fr) {
            return false;
        }
        let mut fw = match self.following.remove(caller) {
            Some(l) => l,
            None => {
                proof {
                    assert(false);
                }
                Vec::new()
            },
        };
        let _ = vec_set_remove(&mut fw, target);
        let fw_len = fw.len();
        self.following.insert(caller, fw);
        let mut fr = match self.followers.remove(target) {
            Some(l) => l,
            None => {
                proof {
                    assert(false);
                }
                Vec::new()
            },
        };
        let _ = vec_set_remove(&mut fr, caller);
        let fr_len = fr.len();
        self.followers.insert(target, fr);
        match self.users.remove(caller) {
            Some(mut p) => {
                p.following_count = fw_len as u64;
                self.users.insert(caller, p);
            },
            None => {},
        }
        match self.users.remove(target) {
            Some(mut p) => {
                p.followers_count = fr_len as u64;
                self.users.insert(target, p);
            },
            None => {},
        }
        proof {
            lemma_unfollow_inv(old(self)@, caller@, target@);
            assert(self@ =~~= unfollow_t(old(self)@, caller@, target@));
        }
        true
    }

    /// Who follows an identity, in edge insertion order.
    pub fn get_followers(&self, user_id: &String) -> (r: Vec<String>)
        requires
            self.wf(),
        ensures
            r.deep_view() == followers_of(self@, user_id@),
    {
        match self.followers.get(user_id) {
            Some(l) => {
                let c = clone_str_vec(l);
                proof {
                    assert(c.deep_view() =~= followers_of(self@, user_id@));
                }
                c
            },
            None => {
                let c: Vec<String> = Vec::new();
                proof {
                    assert(c.deep_view() =~= followers_of(self@, user_id@));
                }
                c
            },
        }
    }

    /// Whom an identity follows, in edge insertion order.
    pub fn get_following(&self, user_id: &String) -> (r: Vec<String>)
        requires
            self.wf(),
        ensures
            r.deep_view() == following_of(self@, user_id@),
    {
        match self.following.get(user_id) {
            Some(l) => {
                let c = clone_str_vec(l);
                proof {
                    assert(c.deep_view() =~= following_of(self@, user_id@));
                }
                c
            },
            None => {
                let c: Vec<String> = Vec::new();
                proof {
                    assert(c.deep_view() =~= following_of(self@, user_id@));
                }
                c
            },
        }
    }

    /// Whether the caller likes a post.
    pub fn is_post_liked(&self, caller: &String, post_id_in: &String) -> (r: bool)
        requires
            self.wf(),
        ensures
            r == post_likers_of(self@, post_id_in@).contains(caller@),
    {
        match self.post_likes.get(post_id_in) {
            Some(l) => vec_contains_str(l, caller),
            None => false,
        }
    }

    /// Likes a post: true exactly when the caller did not already like it;
    /// the post's counter moves only on that change.
    pub fn like_post(&mut self, caller: &String, post_id_in: &String) -> (r: bool)
        requires
            old(self).wf(),
        ensures
            final(self).wf(),
            final(self)@ == like_post_t(old(self)@, caller@, post_id_in@),
            r == !post_likers_of(old(self)@, post_id_in@).contains(caller@),
    {
        let already = match self.post_likes.get(post_id_in) {
            Some(l) => vec_contains_str(l, caller),
            None => false,
        };
        if already {
            return false;
        }
        let mut ls = match self.post_likes.remove(post_id_in) {
            Some(l) => l,
            None => Vec::new(),
        };
        let _ = vec_set_insert(&mut ls, caller);
        let n = ls.len();
        self.post_likes.insert(post_id_in, ls);
        match self.posts.remove(post_id_in) {
            Some(mut p) => {
                p.likes_count = n as u64;
                self.posts.insert(post_id_in, p);
            },
            None => {},
        }
        proof {
            lemma_like_post_inv(old(self)@, caller@, post_id_in@);
            assert(self@ =~~= like_post_t(old(self)@, caller@, post_id_in@));
        }
        true
    }

    /// Unlikes a post: true exactly when the caller liked it before; the
    /// counter moves only on that change.
    pub fn unlike_post(&mut self, caller: &String, post_id_in: &String) -> (r: bool)
        requires
            old(self).wf(),
        ensures
            final(self).wf(),
            final(self)@ == unlike_post_t(old(self)@, caller@, post_id_in@),
            r == post_likers_of(old(self)@, post_id_in@).contains(caller@),
    {
        let had = match self.post_likes.get(post_id_in) {
            Some(l) => vec_contains_str(l, caller),
            None => false,
        };
        if !had {
            return false;
        }
        let mut ls = match self.post_likes.remove(post_id_in) {
            Some(l) => l,
            None => {
                proof {
                    assert(false);
                }
                Vec::new()
            },
        };
        let _ = vec_set_remove(&mut ls, caller);
        let n = ls.len();
        self.post_likes.insert(post_id_in, ls);
        match self.posts.remove(post_id_in) {
            Some(mut p) => {
                p.likes_count = n as u64;
                self.posts.insert(post_id_in, p);
            },
            None => {},
        }
        proof {
            lemma_unlike_post_inv(old(self)@, caller@, post_id_in@);
            assert(self@ =~~= unlike_post_t(old(self)@, caller@, post_id_in@));
        }
        true
    }

    /// Likes a comment, with the same discipline as posts.
    pub fn like_comment(&mut self, caller: &String, comment_id_in: &String) -> (r: bool)
        requires
            old(self).wf(),
        ensures
            final(self).wf(),
            final(self)@ == like_comment_t(old(self)@, caller@, comment_id_in@),
            r == !comment_likers_of(old(self)@, comment_id_in@).contains(caller@),
    {
        let already = match self.comment_likes.get(comment_id_in) {
            Some(l) => vec_contains_str(l, caller),
            None => false,
        };
        if already {
            return false;
        }
        let mut ls = match self.comment_likes.remove(comment_id_in) {
            Some(l) => l,
            None => Vec::new(),
        };
        let _ = vec_set_insert(&mut ls, caller);
        let n = ls.len();
        self.comment_likes.insert(comment_id_in, ls);
        match self.comments.remove(comment_id_in) {
            Some(mut c) => {
                c.likes_count = n as u64;
                self.comments.insert(comment_id_in, c);
            },
            None => {},
        }
        proof {
            lemma_like_comment_inv(old(self)@, caller@, comment_id_in@);
            assert(self@ =~~= like_comment_t(old(self)@, caller@, comment_id_in@));
        }
        true
    }

    /// Unlikes a comment, with the same discipline as posts.
    pub fn unlike_comment(&mut self, caller: &String, comment_id_in: &String) -> (r: bool)
        requires
            old(self).wf(),
        ensures
            final(self).wf(),
            final(self)@ == unlike_comment_t(old(self)@, caller@, comment_id_in@),
            r == comment_likers_of(old(self)@, comment_id_in@).contains(caller@),
    {
        let had = match self.comment_likes.get(comment_id_in) {
            Some(l) => vec_contains_str(l, caller),
            None => false,
        };
        if !had {
            return false;
        }
        let mut ls = match self.comment_likes.remove(comment_id_in) {
            Some(l) => l,
            None => {
                proof {
                    assert(false);
                }
                Vec::new()
            },
        };
        let _ = vec_set_remove(&mut ls, caller);
        let n = ls.len();
        self.comment_likes.insert(comment_id_in, ls);
        match self.comments.remove(comment_id_in) {
            Some(mut c) => {
                c.likes_count = n as u64;
                self.comments.insert(comment_id_in, c);
            },
            None => {},
        }
        proof {
            lemma_unlike_comment_inv(old(self)@, caller@, comment_id_in@);
            assert(self@ =~~= unlike_comment_t(old(self)@, caller@, comment_id_in@));
        }
        true
    }

    /// A post by id, if any.
    pub fn get_post(&self, post_id_in: &String) -> (r: Option<Post>)
        requires
            self.wf(),
        ensures
            match r {
                Some(p) => self@.posts.contains_key(post_id_in@) && p@ == self@.posts[post_id_in@],
                None => !self@.posts.contains_key(post_id_in@),
            },
    {
        match self.posts.get(post_id_in) {
            Some(p) => Some(p.clone()),
            None => None,
        }
    }

    /// Whether the id a post created at `now` would get is still unused.
    pub fn post_id_fresh(&self, now: u64) -> (r: bool)
        requires
            self.wf(),
        ensures
            r == post_id_unused(self@, post_id(now)),
    {
        let id = make_id("post", now);
        !self.posts.contains(&id) && !self.post_likes.contains(&id) && !self.post_comments.contains(
            &id,
        )
    }

    /// Whether the id a shared post created at `now` would get is unused.
    pub fn shared_post_id_fresh(&self, now: u64) -> (r: bool)
        requires
            self.wf(),
        ensures
            r == post_id_unused(self@, shared_post_id(now)),
    {
        let id = make_id("shared_post", now);
        !self.posts.contains(&id) && !self.post_likes.contains(&id) && !self.post_comments.contains(
            &id,
        )
    }

    /// Whether the id a comment created at `now` would get is unused.
    pub fn comment_id_fresh(&self, now: u64) -> (r: bool)
        requires
            self.wf(),
        ensures
            r == comment_id_unused(self@, comment_id(now)),
    {
        let id = make_id("comment", now);
        !self.comments.contains(&id) && !self.comment_likes.contains(&id)
    }

    /// Creates a post for the caller at time `now`: stores it, appends it
    /// to the caller's index, and bumps the caller's counter when a
    /// profile exists. The time-derived id must still be unused.
    pub fn create_post(&mut self, caller: &String, req: CreatePostRequest, now: u64) -> (r: Post)
        requires
            old(self).wf(),
            post_id_unused(old(self)@, post_id(now)),
        ensures
            final(self).wf(),
            final(self)@ == create_post_t(old(self)@, caller@, req.deep_view(), now),
            r@ == new_post(caller@, req.deep_view(), now),
    {
        let id = make_id("post", now);
        let CreatePostRequest { content, media, media_type } = req;
        let post = Post {
            id: id.clone(),
            author: caller.clone(),
            content,
            media,
            media_type,
            likes_count: 0,
            comments_count: 0,
            shares_count: 0,
            created_at: now,
            updated_at: now,
        };
        proof {
            assert(post@ =~= new_post(caller@, req.deep_view(), now));
        }
        let out = post.clone();
        self.posts.insert(&id, post);
        let mut idx = match self.user_posts.remove(caller) {
            Some(l) => l,
            None => Vec::new(),
        };
        idx.push(id);
        let n = idx.len();
        self.user_posts.insert(caller, idx);
        match self.users.remove(caller) {
            Some(mut p) => {
                p.posts_count = n as u64;
                self.users.insert(caller, p);
            },
            None => {},
        }
        proof {
            lemma_create_post_inv(old(self)@, caller@, req.deep_view(), now);
            assert(self@ =~~= create_post_t(old(self)@, caller@, req.deep_view(), now));
        }
        out
    }

    /// Deletes a post: succeeds only for its author; on success the post
    /// leaves the content map and the author's index, and the author's
    /// counter is refreshed. Comments and likes survive as orphans.
    pub fn delete_post(&mut self, caller: &String, post_id_in: &String) -> (r: bool)
        requires
            old(self).wf(),
        ensures
            final(self).wf(),
            final(self)@ == delete_post_t(old(self)@, caller@, post_id_in@),
            r == delete_post_ok(old(self)@, caller@, post_id_in@),
    {
        let ok = match self.posts.get(post_id_in) {
            Some(p) => str_eq(&p.author, caller),
            None => false,
        };
        if !ok {
            return false;
        }
        let _ = self.posts.remove(post_id_in);
        let mut idx = match self.user_posts.remove(caller) {
            Some(l) => l,
            None => {
                proof {
                    assert(old(self)@.posts.contains_key(post_id_in@));
                    assert(posts_idx_of(old(self)@, caller@).contains(post_id_in@));
                    assert(false);
                }
                Vec::new()
            },
        };
        let _ = vec_set_remove(&mut idx, post_id_in);
        let n = idx.len();
        self.user_posts.insert(caller, idx);
        match self.users.remove(caller) {
            Some(mut p) => {
                p.posts_count = n as u64;
                self.users.insert(caller, p);
            },
            None => {},
        }
        proof {
            lemma_delete_post_inv(old(self)@, caller@, post_id_in@);
            assert(self@ =~~= delete_post_t(old(self)@, caller@, post_id_in@));
        }
        true
    }

    /// Shares a post: a fresh post owned by the caller whose content is
    /// the original's behind a marker prefix, with the original's media;
    /// the original's share counter is bumped. Fails when the original
    /// does not exist.
    pub fn share_post(
        &mut self,
        caller: &String,
        original_post_id: &String,
        now: u64,
    ) -> (r: Result<Post, StoreError>)
        requires
            old(self).wf(),
            post_id_unused(old(self)@, shared_post_id(now)),
            old(self)@.posts.contains_key(original_post_id@) ==> old(
                self,
            )@.posts[original_post_id@].shares_count < u64::MAX,
        ensures
            final(self).wf(),
            final(self)@ == share_post_t(old(self)@, caller@, original_post_id@, now),
            match r {
                Ok(p) => old(self)@.posts.contains_key(original_post_id@) && p@ == new_shared_post(
                    old(self)@,
                    caller@,
                    original_post_id@,
                    now,
                ),
                Err(e) => !old(self)@.posts.contains_key(original_post_id@) && e
                    == StoreError::NotFound,
            },
    {
        let orig = match self.posts.get(original_post_id) {
            Some(p) => p.clone(),
            None => {
                return Err(StoreError::NotFound);
            },
        };
        let id = make_id("shared_post", now);
        let mut content = String::from_str("Shared: ");
        content.append(orig.content.as_str());
        let post = Post {
            id: id.clone(),
            author: caller.clone(),
            content,
            media: orig.media,
            media_type: orig.media_type,
            likes_count: 0,
            comments_count: 0,
            shares_count: 0,
            created_at: now,
            updated_at: now,
        };
        proof {
            assert(post@ =~= new_shared_post(old(self)@, caller@, original_post_id@, now));
        }
        let out = post.clone();
        self.posts.insert(&id, post);
        match self.posts.remove(original_post_id) {
            Some(mut op) => {
                op.shares_count = op.shares_count + 1;
                self.posts.insert(original_post_id, op);
            },
            None => {
                proof {
                    assert(false);
                }
            },
        }
        let mut idx = match self.user_posts.remove(caller) {
            Some(l) => l,
            None => Vec::new(),
        };
        idx.push(id);
        let n = idx.len();
        self.user_posts.insert(caller, idx);
        match self.users.remove(caller) {
            Some(mut p) => {
                p.posts_count = n as u64;
                self.users.insert(caller, p);
            },
            None => {},
        }
        proof {
            lemma_share_post_inv(old(self)@, caller@, original_post_id@, now);
            assert(self@ =~~= share_post_t(old(self)@, caller@, original_post_id@, now));
        }
        Ok(out)
    }

    /// Creates a comment under a post id at time `now`. The id need not
    /// belong to an existing post: the comment and its index entry are
    /// created regardless, and only an existing post's counter moves.
    pub fn create_comment(
        &mut self,
        caller: &String,
        req: CreateCommentRequest,
        now: u64,
    ) -> (r: Comment)
        requires
            old(self).wf(),
            comment_id_unused(old(self)@, comment_id(now)),
        ensures
            final(self).wf(),
            final(self)@ == create_comment_t(old(self)@, caller@, req.post_id@, req.content@, now),
            r@ == new_comment(caller@, req.post_id@, req.content@, now),
    {
        let id = make_id("comment", now);
        let CreateCommentRequest { post_id: pid, content } = req;
        let comment = Comment {
            id: id.clone(),
            post_id: pid.clone(),
            author: caller.clone(),
            content,
            likes_count: 0,
            created_at: now,
        };
        proof {
            assert(comment@ =~= new_comment(caller@, req.post_id@, req.content@, now));
        }
        let out = comment.clone();
        self.comments.insert(&id, comment);
        let mut idx = match self.post_comments.remove(&pid) {
            Some(l) => l,
            None => Vec::new(),
        };
        idx.push(id);
        let n = idx.len();
        self.post_comments.insert(&pid, idx);
        match self.posts.remove(&pid) {
            Some(mut p) => {
                p.comments_count = n as u64;
                self.posts.insert(&pid, p);
            },
            None => {},
        }
        proof {
            lemma_create_comment_inv(old(self)@, caller@, req.post_id@, req.content@, now);
            assert(self@ =~~= create_comment_t(old(self)@, caller@, req.post_id@, req.content@, now));
        }
        out
    }

    /// Deletes a comment: succeeds only for its author; on success the
    /// comment leaves the content map and its post's index, and the
    /// post's counter is refreshed when the post exists.
    pub fn delete_comment(&mut self, caller: &String, comment_id_in: &String) -> (r: bool)
        requires
            old(self).wf(),
        ensures
            final(self).wf(),
            final(self)@ == delete_comment_t(old(self)@, caller@, comment_id_in@),
            r == delete_comment_ok(old(self)@, caller@, comment_id_in@),
    {
        let looked = match self.comments.get(comment_id_in) {
            Some(c) => Some((str_eq(&c.author, caller), c.post_id.clone())),
            None => None,
        };
        let pid = match looked {
            Some((true, pid)) => pid,
            Some((false, _)) => {
                return false;
            },
            None => {
                return false;
            },
        };
        let _ = self.comments.remove(comment_id_in);
        let mut idx = match self.post_comments.remove(&pid) {
            Some(l) => l,
            None => {
                proof {
                    assert(old(self)@.comments.contains_key(comment_id_in@));
                    assert(comments_idx_of(
                        old(self)@,
                        old(self)@.comments[comment_id_in@].post_id,
                    ).contains(comment_id_in@));
                    assert(false);
                }
                Vec::new()
            },
        };
        let _ = vec_set_remove(&mut idx, comment_id_in);
        let n = idx.len();
        self.post_comments.insert(&pid, idx);
        match self.posts.remove(&pid) {
            Some(mut p) => {
                p.comments_count = n as u64;
                self.posts.insert(&pid, p);
            },
            None => {},
        }
        proof {
            lemma_delete_comment_inv(old(self)@, caller@, comment_id_in@);
            assert(self@ =~~= delete_comment_t(old(self)@, caller@, comment_id_in@));
        }
        true
    }

    /// Every profile in the store, each exactly once, in no promised order.
    pub fn get_all_users(&self) -> (r: Vec<UserProfile>)
        requires
            self.wf(),
        ensures
            forall|i: int|
                0 <= i < r.deep_view().len() ==> self@.users.contains_key(
                    (#[trigger] r.deep_view()[i]).id,
                ) && self@.users[r.deep_view()[i].id] == r.deep_view()[i],
            forall|k: Seq<char>|
                #[trigger] self@.users.contains_key(k) ==> exists|i: int|
                    0 <= i < r.deep_view().len() && (#[trigger] r.deep_view()[i]).id == k,
    {
        let n = self.users.len();
        let mut out: Vec<UserProfile> = Vec::new();
        let mut i: usize = 0;
        while i < n
            invariant
                self.wf(),
                n == self.users.entry_seq().len(),
                i <= n,
                out.deep_view().len() == i,
                forall|j: int|
                    0 <= j < i ==> (#[trigger] out.deep_view()[j]) == self.users.entry_seq()[j].1,
            decreases n - i,
        {
            let e = self.users.entry_at(i);
            let ghost od = out.deep_view();
            out.push(e.1.clone());
            i = i + 1;
            proof {
                assert(out.deep_view() =~= od.push(e.1.deep_view()));
            }
        }
        proof {
            self.users.lemma_entries();
            assert forall|idx: int| 0 <= idx < out.deep_view().len() implies self@.users.contains_key(
                (#[trigger] out.deep_view()[idx]).id,
            ) && self@.users[out.deep_view()[idx].id] == out.deep_view()[idx] by {
                let k = self.users.entry_seq()[idx].0;
                assert(self.users@.contains_key(k));
                assert(self.users@[k] == self.users.entry_seq()[idx].1);
                assert(self@.users[k].id == k);
            }
            assert forall|k: Seq<char>| #[trigger] self@.users.contains_key(k) implies exists|i2: int|
                0 <= i2 < out.deep_view().len() && (#[trigger] out.deep_view()[i2]).id == k by {
                let j = choose|j: int|
                    0 <= j < self.users.entry_seq().len() && (#[trigger] self.users.entry_seq()[j]).0
                        == k;
                assert(out.deep_view()[j] == self.users.entry_seq()[j].1);
                assert(self.users@[k] == self.users.entry_seq()[j].1);
                assert(self@.users[k].id == k);
            }
        }
        out
    }

    /// Every profile whose username or display name contains the query,
    /// case-insensitively.
    pub fn search_users(&self, query: &String) -> (r: Vec<UserProfile>)
        requires
            self.wf(),
        ensures
            forall|i: int|
                0 <= i < r.deep_view().len() ==> self@.users.contains_key(
                    (#[trigger] r.deep_view()[i]).id,
                ) && self@.users[r.deep_view()[i].id] == r.deep_view()[i] && profile_matches(
                    r.deep_view()[i],
                    query@,
                ),
            forall|k: Seq<char>|
                #[trigger] self@.users.contains_key(k) && profile_matches(self@.users[k], query@)
                    ==> exists|i: int|
                    0 <= i < r.deep_view().len() && (#[trigger] r.deep_view()[i]) == self@.users[k],
    {
        let ql = lower(query);
        let qv = char_vec(ql.as_str());
        let n = self.users.len();
        let mut out: Vec<UserProfile> = Vec::new();
        let mut i: usize = 0;
        while i < n
            invariant
                self.wf(),
                qv@ == lower_of(query@),
                n == self.users.entry_seq().len(),
                i <= n,
                forall|j: int|
                    0 <= j < out.deep_view().len() ==> exists|m: int|
                        0 <= m < i && (#[trigger] out.deep_view()[j])
                            == self.users.entry_seq()[m].1,
                forall|j: int|
                    0 <= j < out.deep_view().len() ==> profile_matches(
                        #[trigger] out.deep_view()[j],
                        query@,
                    ),
                forall|m: int|
                    0 <= m < i && profile_matches((#[trigger] self.users.entry_seq()[m]).1, query@)
                        ==> exists|j: int|
                        0 <= j < out.deep_view().len() && out.deep_view()[j]
                            == self.users.entry_seq()[m].1,
            decreases n - i,
        {
            let e = self.users.entry_at(i);
            let lu = lower(&e.1.username);
            let un = char_vec(lu.as_str());
            let matched = if find_sub(&un, &qv) {
                true
            } else {
                let ln = lower(&e.1.name);
                let nm = char_vec(ln.as_str());
                find_sub(&nm, &qv)
            };
            proof {
                assert(e.1.deep_view() == self.users.entry_seq()[i as int].1);
                assert(matched == profile_matches(self.users.entry_seq()[i as int].1, query@));
            }
            let ghost odeep = out.deep_view();
            if matched {
                out.push(e.1.clone());
                proof {
                    assert(out.deep_view() =~= odeep.push(e.1.deep_view()));
                }
            }
            i = i + 1;
            proof {
                let gi = i as int;
                assert forall|j: int| 0 <= j < out.deep_view().len() implies (exists|m: int|
                    0 <= m < gi && (#[trigger] out.deep_view()[j])
                        == self.users.entry_seq()[m].1) by {
                    if j < odeep.len() {
                        assert(out.deep_view()[j] == odeep[j]);
                        let m0 = choose|m0: int|
                            0 <= m0 < gi - 1 && odeep[j] == self.users.entry_seq()[m0].1;
                        assert(out.deep_view()[j] == self.users.entry_seq()[m0].1);
                    } else {
                        assert(out.deep_view()[j] == self.users.entry_seq()[gi - 1].1);
                    }
                }
                assert forall|j: int| 0 <= j < out.deep_view().len() implies profile_matches(
                    #[trigger] out.deep_view()[j],
                    query@,
                ) by {
                    if j < odeep.len() {
                        assert(out.deep_view()[j] == odeep[j]);
                    } else {
                        assert(out.deep_view()[j] == e.1.deep_view());
                    }
                }
                assert forall|m: int|
                    0 <= m < gi && profile_matches(
                        (#[trigger] self.users.entry_seq()[m]).1,
                        query@,
                    ) implies exists|j: int|
                    0 <= j < out.deep_view().len() && out.deep_view()[j]
                        == self.users.entry_seq()[m].1 by {
                    if m < gi - 1 {
                        let j0 = choose|j0: int|
                            0 <= j0 < odeep.len() && odeep[j0] == self.users.entry_seq()[m].1;
                        assert(out.deep_view()[j0] == self.users.entry_seq()[m].1);
                    } else {
                        assert(matched);
                        assert(out.deep_view()[odeep.len() as int]
                            == self.users.entry_seq()[m].1);
                    }
                }
            }
        }
        proof {
            self.users.lemma_entries();
            assert forall|idx: int| 0 <= idx < out.deep_view().len() implies self@.users.contains_key(
                (#[trigger] out.deep_view()[idx]).id,
            ) && self@.users[out.deep_view()[idx].id] == out.deep_view()[idx] && profile_matches(
                out.deep_view()[idx],
                query@,
            ) by {
                let m = choose|m: int|
                    0 <= m < self.users.entry_seq().len() && (#[trigger] out.deep_view()[idx])
                        == self.users.entry_seq()[m].1;
                let k = self.users.entry_seq()[m].0;
                assert(self.users@.contains_key(k));
                assert(self.users@[k] == self.users.entry_seq()[m].1);
                assert(self@.users[k].id == k);
            }
            assert forall|k: Seq<char>|
                #[trigger] self@.users.contains_key(k) && profile_matches(
                    self@.users[k],
                    query@,
                ) implies exists|i2: int|
                0 <= i2 < out.deep_view().len() && (#[trigger] out.deep_view()[i2])
                    == self@.users[k] by {
                let m = choose|m: int|
                    0 <= m < self.users.entry_seq().len() && (#[trigger] self.users.entry_seq()[m]).0
                        == k;
                assert(self.users@[k] == self.users.entry_seq()[m].1);
                assert(profile_matches(self.users.entry_seq()[m].1, query@));
                let j = choose|j: int|
                    0 <= j < out.deep_view().len() && out.deep_view()[j]
                        == self.users.entry_seq()[m].1;
                assert(out.deep_view()[j] == self@.users[k]);
            }
        }
        out
    }

    /// The posts of an identity, oldest first (index order).
    pub fn get_user_posts(&self, user_id: &String) -> (r: Vec<Post>)
        requires
            self.wf(),
        ensures
            r.deep_view() == posts_seq(self@, user_id@),
    {
        let mut out: Vec<Post> = Vec::new();
        match self.user_posts.get(user_id) {
            None => {
                proof {
                    assert(out.deep_view() =~= posts_seq(self@, user_id@));
                }
                out
            },
            Some(ids) => {
                let n = ids.len();
                let mut i: usize = 0;
                while i < n
                    invariant
                        self.wf(),
                        n == ids@.len(),
                        ids.deep_view() == posts_idx_of(self@, user_id@),
                        i <= n,
                        out.deep_view() == posts_seq(self@, user_id@).take(i as int),
                    decreases n - i,
                {
                    proof {
                        assert(posts_idx_of(self@, user_id@)[i as int] == ids@[i as int]@);
                        assert(self@.posts.contains_key(posts_idx_of(self@, user_id@)[i as int]));
                    }
                    let ghost od = out.deep_view();
                    match self.posts.get(&ids[i]) {
                        Some(p) => {
                            proof {
                                assert(p.deep_view() == self@.posts[posts_idx_of(
                                    self@,
                                    user_id@,
                                )[i as int]]);
                            }
                            out.push(p.clone());
                            proof {
                                assert(out.deep_view() =~= od.push(p.deep_view()));
                            }
                        },
                        None => {
                            proof {
                                assert(false);
                            }
                        },
                    }
                    i = i + 1;
                    proof {
                        assert(posts_seq(self@, user_id@)[i as int - 1] == self@.posts[posts_idx_of(
                            self@,
                            user_id@,
                        )[i as int - 1]]);
                        assert(out.deep_view() =~= posts_seq(self@, user_id@).take(i as int));
                    }
                }
                proof {
                    assert(out.deep_view() =~= posts_seq(self@, user_id@));
                }
                out
            },
        }
    }

    /// The comments under a post id, oldest first (index order); the id
    /// need not belong to an existing post.
    pub fn get_post_comments(&self, post_id_in: &String) -> (r: Vec<Comment>)
        requires
            self.wf(),
        ensures
            r.deep_view() == comments_seq(self@, post_id_in@),
    {
        let mut out: Vec<Comment> = Vec::new();
        match self.post_comments.get(post_id_in) {
            None => {
                proof {
                    assert(out.deep_view() =~= comments_seq(self@, post_id_in@));
                }
                out
            },
            Some(ids) => {
                let n = ids.len();
                let mut i: usize = 0;
                while i < n
                    invariant
                        self.wf(),
                        n == ids@.len(),
                        ids.deep_view() == comments_idx_of(self@, post_id_in@),
                        i <= n,
                        out.deep_view() == comments_seq(self@, post_id_in@).take(i as int),
                    decreases n - i,
                {
                    proof {
                        assert(comments_idx_of(self@, post_id_in@)[i as int] == ids@[i as int]@);
                        assert(self@.comments.contains_key(
                            comments_idx_of(self@, post_id_in@)[i as int],
                        ));
                    }
                    let ghost od = out.deep_view();
                    match self.comments.get(&ids[i]) {
                        Some(c) => {
                            proof {
                                assert(c.deep_view() == self@.comments[comments_idx_of(
                                    self@,
                                    post_id_in@,
                                )[i as int]]);
                            }
                            out.push(c.clone());
                            proof {
                                assert(out.deep_view() =~= od.push(c.deep_view()));
                            }
                        },
                        None => {
                            proof {
                                assert(false);
                            }
                        },
                    }
                    i = i + 1;
                    proof {
                        assert(comments_seq(self@, post_id_in@)[i as int - 1]
                            == self@.comments[comments_idx_of(self@, post_id_in@)[i as int - 1]]);
                        assert(out.deep_view() =~= comments_seq(self@, post_id_in@).take(i as int));
                    }
                }
                proof {
                    assert(out.deep_view() =~= comments_seq(self@, post_id_in@));
                }
                out
            },
        }
    }

    /// The caller's feed: their own posts and those of everyone they
    /// follow, sorted newest first.
    pub fn get_feed(&self, caller: &String) -> (r: Vec<Post>)
        requires
            self.wf(),
        ensures
            r.deep_view().to_multiset() == feed_seq(self@, caller@).to_multiset(),
            sorted_desc(r.deep_view()),
    {
        let mut feed: Vec<Post> = self.get_user_posts(caller);
        let fl = self.get_following(caller);
        let n = fl.len();
        let mut j: usize = 0;
        proof {
            assert(fl.deep_view().take(0) =~= Seq::<Seq<char>>::empty());
            assert(feed.deep_view() =~= posts_seq(self@, caller@) + feeds_from(
                self@,
                fl.deep_view().take(0),
            ));
        }
        while j < n
            invariant
                self.wf(),
                n == fl@.len(),
                fl.deep_view() == following_of(self@, caller@),
                j <= n,
                feed.deep_view() == posts_seq(self@, caller@) + feeds_from(
                    self@,
                    fl.deep_view().take(j as int),
                ),
            decreases n - j,
        {
            let mut ps = self.get_user_posts(&fl[j]);
            let ghost fd = feed.deep_view();
            let ghost pd = ps.deep_view();
            feed.append(&mut ps);
            j = j + 1;
            proof {
                assert(feed.deep_view() =~= fd + pd);
                assert(fl.deep_view().take(j as int).drop_last() =~= fl.deep_view().take(
                    j as int - 1,
                ));
                assert(fl.deep_view().take(j as int).last() == fl.deep_view()[j as int - 1]);
                assert(pd == posts_seq(self@, fl.deep_view()[j as int - 1]));
                assert(feed.deep_view() =~= posts_seq(self@, caller@) + feeds_from(
                    self@,
                    fl.deep_view().take(j as int),
                ));
            }
        }
        proof {
            assert(fl.deep_view().take(n as int) =~= fl.deep_view());
            assert(feed.deep_view() =~= feed_seq(self@, caller@));
        }
        sort_posts_desc(feed)
    }
}

} // verus!
