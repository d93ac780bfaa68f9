//! The mathematical model of the store: its view, the consistency invariant
//! that every operation preserves, and one transition function per mutation.

use vstd::prelude::*;
use crate::types::{ProfileView, PostView, CommentView, UpdateProfileReqView, CreatePostReqView};
use crate::strings::{id_seq, spec_min};
use crate::sset::seq_remove;

verus! {

/// Everything the store holds, as maps over character sequences.
#[verifier::ext_equal]
pub ghost struct StoreView {
    /// Identity -> profile.
    pub users: Map<Seq<char>, ProfileView>,
    /// Post id -> post.
    pub posts: Map<Seq<char>, PostView>,
    /// Comment id -> comment.
    pub comments: Map<Seq<char>, CommentView>,
    /// Identity -> who follows it (duplicate-free, insertion order).
    pub followers: Map<Seq<char>, Seq<Seq<char>>>,
    /// Identity -> whom it follows.
    pub following: Map<Seq<char>, Seq<Seq<char>>>,
    /// Post id -> identities that like it.
    pub post_likes: Map<Seq<char>, Seq<Seq<char>>>,
    /// Comment id -> identities that like it.
    pub comment_likes: Map<Seq<char>, Seq<Seq<char>>>,
    /// Identity -> its post ids, oldest first.
    pub user_posts: Map<Seq<char>, Seq<Seq<char>>>,
    /// Post id -> its comment ids, oldest first.
    pub post_comments: Map<Seq<char>, Seq<Seq<char>>>,
}

/// The list a key maps to, or the empty list when the key is absent.
pub open spec fn list_of(m: Map<Seq<char>, Seq<Seq<char>>>, k: Seq<char>) -> Seq<Seq<char>> {
    if m.contains_key(k) {
        m[k]
    } else {
        Seq::empty()
    }
}

pub open spec fn followers_of(v: StoreView, u: Seq<char>) -> Seq<Seq<char>> {
    list_of(v.followers, u)
}

pub open spec fn following_of(v: StoreView, u: Seq<char>) -> Seq<Seq<char>> {
    list_of(v.following, u)
}

pub open spec fn post_likers_of(v: StoreView, p: Seq<char>) -> Seq<Seq<char>> {
    list_of(v.post_likes, p)
}

pub open spec fn comment_likers_of(v: StoreView, c: Seq<char>) -> Seq<Seq<char>> {
    list_of(v.comment_likes, c)
}

pub open spec fn posts_idx_of(v: StoreView, u: Seq<char>) -> Seq<Seq<char>> {
    list_of(v.user_posts, u)
}

pub open spec fn comments_idx_of(v: StoreView, p: Seq<char>) -> Seq<Seq<char>> {
    list_of(v.post_comments, p)
}

/// Every value of a list map is duplicate-free.
pub open spec fn lists_no_dup(m: Map<Seq<char>, Seq<Seq<char>>>) -> bool {
    forall|k: Seq<char>| #[trigger] m.contains_key(k) ==> m[k].no_duplicates()
}

/// One profile's bookkeeping is right: its key is its identity and its
/// counters equal the cardinalities of its backing collections.
pub open spec fn user_ok(v: StoreView, u: Seq<char>) -> bool {
    &&& v.users[u].id == u
    &&& v.users[u].followers_count == followers_of(v, u).len()
    &&& v.users[u].following_count == following_of(v, u).len()
    &&& v.users[u].posts_count == posts_idx_of(v, u).len()
}

/// Counters on profiles equal the cardinalities of their backing
/// collections, and a profile's key is its identity.
pub open spec fn inv_users(v: StoreView) -> bool {
    forall|u: Seq<char>| #[trigger] v.users.contains_key(u) ==> user_ok(v, u)
}

/// One post's bookkeeping is right.
pub open spec fn post_ok(v: StoreView, p: Seq<char>) -> bool {
    &&& v.posts[p].id == p
    &&& v.posts[p].likes_count == post_likers_of(v, p).len()
    &&& v.posts[p].comments_count == comments_idx_of(v, p).len()
}

/// Counters on posts equal the cardinalities of their backing collections.
pub open spec fn inv_posts(v: StoreView) -> bool {
    forall|p: Seq<char>| #[trigger] v.posts.contains_key(p) ==> post_ok(v, p)
}

/// One comment's bookkeeping is right.
pub open spec fn comment_ok(v: StoreView, c: Seq<char>) -> bool {
    &&& v.comments[c].id == c
    &&& v.comments[c].likes_count == comment_likers_of(v, c).len()
}

/// Counters on comments equal the cardinality of their likers.
pub open spec fn inv_comments(v: StoreView) -> bool {
    forall|c: Seq<char>| #[trigger] v.comments.contains_key(c) ==> comment_ok(v, c)
}

/// The two follow indices are two views of one edge set.
pub open spec fn inv_mirror(v: StoreView) -> bool {
    forall|a: Seq<char>, b: Seq<char>|
        #[trigger] following_of(v, a).contains(b) <==> #[trigger] followers_of(v, b).contains(a)
}

/// Nobody follows themselves.
pub open spec fn inv_no_self(v: StoreView) -> bool {
    forall|a: Seq<char>| !(#[trigger] following_of(v, a)).contains(a)
}

/// The author index points at existing posts of that author, and every
/// post is in its author's index.
pub open spec fn inv_posts_idx(v: StoreView) -> bool {
    &&& forall|u: Seq<char>, i: int|
        #![trigger posts_idx_of(v, u)[i]]
        0 <= i < posts_idx_of(v, u).len() ==> v.posts.contains_key(posts_idx_of(v, u)[i])
            && v.posts[posts_idx_of(v, u)[i]].author == u
    &&& forall|p: Seq<char>| #[trigger] v.posts.contains_key(p) ==> posts_idx_of(
        v,
        v.posts[p].author,
    ).contains(p)
}

/// The comment index points at existing comments of that post, and every
/// comment is in its post's index.
pub open spec fn inv_comments_idx(v: StoreView) -> bool {
    &&& forall|p: Seq<char>, i: int|
        #![trigger comments_idx_of(v, p)[i]]
        0 <= i < comments_idx_of(v, p).len() ==> v.comments.contains_key(comments_idx_of(v, p)[i])
            && v.comments[comments_idx_of(v, p)[i]].post_id == p
    &&& forall|c: Seq<char>| #[trigger] v.comments.contains_key(c) ==> comments_idx_of(
        v,
        v.comments[c].post_id,
    ).contains(c)
}

/// The consistency invariant: counters equal the cardinalities of their
/// backing collections, the two follow indices mirror one another, edge
/// sets and indexes are duplicate-free, and the id indexes point at
/// existing entities of the right owner.
pub open spec fn inv(v: StoreView) -> bool {
    &&& inv_users(v)
    &&& inv_posts(v)
    &&& inv_comments(v)
    &&& inv_mirror(v)
    &&& inv_no_self(v)
    &&& lists_no_dup(v.followers)
    &&& lists_no_dup(v.following)
    &&& lists_no_dup(v.post_likes)
    &&& lists_no_dup(v.comment_likes)
    &&& lists_no_dup(v.user_posts)
    &&& lists_no_dup(v.post_comments)
    &&& inv_posts_idx(v)
    &&& inv_comments_idx(v)
}

/// The empty store.
pub open spec fn empty_store() -> StoreView {
    StoreView {
        users: Map::empty(),
        posts: Map::empty(),
        comments: Map::empty(),
        followers: Map::empty(),
        following: Map::empty(),
        post_likes: Map::empty(),
        comment_likes: Map::empty(),
        user_posts: Map::empty(),
        post_comments: Map::empty(),
    }
}

/// Id of a post created at `now`.
pub open spec fn post_id(now: u64) -> Seq<char> {
    id_seq("post"@, now)
}

/// Id of a shared post created at `now`.
pub open spec fn shared_post_id(now: u64) -> Seq<char> {
    id_seq("shared_post"@, now)
}

/// Id of a comment created at `now`.
pub open spec fn comment_id(now: u64) -> Seq<char> {
    id_seq("comment"@, now)
}

/// A post id may be used only while nothing in the store mentions it: no
/// post, no likers entry, no comment index. Ids are never reused.
pub open spec fn post_id_unused(v: StoreView, id: Seq<char>) -> bool {
    &&& !v.posts.contains_key(id)
    &&& !v.post_likes.contains_key(id)
    &&& !v.post_comments.contains_key(id)
}

/// A comment id may be used only while nothing in the store mentions it.
pub open spec fn comment_id_unused(v: StoreView, id: Seq<char>) -> bool {
    &&& !v.comments.contains_key(id)
    &&& !v.comment_likes.contains_key(id)
}

/// The default username derived from an identity.
pub open spec fn default_username(c: Seq<char>) -> Seq<char> {
    "user_"@ + c.take(spec_min(8, c.len() as int))
}

/// The profile that creation builds: explicit fields, defaults for the
/// rest, counters equal to whatever the relationship collections already
/// hold for this identity.
pub open spec fn new_profile(
    v: StoreView,
    c: Seq<char>,
    req: UpdateProfileReqView,
    now: u64,
) -> ProfileView {
    ProfileView {
        id: c,
        username: match req.username {
            Some(u) => u,
            None => default_username(c),
        },
        name: match req.name {
            Some(n) => n,
            None => "Anonymous User"@,
        },
        bio: match req.bio {
            Some(b) => b,
            None => Seq::empty(),
        },
        profile_photo: req.profile_photo,
        cover_photo: req.cover_photo,
        followers_count: followers_of(v, c).len(),
        following_count: following_of(v, c).len(),
        posts_count: posts_idx_of(v, c).len(),
        created_at: now,
    }
}

/// Creating a profile; a no-op when the caller already has one.
pub open spec fn create_profile_t(
    v: StoreView,
    c: Seq<char>,
    req: UpdateProfileReqView,
    now: u64,
) -> StoreView {
    if v.users.contains_key(c) {
        v
    } else {
        StoreView { users: v.users.insert(c, new_profile(v, c, req, now)), ..v }
    }
}

/// A profile with the request's present fields applied.
pub open spec fn applied_profile(p: ProfileView, req: UpdateProfileReqView) -> ProfileView {
    ProfileView {
        username: match req.username {
            Some(u) => u,
            None => p.username,
        },
        name: match req.name {
            Some(n) => n,
            None => p.name,
        },
        bio: match req.bio {
            Some(b) => b,
            None => p.bio,
        },
        profile_photo: match req.profile_photo {
            Some(b) => Some(b),
            None => p.profile_photo,
        },
        cover_photo: match req.cover_photo {
            Some(b) => Some(b),
            None => p.cover_photo,
        },
        ..p
    }
}

/// Partial profile update; a no-op when the caller has no profile.
pub open spec fn update_profile_t(v: StoreView, c: Seq<char>, req: UpdateProfileReqView) -> StoreView {
    if v.users.contains_key(c) {
        StoreView { users: v.users.insert(c, applied_profile(v.users[c], req)), ..v }
    } else {
        v
    }
}

/// Sets an existing profile's following counter; a no-op on absent keys.
pub open spec fn set_following_count(
    users: Map<Seq<char>, ProfileView>,
    u: Seq<char>,
    n: nat,
) -> Map<Seq<char>, ProfileView> {
    if users.contains_key(u) {
        users.insert(u, ProfileView { following_count: n, ..users[u] })
    } else {
        users
    }
}

/// Sets an existing profile's followers counter; a no-op on absent keys.
pub open spec fn set_followers_count(
    users: Map<Seq<char>, ProfileView>,
    u: Seq<char>,
    n: nat,
) -> Map<Seq<char>, ProfileView> {
    if users.contains_key(u) {
        users.insert(u, ProfileView { followers_count: n, ..users[u] })
    } else {
        users
    }
}

/// Sets an existing profile's posts counter; a no-op on absent keys.
pub open spec fn set_posts_count(
    users: Map<Seq<char>, ProfileView>,
    u: Seq<char>,
    n: nat,
) -> Map<Seq<char>, ProfileView> {
    if users.contains_key(u) {
        users.insert(u, ProfileView { posts_count: n, ..users[u] })
    } else {
        users
    }
}

/// Sets an existing post's like counter; a no-op on absent keys.
pub open spec fn set_post_likes_count(
    posts: Map<Seq<char>, PostView>,
    p: Seq<char>,
    n: nat,
) -> Map<Seq<char>, PostView> {
    if posts.contains_key(p) {
        posts.insert(p, PostView { likes_count: n, ..posts[p] })
    } else {
        posts
    }
}

/// Sets an existing post's comment counter; a no-op on absent keys.
pub open spec fn set_post_comments_count(
    posts: Map<Seq<char>, PostView>,
    p: Seq<char>,
    n: nat,
) -> Map<Seq<char>, PostView> {
    if posts.contains_key(p) {
        posts.insert(p, PostView { comments_count: n, ..posts[p] })
    } else {
        posts
    }
}

/// Sets an existing comment's like counter; a no-op on absent keys.
pub open spec fn set_comment_likes_count(
    comments: Map<Seq<char>, CommentView>,
    c: Seq<char>,
    n: nat,
) -> Map<Seq<char>, CommentView> {
    if comments.contains_key(c) {
        comments.insert(c, CommentView { likes_count: n, ..comments[c] })
    } else {
        comments
    }
}

/// Whether `follow` reports success: everything but a self-follow.
pub open spec fn follow_ok(c: Seq<char>, t: Seq<char>) -> bool {
    c != t
}

/// Following: inserts the edge on both sides and refreshes both counters;
/// a complete no-op on a self-follow or an existing edge.
pub open spec fn follow_t(v: StoreView, c: Seq<char>, t: Seq<char>) -> StoreView {
    if c == t || following_of(v, c).contains(t) {
        v
    } else {
        let fw = following_of(v, c).push(t);
        let fr = followers_of(v, t).push(c);
        StoreView {
            following: v.following.insert(c, fw),
            followers: v.followers.insert(t, fr),
            users: set_followers_count(set_following_count(v.users, c, fw.len()), t, fr.len()),
            ..v
        }
    }
}

/// Whether `unfollow` reports success: the edge was present on both sides.
pub open spec fn unfollow_ok(v: StoreView, c: Seq<char>, t: Seq<char>) -> bool {
    following_of(v, c).contains(t) && followers_of(v, t).contains(c)
}

/// Unfollowing: removes the edge from both sides and refreshes both
/// counters, or does nothing at all when the edge was absent.
pub open spec fn unfollow_t(v: StoreView, c: Seq<char>, t: Seq<char>) -> StoreView {
    if unfollow_ok(v, c, t) {
        let fw = seq_remove(following_of(v, c), t);
        let fr = seq_remove(followers_of(v, t), c);
        StoreView {
            following: v.following.insert(c, fw),
            followers: v.followers.insert(t, fr),
            users: set_followers_count(set_following_count(v.users, c, fw.len()), t, fr.len()),
            ..v
        }
    } else {
        v
    }
}

/// Liking a post: adds the caller to the likers and refreshes the post's
/// counter; a no-op when the caller already likes it. The likers entry is
/// kept even for a post id that does not exist.
pub open spec fn like_post_t(v: StoreView, c: Seq<char>, p: Seq<char>) -> StoreView {
    if post_likers_of(v, p).contains(c) {
        v
    } else {
        let ls = post_likers_of(v, p).push(c);
        StoreView {
            post_likes: v.post_likes.insert(p, ls),
            posts: set_post_likes_count(v.posts, p, ls.len()),
            ..v
        }
    }
}

/// Unliking a post: the exact reverse of liking, or a no-op.
pub open spec fn unlike_post_t(v: StoreView, c: Seq<char>, p: Seq<char>) -> StoreView {
    if post_likers_of(v, p).contains(c) {
        let ls = seq_remove(post_likers_of(v, p), c);
        StoreView {
            post_likes: v.post_likes.insert(p, ls),
            posts: set_post_likes_count(v.posts, p, ls.len()),
            ..v
        }
    } else {
        v
    }
}

/// Liking a comment.
pub open spec fn like_comment_t(v: StoreView, c: Seq<char>, id: Seq<char>) -> StoreView {
    if comment_likers_of(v, id).contains(c) {
        v
    } else {
        let ls = comment_likers_of(v, id).push(c);
        StoreView {
            comment_likes: v.comment_likes.insert(id, ls),
            comments: set_comment_likes_count(v.comments, id, ls.len()),
            ..v
        }
    }
}

/// Unliking a comment.
pub open spec fn unlike_comment_t(v: StoreView, c: Seq<char>, id: Seq<char>) -> StoreView {
    if comment_likers_of(v, id).contains(c) {
        let ls = seq_remove(comment_likers_of(v, id), c);
        StoreView {
            comment_likes: v.comment_likes.insert(id, ls),
            comments: set_comment_likes_count(v.comments, id, ls.len()),
            ..v
        }
    } else {
        v
    }
}

/// The post that creation builds.
pub open spec fn new_post(c: Seq<char>, req: CreatePostReqView, now: u64) -> PostView {
    PostView {
        id: post_id(now),
        author: c,
        content: req.content,
        media: req.media,
        media_type: req.media_type,
        likes_count: 0,
        comments_count: 0,
        shares_count: 0,
        created_at: now,
        updated_at: now,
    }
}

/// Creating a post: stores it, appends it to the author's index, and
/// refreshes the author's counter when a profile exists.
pub open spec fn create_post_t(
    v: StoreView,
    c: Seq<char>,
    req: CreatePostReqView,
    now: u64,
) -> StoreView {
    let id = post_id(now);
    let idx = posts_idx_of(v, c).push(id);
    StoreView {
        posts: v.posts.insert(id, new_post(c, req, now)),
        user_posts: v.user_posts.insert(c, idx),
        users: set_posts_count(v.users, c, idx.len()),
        ..v
    }
}

/// Whether deleting a post succeeds: it exists and the caller wrote it.
pub open spec fn delete_post_ok(v: StoreView, c: Seq<char>, p: Seq<char>) -> bool {
    v.posts.contains_key(p) && v.posts[p].author == c
}

/// Deleting a post: removes it from the content map and the author's
/// index and refreshes the author's counter. Comments and likes of the
/// post survive as orphans, mirroring the store's documented tolerance.
pub open spec fn delete_post_t(v: StoreView, c: Seq<char>, p: Seq<char>) -> StoreView {
    if delete_post_ok(v, c, p) {
        let idx = seq_remove(posts_idx_of(v, c), p);
        StoreView {
            posts: v.posts.remove(p),
            user_posts: v.user_posts.insert(c, idx),
            users: set_posts_count(v.users, c, idx.len()),
            ..v
        }
    } else {
        v
    }
}

/// The prefix a shared post's content carries.
pub open spec fn shared_content(orig: Seq<char>) -> Seq<char> {
    "Shared: "@ + orig
}

/// The post that sharing builds: the caller's own fresh post, carrying
/// the original's content behind a marker prefix and the same media.
pub open spec fn new_shared_post(v: StoreView, c: Seq<char>, orig_id: Seq<char>, now: u64) -> PostView {
    PostView {
        id: shared_post_id(now),
        author: c,
        content: shared_content(v.posts[orig_id].content),
        media: v.posts[orig_id].media,
        media_type: v.posts[orig_id].media_type,
        likes_count: 0,
        comments_count: 0,
        shares_count: 0,
        created_at: now,
        updated_at: now,
    }
}

/// Sharing a post: a fresh post owned by the caller, the original's
/// engagement counter bumped, the caller's index and counter refreshed.
pub open spec fn share_post_t(v: StoreView, c: Seq<char>, orig_id: Seq<char>, now: u64) -> StoreView {
    if !v.posts.contains_key(orig_id) {
        v
    } else {
        let orig = v.posts[orig_id];
        let id = shared_post_id(now);
        let pv = new_shared_post(v, c, orig_id, now);
        let idx = posts_idx_of(v, c).push(id);
        StoreView {
            posts: v.posts.insert(id, pv).insert(
                orig_id,
                PostView { shares_count: orig.shares_count + 1, ..orig },
            ),
            user_posts: v.user_posts.insert(c, idx),
            users: set_posts_count(v.users, c, idx.len()),
            ..v
        }
    }
}

/// The comment that creation builds.
pub open spec fn new_comment(c: Seq<char>, p: Seq<char>, content: Seq<char>, now: u64) -> CommentView {
    CommentView {
        id: comment_id(now),
        post_id: p,
        author: c,
        content: content,
        likes_count: 0,
        created_at: now,
    }
}

/// Creating a comment: stores it and appends it to the post's index even
/// when the post does not exist (the documented orphan tolerance); the
/// post's counter is refreshed only when the post exists.
pub open spec fn create_comment_t(
    v: StoreView,
    c: Seq<char>,
    p: Seq<char>,
    content: Seq<char>,
    now: u64,
) -> StoreView {
    let id = comment_id(now);
    let idx = comments_idx_of(v, p).push(id);
    StoreView {
        comments: v.comments.insert(id, new_comment(c, p, content, now)),
        post_comments: v.post_comments.insert(p, idx),
        posts: set_post_comments_count(v.posts, p, idx.len()),
        ..v
    }
}

/// Whether deleting a comment succeeds: it exists and the caller wrote it.
pub open spec fn delete_comment_ok(v: StoreView, c: Seq<char>, id: Seq<char>) -> bool {
    v.comments.contains_key(id) && v.comments[id].author == c
}

/// Deleting a comment: removes it and its index entry and refreshes the
/// owning post's counter when that post exists.
pub open spec fn delete_comment_t(v: StoreView, c: Seq<char>, id: Seq<char>) -> StoreView {
    if delete_comment_ok(v, c, id) {
        let p = v.comments[id].post_id;
        let idx = seq_remove(comments_idx_of(v, p), id);
        StoreView {
            comments: v.comments.remove(id),
            post_comments: v.post_comments.insert(p, idx),
            posts: set_post_comments_count(v.posts, p, idx.len()),
            ..v
        }
    } else {
        v
    }
}



/// Membership in a pushed list.
pub proof fn lemma_push_contains(s: Seq<Seq<char>>, x: Seq<char>)
    ensures
        forall|y: Seq<char>| #[trigger] s.push(x).contains(y) <==> (s.contains(y) || y == x),
{
    assert forall|y: Seq<char>| #[trigger] s.push(x).contains(y) implies (s.contains(y) || y
        == x) by {
        let i = choose|i: int| 0 <= i < s.push(x).len() && s.push(x)[i] == y;
        if i < s.len() {
            assert(s[i] == y);
        }
    }
    assert forall|y: Seq<char>| (s.contains(y) || y == x) implies #[trigger] s.push(x).contains(
        y,
    ) by {
        if s.contains(y) {
            let i = choose|i: int| 0 <= i < s.len() && s[i] == y;
            assert(s.push(x)[i] == y);
        } else {
            assert(s.push(x)[s.len() as int] == y);
        }
    }
}

/// Pushing a new element keeps a list duplicate-free.
pub proof fn lemma_push_no_dup(s: Seq<Seq<char>>, x: Seq<char>)
    requires
        s.no_duplicates(),
        !s.contains(x),
    ensures
        s.push(x).no_duplicates(),
{
    assert forall|a: int, b: int| 0 <= a < b < s.push(x).len() implies s.push(x)[a] != s.push(
        x,
    )[b] by {
        if b == s.len() {
            assert(s.push(x)[a] == s[a]);
            assert(s.contains(s[a]));
        } else {
            assert(s.push(x)[a] == s[a]);
            assert(s.push(x)[b] == s[b]);
        }
    }
}

/// The empty store satisfies the invariant.
pub proof fn lemma_empty_inv()
    ensures
        inv(empty_store()),
{
}

proof fn lemma_users_carry(v: StoreView, w: StoreView)
    requires
        inv_users(v),
        w.users == v.users,
        w.followers == v.followers,
        w.following == v.following,
        w.user_posts == v.user_posts,
    ensures
        inv_users(w),
{
    assert forall|u: Seq<char>| #[trigger] w.users.contains_key(u) implies user_ok(w, u) by {
        assert(v.users.contains_key(u));
        assert(followers_of(w, u) == followers_of(v, u));
        assert(following_of(w, u) == following_of(v, u));
        assert(posts_idx_of(w, u) == posts_idx_of(v, u));
    }
}

proof fn lemma_posts_carry(v: StoreView, w: StoreView)
    requires
        inv_posts(v),
        w.posts == v.posts,
        w.post_likes == v.post_likes,
        w.post_comments == v.post_comments,
    ensures
        inv_posts(w),
{
    assert forall|p: Seq<char>| #[trigger] w.posts.contains_key(p) implies post_ok(w, p) by {
        assert(v.posts.contains_key(p));
        assert(post_likers_of(w, p) == post_likers_of(v, p));
        assert(comments_idx_of(w, p) == comments_idx_of(v, p));
    }
}

proof fn lemma_comments_carry(v: StoreView, w: StoreView)
    requires
        inv_comments(v),
        w.comments == v.comments,
        w.comment_likes == v.comment_likes,
    ensures
        inv_comments(w),
{
    assert forall|c: Seq<char>| #[trigger] w.comments.contains_key(c) implies comment_ok(w, c) by {
        assert(v.comments.contains_key(c));
        assert(comment_likers_of(w, c) == comment_likers_of(v, c));
    }
}

proof fn lemma_mirror_carry(v: StoreView, w: StoreView)
    requires
        inv_mirror(v),
        w.followers == v.followers,
        w.following == v.following,
    ensures
        inv_mirror(w),
{
    assert forall|a: Seq<char>, b: Seq<char>| #[trigger] following_of(w, a).contains(b)
        <==> #[trigger] followers_of(w, b).contains(a) by {
        assert(following_of(w, a) == following_of(v, a));
        assert(followers_of(w, b) == followers_of(v, b));
    }
}

proof fn lemma_no_self_carry(v: StoreView, w: StoreView)
    requires
        inv_no_self(v),
        w.following == v.following,
    ensures
        inv_no_self(w),
{
    assert forall|a: Seq<char>| !(#[trigger] following_of(w, a)).contains(a) by {
        assert(following_of(w, a) == following_of(v, a));
    }
}

proof fn lemma_posts_idx_carry(v: StoreView, w: StoreView)
    requires
        inv_posts_idx(v),
        w.user_posts == v.user_posts,
        forall|p: Seq<char>| #[trigger] w.posts.contains_key(p) <==> v.posts.contains_key(p),
        forall|p: Seq<char>|
            w.posts.contains_key(p) ==> (#[trigger] w.posts[p]).author == v.posts[p].author,
    ensures
        inv_posts_idx(w),
{
    assert forall|u: Seq<char>, i: int|
        #![trigger posts_idx_of(w, u)[i]]
        0 <= i < posts_idx_of(w, u).len() implies w.posts.contains_key(posts_idx_of(w, u)[i])
        && w.posts[posts_idx_of(w, u)[i]].author == u by {
        assert(posts_idx_of(w, u) == posts_idx_of(v, u));
        assert(v.posts.contains_key(posts_idx_of(v, u)[i]));
    }
    assert forall|p: Seq<char>| #[trigger] w.posts.contains_key(p) implies posts_idx_of(
        w,
        w.posts[p].author,
    ).contains(p) by {
        assert(v.posts.contains_key(p));
        assert(w.posts[p].author == v.posts[p].author);
        assert(posts_idx_of(w, v.posts[p].author) == posts_idx_of(v, v.posts[p].author));
    }
}

proof fn lemma_comments_idx_carry(v: StoreView, w: StoreView)
    requires
        inv_comments_idx(v),
        w.post_comments == v.post_comments,
        forall|c: Seq<char>| #[trigger] w.comments.contains_key(c) <==> v.comments.contains_key(c),
        forall|c: Seq<char>|
            w.comments.contains_key(c) ==> (#[trigger] w.comments[c]).post_id
                == v.comments[c].post_id,
    ensures
        inv_comments_idx(w),
{
    assert forall|p: Seq<char>, i: int|
        #![trigger comments_idx_of(w, p)[i]]
        0 <= i < comments_idx_of(w, p).len() implies w.comments.contains_key(
        comments_idx_of(w, p)[i],
    ) && w.comments[comments_idx_of(w, p)[i]].post_id == p by {
        assert(comments_idx_of(w, p) == comments_idx_of(v, p));
        assert(v.comments.contains_key(comments_idx_of(v, p)[i]));
    }
    assert forall|c: Seq<char>| #[trigger] w.comments.contains_key(c) implies comments_idx_of(
        w,
        w.comments[c].post_id,
    ).contains(c) by {
        assert(v.comments.contains_key(c));
        assert(w.comments[c].post_id == v.comments[c].post_id);
        assert(comments_idx_of(w, v.comments[c].post_id) == comments_idx_of(
            v,
            v.comments[c].post_id,
        ));
    }
}

/// Creating a profile preserves the invariant.
pub proof fn lemma_create_profile_inv(
    v: StoreView,
    c: Seq<char>,
    req: UpdateProfileReqView,
    now: u64,
)
    requires
        inv(v),
    ensures
        inv(create_profile_t(v, c, req, now)),
{
    let w = create_profile_t(v, c, req, now);
    if !v.users.contains_key(c) {
        assert forall|u: Seq<char>| #[trigger] w.users.contains_key(u) implies user_ok(w, u) by {
            assert(followers_of(w, u) == followers_of(v, u));
            assert(following_of(w, u) == following_of(v, u));
            assert(posts_idx_of(w, u) == posts_idx_of(v, u));
            if u == c {
                assert(w.users[u] == new_profile(v, c, req, now));
            } else {
                assert(v.users.contains_key(u));
                assert(w.users[u] == v.users[u]);
            }
        }
        lemma_posts_carry(v, w);
        lemma_comments_carry(v, w);
        lemma_mirror_carry(v, w);
        lemma_no_self_carry(v, w);
        lemma_posts_idx_carry(v, w);
        lemma_comments_idx_carry(v, w);
    }
}

/// Updating a profile preserves the invariant.
pub proof fn lemma_update_profile_inv(v: StoreView, c: Seq<char>, req: UpdateProfileReqView)
    requires
        inv(v),
    ensures
        inv(update_profile_t(v, c, req)),
{
    let w = update_profile_t(v, c, req);
    if v.users.contains_key(c) {
        assert forall|u: Seq<char>| #[trigger] w.users.contains_key(u) implies user_ok(w, u) by {
            assert(v.users.contains_key(u));
            assert(followers_of(w, u) == followers_of(v, u));
            assert(following_of(w, u) == following_of(v, u));
            assert(posts_idx_of(w, u) == posts_idx_of(v, u));
            if u == c {
                assert(w.users[u] == applied_profile(v.users[c], req));
            } else {
                assert(w.users[u] == v.users[u]);
            }
        }
        lemma_posts_carry(v, w);
        lemma_comments_carry(v, w);
        lemma_mirror_carry(v, w);
        lemma_no_self_carry(v, w);
        lemma_posts_idx_carry(v, w);
        lemma_comments_idx_carry(v, w);
    }
}

/// Following preserves the invariant.
pub proof fn lemma_follow_inv(v: StoreView, c: Seq<char>, t: Seq<char>)
    requires
        inv(v),
    ensures
        inv(follow_t(v, c, t)),
{
    if c != t && !following_of(v, c).contains(t) {
        let w = follow_t(v, c, t);
        let fw = following_of(v, c).push(t);
        let fr = followers_of(v, t).push(c);
        assert(!followers_of(v, t).contains(c));
        lemma_push_contains(following_of(v, c), t);
        lemma_push_contains(followers_of(v, t), c);
        assert forall|u: Seq<char>| #[trigger] w.users.contains_key(u) implies user_ok(w, u) by {
            assert(v.users.contains_key(u));
            assert(posts_idx_of(w, u) == posts_idx_of(v, u));
            if u == c {
                assert(following_of(w, u) == fw);
                assert(followers_of(w, u) == followers_of(v, u));
                assert(w.users[u] == (ProfileView { following_count: fw.len(), ..v.users[c] }));
            } else if u == t {
                assert(following_of(w, u) == following_of(v, u));
                assert(followers_of(w, u) == fr);
                assert(w.users[u] == (ProfileView { followers_count: fr.len(), ..v.users[t] }));
            } else {
                assert(following_of(w, u) == following_of(v, u));
                assert(followers_of(w, u) == followers_of(v, u));
                assert(w.users[u] == v.users[u]);
            }
        }
        assert forall|a: Seq<char>, b: Seq<char>| #[trigger] following_of(w, a).contains(b)
            <==> #[trigger] followers_of(w, b).contains(a) by {
            if a != c {
                assert(following_of(w, a) == following_of(v, a));
            }
            if b != t {
                assert(followers_of(w, b) == followers_of(v, b));
            }
        }
        assert forall|a: Seq<char>| !(#[trigger] following_of(w, a)).contains(a) by {
            if a != c {
                assert(following_of(w, a) == following_of(v, a));
            }
        }
        assert(lists_no_dup(w.following)) by {
            assert forall|k: Seq<char>| #[trigger] w.following.contains_key(k) implies w.following[k].no_duplicates() by {
                if k == c {
                    lemma_push_no_dup(following_of(v, c), t);
                    assert(w.following[k] == fw);
                } else {
                    assert(w.following[k] == v.following[k]);
                }
            }
        }
        assert(lists_no_dup(w.followers)) by {
            assert forall|k: Seq<char>| #[trigger] w.followers.contains_key(k) implies w.followers[k].no_duplicates() by {
                if k == t {
                    lemma_push_no_dup(followers_of(v, t), c);
                    assert(w.followers[k] == fr);
                } else {
                    assert(w.followers[k] == v.followers[k]);
                }
            }
        }
        lemma_posts_carry(v, w);
        lemma_comments_carry(v, w);
        lemma_posts_idx_carry(v, w);
        lemma_comments_idx_carry(v, w);
    }
}

/// Unfollowing preserves the invariant.
pub proof fn lemma_unfollow_inv(v: StoreView, c: Seq<char>, t: Seq<char>)
    requires
        inv(v),
    ensures
        inv(unfollow_t(v, c, t)),
{
    if unfollow_ok(v, c, t) {
        let w = unfollow_t(v, c, t);
        let fw = seq_remove(following_of(v, c), t);
        let fr = seq_remove(followers_of(v, t), c);
        assert(c != t) by {
            assert(following_of(v, c).contains(t));
        }
        assert(following_of(v, c).no_duplicates());
        assert(followers_of(v, t).no_duplicates());
        crate::sset::lemma_seq_remove_len(following_of(v, c), t);
        crate::sset::lemma_seq_remove_len(followers_of(v, t), c);
        crate::sset::lemma_seq_remove_no_dup(following_of(v, c), t);
        crate::sset::lemma_seq_remove_no_dup(followers_of(v, t), c);
        assert forall|u: Seq<char>| #[trigger] w.users.contains_key(u) implies user_ok(w, u) by {
            assert(v.users.contains_key(u));
            assert(posts_idx_of(w, u) == posts_idx_of(v, u));
            if u == c {
                assert(following_of(w, u) == fw);
                assert(followers_of(w, u) == followers_of(v, u));
                assert(w.users[u] == (ProfileView { following_count: fw.len(), ..v.users[c] }));
            } else if u == t {
                assert(following_of(w, u) == following_of(v, u));
                assert(followers_of(w, u) == fr);
                assert(w.users[u] == (ProfileView { followers_count: fr.len(), ..v.users[t] }));
            } else {
                assert(following_of(w, u) == following_of(v, u));
                assert(followers_of(w, u) == followers_of(v, u));
                assert(w.users[u] == v.users[u]);
            }
        }
        assert forall|a: Seq<char>, b: Seq<char>| #[trigger] following_of(w, a).contains(b)
            <==> #[trigger] followers_of(w, b).contains(a) by {
            crate::sset::lemma_seq_remove_contains(following_of(v, c), t, b);
            crate::sset::lemma_seq_remove_contains(followers_of(v, t), c, a);
            if a != c {
                assert(following_of(w, a) == following_of(v, a));
            }
            if b != t {
                assert(followers_of(w, b) == followers_of(v, b));
            }
        }
        assert forall|a: Seq<char>| !(#[trigger] following_of(w, a)).contains(a) by {
            crate::sset::lemma_seq_remove_contains(following_of(v, c), t, a);
            if a != c {
                assert(following_of(w, a) == following_of(v, a));
            }
        }
        assert(lists_no_dup(w.following)) by {
            assert forall|k: Seq<char>| #[trigger] w.following.contains_key(k) implies w.following[k].no_duplicates() by {
                if k == c {
                    assert(w.following[k] == fw);
                } else {
                    assert(w.following[k] == v.following[k]);
                }
            }
        }
        assert(lists_no_dup(w.followers)) by {
            assert forall|k: Seq<char>| #[trigger] w.followers.contains_key(k) implies w.followers[k].no_duplicates() by {
                if k == t {
                    assert(w.followers[k] == fr);
                } else {
                    assert(w.followers[k] == v.followers[k]);
                }
            }
        }
        lemma_posts_carry(v, w);
        lemma_comments_carry(v, w);
        lemma_posts_idx_carry(v, w);
        lemma_comments_idx_carry(v, w);
    }
}


/// Liking a post preserves the invariant.
pub proof fn lemma_like_post_inv(v: StoreView, c: Seq<char>, p: Seq<char>)
    requires
        inv(v),
    ensures
        inv(like_post_t(v, c, p)),
{
    if !post_likers_of(v, p).contains(c) {
        let w = like_post_t(v, c, p);
        let ls = post_likers_of(v, p).push(c);
        lemma_push_contains(post_likers_of(v, p), c);
        assert forall|q: Seq<char>| #[trigger] w.posts.contains_key(q) implies post_ok(w, q) by {
            assert(v.posts.contains_key(q));
            assert(comments_idx_of(w, q) == comments_idx_of(v, q));
            if q == p {
                assert(post_likers_of(w, q) == ls);
                assert(w.posts[q] == (PostView { likes_count: ls.len(), ..v.posts[p] }));
            } else {
                assert(post_likers_of(w, q) == post_likers_of(v, q));
                assert(w.posts[q] == v.posts[q]);
            }
        }
        assert(lists_no_dup(w.post_likes)) by {
            assert forall|k: Seq<char>| #[trigger] w.post_likes.contains_key(k) implies w.post_likes[k].no_duplicates() by {
                if k == p {
                    lemma_push_no_dup(post_likers_of(v, p), c);
                    assert(w.post_likes[k] == ls);
                } else {
                    assert(w.post_likes[k] == v.post_likes[k]);
                }
            }
        }
        assert(forall|q: Seq<char>| #[trigger] w.posts.contains_key(q) <==> v.posts.contains_key(
            q,
        ));
        assert(forall|q: Seq<char>|
            w.posts.contains_key(q) ==> (#[trigger] w.posts[q]).author == v.posts[q].author);
        lemma_users_carry(v, w);
        lemma_comments_carry(v, w);
        lemma_mirror_carry(v, w);
        lemma_no_self_carry(v, w);
        lemma_posts_idx_carry(v, w);
        lemma_comments_idx_carry(v, w);
    }
}

/// Unliking a post preserves the invariant.
pub proof fn lemma_unlike_post_inv(v: StoreView, c: Seq<char>, p: Seq<char>)
    requires
        inv(v),
    ensures
        inv(unlike_post_t(v, c, p)),
{
    if post_likers_of(v, p).contains(c) {
        let w = unlike_post_t(v, c, p);
        let ls = seq_remove(post_likers_of(v, p), c);
        assert(post_likers_of(v, p).no_duplicates());
        crate::sset::lemma_seq_remove_len(post_likers_of(v, p), c);
        crate::sset::lemma_seq_remove_no_dup(post_likers_of(v, p), c);
        assert forall|q: Seq<char>| #[trigger] w.posts.contains_key(q) implies post_ok(w, q) by {
            assert(v.posts.contains_key(q));
            assert(comments_idx_of(w, q) == comments_idx_of(v, q));
            if q == p {
                assert(post_likers_of(w, q) == ls);
                assert(w.posts[q] == (PostView { likes_count: ls.len(), ..v.posts[p] }));
            } else {
                assert(post_likers_of(w, q) == post_likers_of(v, q));
                assert(w.posts[q] == v.posts[q]);
            }
        }
        assert(lists_no_dup(w.post_likes)) by {
            assert forall|k: Seq<char>| #[trigger] w.post_likes.contains_key(k) implies w.post_likes[k].no_duplicates() by {
                if k == p {
                    assert(w.post_likes[k] == ls);
                } else {
                    assert(w.post_likes[k] == v.post_likes[k]);
                }
            }
        }
        assert(forall|q: Seq<char>| #[trigger] w.posts.contains_key(q) <==> v.posts.contains_key(
            q,
        ));
        assert(forall|q: Seq<char>|
            w.posts.contains_key(q) ==> (#[trigger] w.posts[q]).author == v.posts[q].author);
        lemma_users_carry(v, w);
        lemma_comments_carry(v, w);
        lemma_mirror_carry(v, w);
        lemma_no_self_carry(v, w);
        lemma_posts_idx_carry(v, w);
        lemma_comments_idx_carry(v, w);
    }
}

/// Liking a comment preserves the invariant.
pub proof fn lemma_like_comment_inv(v: StoreView, c: Seq<char>, id: Seq<char>)
    requires
        inv(v),
    ensures
        inv(like_comment_t(v, c, id)),
{
    if !comment_likers_of(v, id).contains(c) {
        let w = like_comment_t(v, c, id);
        let ls = comment_likers_of(v, id).push(c);
        lemma_push_contains(comment_likers_of(v, id), c);
        assert forall|q: Seq<char>| #[trigger] w.comments.contains_key(q) implies comment_ok(
            w,
            q,
        ) by {
            assert(v.comments.contains_key(q));
            if q == id {
                assert(comment_likers_of(w, q) == ls);
                assert(w.comments[q] == (CommentView { likes_count: ls.len(), ..v.comments[id] }));
            } else {
                assert(comment_likers_of(w, q) == comment_likers_of(v, q));
                assert(w.comments[q] == v.comments[q]);
            }
        }
        assert(lists_no_dup(w.comment_likes)) by {
            assert forall|k: Seq<char>| #[trigger] w.comment_likes.contains_key(k) implies w.comment_likes[k].no_duplicates() by {
                if k == id {
                    lemma_push_no_dup(comment_likers_of(v, id), c);
                    assert(w.comment_likes[k] == ls);
                } else {
                    assert(w.comment_likes[k] == v.comment_likes[k]);
                }
            }
        }
        assert(forall|q: Seq<char>| #[trigger] w.comments.contains_key(q)
            <==> v.comments.contains_key(q));
        assert(forall|q: Seq<char>|
            w.comments.contains_key(q) ==> (#[trigger] w.comments[q]).post_id
                == v.comments[q].post_id);
        lemma_users_carry(v, w);
        lemma_posts_carry(v, w);
        lemma_mirror_carry(v, w);
        lemma_no_self_carry(v, w);
        lemma_posts_idx_carry(v, w);
        lemma_comments_idx_carry(v, w);
    }
}

/// Unliking a comment preserves the invariant.
pub proof fn lemma_unlike_comment_inv(v: StoreView, c: Seq<char>, id: Seq<char>)
    requires
        inv(v),
    ensures
        inv(unlike_comment_t(v, c, id)),
{
    if comment_likers_of(v, id).contains(c) {
        let w = unlike_comment_t(v, c, id);
        let ls = seq_remove(comment_likers_of(v, id), c);
        assert(comment_likers_of(v, id).no_duplicates());
        crate::sset::lemma_seq_remove_len(comment_likers_of(v, id), c);
        crate::sset::lemma_seq_remove_no_dup(comment_likers_of(v, id), c);
        assert forall|q: Seq<char>| #[trigger] w.comments.contains_key(q) implies comment_ok(
            w,
            q,
        ) by {
            assert(v.comments.contains_key(q));
            if q == id {
                assert(comment_likers_of(w, q) == ls);
                assert(w.comments[q] == (CommentView { likes_count: ls.len(), ..v.comments[id] }));
            } else {
                assert(comment_likers_of(w, q) == comment_likers_of(v, q));
                assert(w.comments[q] == v.comments[q]);
            }
        }
        assert(lists_no_dup(w.comment_likes)) by {
            assert forall|k: Seq<char>| #[trigger] w.comment_likes.contains_key(k) implies w.comment_likes[k].no_duplicates() by {
                if k == id {
                    assert(w.comment_likes[k] == ls);
                } else {
                    assert(w.comment_likes[k] == v.comment_likes[k]);
                }
            }
        }
        assert(forall|q: Seq<char>| #[trigger] w.comments.contains_key(q)
            <==> v.comments.contains_key(q));
        assert(forall|q: Seq<char>|
            w.comments.contains_key(q) ==> (#[trigger] w.comments[q]).post_id
                == v.comments[q].post_id);
        lemma_users_carry(v, w);
        lemma_posts_carry(v, w);
        lemma_mirror_carry(v, w);
        lemma_no_self_carry(v, w);
        lemma_posts_idx_carry(v, w);
        lemma_comments_idx_carry(v, w);
    }
}

/// Creating a post with an unused id preserves the invariant.
pub proof fn lemma_create_post_inv(v: StoreView, c: Seq<char>, req: CreatePostReqView, now: u64)
    requires
        inv(v),
        post_id_unused(v, post_id(now)),
    ensures
        inv(create_post_t(v, c, req, now)),
{
    let w = create_post_t(v, c, req, now);
    let id = post_id(now);
    let idx0 = posts_idx_of(v, c);
    let idx = idx0.push(id);
    assert(!idx0.contains(id)) by {
        if idx0.contains(id) {
            let i = choose|i: int| 0 <= i < idx0.len() && idx0[i] == id;
            assert(v.posts.contains_key(posts_idx_of(v, c)[i]));
        }
    }
    assert(idx0.no_duplicates());
    lemma_push_no_dup(idx0, id);
    lemma_push_contains(idx0, id);
    assert forall|u: Seq<char>| #[trigger] w.users.contains_key(u) implies user_ok(w, u) by {
        assert(v.users.contains_key(u));
        assert(followers_of(w, u) == followers_of(v, u));
        assert(following_of(w, u) == following_of(v, u));
        if u == c {
            assert(posts_idx_of(w, u) == idx);
            assert(w.users[u] == (ProfileView { posts_count: idx.len(), ..v.users[c] }));
        } else {
            assert(posts_idx_of(w, u) == posts_idx_of(v, u));
            assert(w.users[u] == v.users[u]);
        }
    }
    assert forall|q: Seq<char>| #[trigger] w.posts.contains_key(q) implies post_ok(w, q) by {
        assert(post_likers_of(w, q) == post_likers_of(v, q));
        assert(comments_idx_of(w, q) == comments_idx_of(v, q));
        if q == id {
            assert(w.posts[q] == new_post(c, req, now));
        } else {
            assert(v.posts.contains_key(q));
            assert(w.posts[q] == v.posts[q]);
        }
    }
    assert forall|u: Seq<char>, i: int|
        #![trigger posts_idx_of(w, u)[i]]
        0 <= i < posts_idx_of(w, u).len() implies w.posts.contains_key(posts_idx_of(w, u)[i])
        && w.posts[posts_idx_of(w, u)[i]].author == u by {
        if u == c {
            assert(posts_idx_of(w, u) == idx);
            if i < idx0.len() {
                assert(idx[i] == idx0[i]);
                assert(v.posts.contains_key(posts_idx_of(v, c)[i]));
                assert(idx0[i] != id);
                assert(w.posts[idx0[i]] == v.posts[idx0[i]]);
            } else {
                assert(idx[i] == id);
            }
        } else {
            assert(posts_idx_of(w, u) == posts_idx_of(v, u));
            assert(v.posts.contains_key(posts_idx_of(v, u)[i]));
            assert(posts_idx_of(v, u)[i] != id);
        }
    }
    assert forall|q: Seq<char>| #[trigger] w.posts.contains_key(q) implies posts_idx_of(
        w,
        w.posts[q].author,
    ).contains(q) by {
        if q == id {
            assert(w.posts[q].author == c);
            assert(posts_idx_of(w, c) == idx);
            assert(idx.contains(id));
        } else {
            assert(v.posts.contains_key(q));
            assert(w.posts[q] == v.posts[q]);
            let a = v.posts[q].author;
            assert(posts_idx_of(v, a).contains(q));
            if a == c {
                assert(posts_idx_of(w, a) == idx);
            } else {
                assert(posts_idx_of(w, a) == posts_idx_of(v, a));
            }
        }
    }
    assert(lists_no_dup(w.user_posts)) by {
        assert forall|k: Seq<char>| #[trigger] w.user_posts.contains_key(k) implies w.user_posts[k].no_duplicates() by {
            if k == c {
                assert(w.user_posts[k] == idx);
            } else {
                assert(w.user_posts[k] == v.user_posts[k]);
            }
        }
    }
    assert(forall|q: Seq<char>| #[trigger] w.comments.contains_key(q) <==> v.comments.contains_key(
        q,
    ));
    assert(forall|q: Seq<char>|
        w.comments.contains_key(q) ==> (#[trigger] w.comments[q]).post_id == v.comments[q].post_id);
    lemma_comments_carry(v, w);
    lemma_mirror_carry(v, w);
    lemma_no_self_carry(v, w);
    lemma_comments_idx_carry(v, w);
}

/// Deleting a post preserves the invariant.
pub proof fn lemma_delete_post_inv(v: StoreView, c: Seq<char>, p: Seq<char>)
    requires
        inv(v),
    ensures
        inv(delete_post_t(v, c, p)),
{
    if delete_post_ok(v, c, p) {
        let w = delete_post_t(v, c, p);
        let idx0 = posts_idx_of(v, c);
        let idx = seq_remove(idx0, p);
        assert(idx0.no_duplicates());
        assert(idx0.contains(p));
        crate::sset::lemma_seq_remove_len(idx0, p);
        crate::sset::lemma_seq_remove_no_dup(idx0, p);
        assert forall|u: Seq<char>| #[trigger] w.users.contains_key(u) implies user_ok(w, u) by {
            assert(v.users.contains_key(u));
            assert(followers_of(w, u) == followers_of(v, u));
            assert(following_of(w, u) == following_of(v, u));
            if u == c {
                assert(posts_idx_of(w, u) == idx);
                assert(w.users[u] == (ProfileView { posts_count: idx.len(), ..v.users[c] }));
            } else {
                assert(posts_idx_of(w, u) == posts_idx_of(v, u));
                assert(w.users[u] == v.users[u]);
            }
        }
        assert forall|q: Seq<char>| #[trigger] w.posts.contains_key(q) implies post_ok(w, q) by {
            assert(v.posts.contains_key(q));
            assert(q != p);
            assert(post_likers_of(w, q) == post_likers_of(v, q));
            assert(comments_idx_of(w, q) == comments_idx_of(v, q));
            assert(w.posts[q] == v.posts[q]);
        }
        assert forall|u: Seq<char>, i: int|
            #![trigger posts_idx_of(w, u)[i]]
            0 <= i < posts_idx_of(w, u).len() implies w.posts.contains_key(posts_idx_of(w, u)[i])
            && w.posts[posts_idx_of(w, u)[i]].author == u by {
            if u == c {
                assert(posts_idx_of(w, u) == idx);
                let q = idx[i];
                assert(idx.contains(q));
                crate::sset::lemma_seq_remove_contains(idx0, p, q);
                assert(idx0.contains(q));
                let j = choose|j: int| 0 <= j < idx0.len() && idx0[j] == q;
                assert(v.posts.contains_key(posts_idx_of(v, c)[j]));
                assert(q != p);
            } else {
                assert(posts_idx_of(w, u) == posts_idx_of(v, u));
                assert(v.posts.contains_key(posts_idx_of(v, u)[i]));
                assert(v.posts[posts_idx_of(v, u)[i]].author == u);
                assert(posts_idx_of(v, u)[i] != p) by {
                    assert(v.posts[p].author == c);
                }
            }
        }
        assert forall|q: Seq<char>| #[trigger] w.posts.contains_key(q) implies posts_idx_of(
            w,
            w.posts[q].author,
        ).contains(q) by {
            assert(v.posts.contains_key(q));
            assert(q != p);
            assert(w.posts[q] == v.posts[q]);
            let a = v.posts[q].author;
            assert(posts_idx_of(v, a).contains(q));
            if a == c {
                crate::sset::lemma_seq_remove_contains(idx0, p, q);
                assert(posts_idx_of(w, a) == idx);
            } else {
                assert(posts_idx_of(w, a) == posts_idx_of(v, a));
            }
        }
        assert(lists_no_dup(w.user_posts)) by {
            assert forall|k: Seq<char>| #[trigger] w.user_posts.contains_key(k) implies w.user_posts[k].no_duplicates() by {
                if k == c {
                    assert(w.user_posts[k] == idx);
                } else {
                    assert(w.user_posts[k] == v.user_posts[k]);
                }
            }
        }
        assert(forall|q: Seq<char>| #[trigger] w.comments.contains_key(q)
            <==> v.comments.contains_key(q));
        assert(forall|q: Seq<char>|
            w.comments.contains_key(q) ==> (#[trigger] w.comments[q]).post_id
                == v.comments[q].post_id);
        lemma_comments_carry(v, w);
        lemma_mirror_carry(v, w);
        lemma_no_self_carry(v, w);
        lemma_comments_idx_carry(v, w);
    }
}


/// Sharing a post with an unused id preserves the invariant.
pub proof fn lemma_share_post_inv(v: StoreView, c: Seq<char>, orig_id: Seq<char>, now: u64)
    requires
        inv(v),
        post_id_unused(v, shared_post_id(now)),
    ensures
        inv(share_post_t(v, c, orig_id, now)),
{
    if v.posts.contains_key(orig_id) {
        let w = share_post_t(v, c, orig_id, now);
        let orig = v.posts[orig_id];
        let id = shared_post_id(now);
        assert(id != orig_id);
        let idx0 = posts_idx_of(v, c);
        let idx = idx0.push(id);
        assert(!idx0.contains(id)) by {
            if idx0.contains(id) {
                let i = choose|i: int| 0 <= i < idx0.len() && idx0[i] == id;
                assert(v.posts.contains_key(posts_idx_of(v, c)[i]));
            }
        }
        assert(idx0.no_duplicates());
        lemma_push_no_dup(idx0, id);
        lemma_push_contains(idx0, id);
        assert forall|u: Seq<char>| #[trigger] w.users.contains_key(u) implies user_ok(w, u) by {
            assert(v.users.contains_key(u));
            assert(followers_of(w, u) == followers_of(v, u));
            assert(following_of(w, u) == following_of(v, u));
            if u == c {
                assert(posts_idx_of(w, u) == idx);
                assert(w.users[u] == (ProfileView { posts_count: idx.len(), ..v.users[c] }));
            } else {
                assert(posts_idx_of(w, u) == posts_idx_of(v, u));
                assert(w.users[u] == v.users[u]);
            }
        }
        assert forall|q: Seq<char>| #[trigger] w.posts.contains_key(q) implies post_ok(w, q) by {
            assert(post_likers_of(w, q) == post_likers_of(v, q));
            assert(comments_idx_of(w, q) == comments_idx_of(v, q));
            if q == id {
            } else if q == orig_id {
                assert(v.posts.contains_key(q));
                assert(w.posts[q] == (PostView { shares_count: orig.shares_count + 1, ..orig }));
            } else {
                assert(v.posts.contains_key(q));
                assert(w.posts[q] == v.posts[q]);
            }
        }
        assert forall|u: Seq<char>, i: int|
            #![trigger posts_idx_of(w, u)[i]]
            0 <= i < posts_idx_of(w, u).len() implies w.posts.contains_key(posts_idx_of(w, u)[i])
            && w.posts[posts_idx_of(w, u)[i]].author == u by {
            if u == c {
                assert(posts_idx_of(w, u) == idx);
                if i < idx0.len() {
                    assert(idx[i] == idx0[i]);
                    assert(v.posts.contains_key(posts_idx_of(v, c)[i]));
                    assert(idx0[i] != id);
                    if idx0[i] == orig_id {
                        assert(w.posts[orig_id].author == orig.author);
                    } else {
                        assert(w.posts[idx0[i]] == v.posts[idx0[i]]);
                    }
                } else {
                    assert(idx[i] == id);
                }
            } else {
                assert(posts_idx_of(w, u) == posts_idx_of(v, u));
                assert(v.posts.contains_key(posts_idx_of(v, u)[i]));
                assert(posts_idx_of(v, u)[i] != id);
                if posts_idx_of(v, u)[i] == orig_id {
                    assert(w.posts[orig_id].author == orig.author);
                } else {
                    assert(w.posts[posts_idx_of(v, u)[i]] == v.posts[posts_idx_of(v, u)[i]]);
                }
            }
        }
        assert forall|q: Seq<char>| #[trigger] w.posts.contains_key(q) implies posts_idx_of(
            w,
            w.posts[q].author,
        ).contains(q) by {
            if q == id {
                assert(w.posts[q].author == c);
                assert(posts_idx_of(w, c) == idx);
                assert(idx.contains(id));
            } else {
                assert(v.posts.contains_key(q));
                assert(w.posts[q].author == v.posts[q].author);
                let a = v.posts[q].author;
                assert(posts_idx_of(v, a).contains(q));
                if a == c {
                    assert(posts_idx_of(w, a) == idx);
                } else {
                    assert(posts_idx_of(w, a) == posts_idx_of(v, a));
                }
            }
        }
        assert(lists_no_dup(w.user_posts)) by {
            assert forall|k: Seq<char>| #[trigger] w.user_posts.contains_key(k) implies w.user_posts[k].no_duplicates() by {
                if k == c {
                    assert(w.user_posts[k] == idx);
                } else {
                    assert(w.user_posts[k] == v.user_posts[k]);
                }
            }
        }
        assert(forall|q: Seq<char>| #[trigger] w.comments.contains_key(q)
            <==> v.comments.contains_key(q));
        assert(forall|q: Seq<char>|
            w.comments.contains_key(q) ==> (#[trigger] w.comments[q]).post_id
                == v.comments[q].post_id);
        lemma_comments_carry(v, w);
        lemma_mirror_carry(v, w);
        lemma_no_self_carry(v, w);
        lemma_comments_idx_carry(v, w);
    }
}

/// Creating a comment with an unused id preserves the invariant.
pub proof fn lemma_create_comment_inv(
    v: StoreView,
    c: Seq<char>,
    p: Seq<char>,
    content: Seq<char>,
    now: u64,
)
    requires
        inv(v),
        comment_id_unused(v, comment_id(now)),
    ensures
        inv(create_comment_t(v, c, p, content, now)),
{
    let w = create_comment_t(v, c, p, content, now);
    let id = comment_id(now);
    let idx0 = comments_idx_of(v, p);
    let idx = idx0.push(id);
    assert(!idx0.contains(id)) by {
        if idx0.contains(id) {
            let i = choose|i: int| 0 <= i < idx0.len() && idx0[i] == id;
            assert(v.comments.contains_key(comments_idx_of(v, p)[i]));
        }
    }
    assert(idx0.no_duplicates());
    lemma_push_no_dup(idx0, id);
    lemma_push_contains(idx0, id);
    assert forall|q: Seq<char>| #[trigger] w.posts.contains_key(q) implies post_ok(w, q) by {
        assert(v.posts.contains_key(q));
        assert(post_likers_of(w, q) == post_likers_of(v, q));
        if q == p {
            assert(comments_idx_of(w, q) == idx);
            assert(w.posts[q] == (PostView { comments_count: idx.len(), ..v.posts[p] }));
        } else {
            assert(comments_idx_of(w, q) == comments_idx_of(v, q));
            assert(w.posts[q] == v.posts[q]);
        }
    }
    assert forall|q: Seq<char>| #[trigger] w.comments.contains_key(q) implies comment_ok(w, q) by {
        assert(comment_likers_of(w, q) == comment_likers_of(v, q));
        if q == id {
            assert(w.comments[q] == new_comment(c, p, content, now));
        } else {
            assert(v.comments.contains_key(q));
            assert(w.comments[q] == v.comments[q]);
        }
    }
    assert forall|q: Seq<char>, i: int|
        #![trigger comments_idx_of(w, q)[i]]
        0 <= i < comments_idx_of(w, q).len() implies w.comments.contains_key(
        comments_idx_of(w, q)[i],
    ) && w.comments[comments_idx_of(w, q)[i]].post_id == q by {
        if q == p {
            assert(comments_idx_of(w, q) == idx);
            if i < idx0.len() {
                assert(idx[i] == idx0[i]);
                assert(v.comments.contains_key(comments_idx_of(v, p)[i]));
                assert(idx0[i] != id);
                assert(w.comments[idx0[i]] == v.comments[idx0[i]]);
            } else {
                assert(idx[i] == id);
            }
        } else {
            assert(comments_idx_of(w, q) == comments_idx_of(v, q));
            assert(v.comments.contains_key(comments_idx_of(v, q)[i]));
            assert(comments_idx_of(v, q)[i] != id);
        }
    }
    assert forall|q: Seq<char>| #[trigger] w.comments.contains_key(q) implies comments_idx_of(
        w,
        w.comments[q].post_id,
    ).contains(q) by {
        if q == id {
            assert(w.comments[q].post_id == p);
            assert(comments_idx_of(w, p) == idx);
            assert(idx.contains(id));
        } else {
            assert(v.comments.contains_key(q));
            assert(w.comments[q] == v.comments[q]);
            let a = v.comments[q].post_id;
            assert(comments_idx_of(v, a).contains(q));
            if a == p {
                assert(comments_idx_of(w, a) == idx);
            } else {
                assert(comments_idx_of(w, a) == comments_idx_of(v, a));
            }
        }
    }
    assert(lists_no_dup(w.post_comments)) by {
        assert forall|k: Seq<char>| #[trigger] w.post_comments.contains_key(k) implies w.post_comments[k].no_duplicates() by {
            if k == p {
                assert(w.post_comments[k] == idx);
            } else {
                assert(w.post_comments[k] == v.post_comments[k]);
            }
        }
    }
    assert(forall|q: Seq<char>| #[trigger] w.posts.contains_key(q) <==> v.posts.contains_key(q));
    assert(forall|q: Seq<char>|
        w.posts.contains_key(q) ==> (#[trigger] w.posts[q]).author == v.posts[q].author);
    lemma_users_carry(v, w);
    lemma_mirror_carry(v, w);
    lemma_no_self_carry(v, w);
    lemma_posts_idx_carry(v, w);
}

/// Deleting a comment preserves the invariant.
pub proof fn lemma_delete_comment_inv(v: StoreView, c: Seq<char>, id: Seq<char>)
    requires
        inv(v),
    ensures
        inv(delete_comment_t(v, c, id)),
{
    if delete_comment_ok(v, c, id) {
        let w = delete_comment_t(v, c, id);
        let p = v.comments[id].post_id;
        let idx0 = comments_idx_of(v, p);
        let idx = seq_remove(idx0, id);
        assert(idx0.no_duplicates());
        assert(idx0.contains(id));
        crate::sset::lemma_seq_remove_len(idx0, id);
        crate::sset::lemma_seq_remove_no_dup(idx0, id);
        assert forall|q: Seq<char>| #[trigger] w.posts.contains_key(q) implies post_ok(w, q) by {
            assert(v.posts.contains_key(q));
            assert(post_likers_of(w, q) == post_likers_of(v, q));
            if q == p {
                assert(comments_idx_of(w, q) == idx);
                assert(w.posts[q] == (PostView { comments_count: idx.len(), ..v.posts[p] }));
            } else {
                assert(comments_idx_of(w, q) == comments_idx_of(v, q));
                assert(w.posts[q] == v.posts[q]);
            }
        }
        assert forall|q: Seq<char>| #[trigger] w.comments.contains_key(q) implies comment_ok(
            w,
            q,
        ) by {
            assert(v.comments.contains_key(q));
            assert(q != id);
            assert(comment_likers_of(w, q) == comment_likers_of(v, q));
            assert(w.comments[q] == v.comments[q]);
        }
        assert forall|q: Seq<char>, i: int|
            #![trigger comments_idx_of(w, q)[i]]
            0 <= i < comments_idx_of(w, q).len() implies w.comments.contains_key(
            comments_idx_of(w, q)[i],
        ) && w.comments[comments_idx_of(w, q)[i]].post_id == q by {
            if q == p {
                assert(comments_idx_of(w, q) == idx);
                let e = idx[i];
                assert(idx.contains(e));
                crate::sset::lemma_seq_remove_contains(idx0, id, e);
                assert(idx0.contains(e));
                let j = choose|j: int| 0 <= j < idx0.len() && idx0[j] == e;
                assert(v.comments.contains_key(comments_idx_of(v, p)[j]));
                assert(e != id);
            } else {
                assert(comments_idx_of(w, q) == comments_idx_of(v, q));
                assert(v.comments.contains_key(comments_idx_of(v, q)[i]));
                assert(comments_idx_of(v, q)[i] != id) by {
                    assert(v.comments[id].post_id == p);
                }
            }
        }
        assert forall|q: Seq<char>| #[trigger] w.comments.contains_key(q) implies comments_idx_of(
            w,
            w.comments[q].post_id,
        ).contains(q) by {
            assert(v.comments.contains_key(q));
            assert(q != id);
            assert(w.comments[q] == v.comments[q]);
            let a = v.comments[q].post_id;
            assert(comments_idx_of(v, a).contains(q));
            if a == p {
                crate::sset::lemma_seq_remove_contains(idx0, id, q);
                assert(comments_idx_of(w, a) == idx);
            } else {
                assert(comments_idx_of(w, a) == comments_idx_of(v, a));
            }
        }
        assert(lists_no_dup(w.post_comments)) by {
            assert forall|k: Seq<char>| #[trigger] w.post_comments.contains_key(k) implies w.post_comments[k].no_duplicates() by {
                if k == p {
                    assert(w.post_comments[k] == idx);
                } else {
                    assert(w.post_comments[k] == v.post_comments[k]);
                }
            }
        }
        assert(forall|q: Seq<char>| #[trigger] w.posts.contains_key(q) <==> v.posts.contains_key(
            q,
        ));
        assert(forall|q: Seq<char>|
            w.posts.contains_key(q) ==> (#[trigger] w.posts[q]).author == v.posts[q].author);
        lemma_users_carry(v, w);
        lemma_mirror_carry(v, w);
        lemma_no_self_carry(v, w);
        lemma_posts_idx_carry(v, w);
    }
}


/// The posts of one identity, in index order.
pub open spec fn posts_seq(v: StoreView, u: Seq<char>) -> Seq<PostView> {
    posts_idx_of(v, u).map_values(|id: Seq<char>| v.posts[id])
}

/// The comments under one post id, in index order.
pub open spec fn comments_seq(v: StoreView, p: Seq<char>) -> Seq<CommentView> {
    comments_idx_of(v, p).map_values(|id: Seq<char>| v.comments[id])
}

/// The posts of a list of identities, concatenated in list order.
pub open spec fn feeds_from(v: StoreView, us: Seq<Seq<char>>) -> Seq<PostView>
    decreases us.len(),
{
    if us.len() == 0 {
        Seq::empty()
    } else {
        feeds_from(v, us.drop_last()) + posts_seq(v, us.last())
    }
}

/// Everything a caller's feed draws from: their own posts, then the posts
/// of everyone they follow.
pub open spec fn feed_seq(v: StoreView, c: Seq<char>) -> Seq<PostView> {
    posts_seq(v, c) + feeds_from(v, following_of(v, c))
}

/// Newest first.
pub open spec fn sorted_desc(s: Seq<PostView>) -> bool {
    forall|i: int, j: int| 0 <= i <= j < s.len() ==> s[i].created_at >= s[j].created_at
}

} // verus!
