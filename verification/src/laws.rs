//! Laws of the store, stated over the model and proved once and for all:
//! what repeated, refused, or unauthorized operations do to the state.

use vstd::prelude::*;
use crate::model::{
    StoreView, inv, followers_of, following_of, posts_idx_of, follow_t, follow_ok, unfollow_t,
    unfollow_ok, delete_post_t, delete_post_ok, share_post_t, shared_content, new_shared_post,
    shared_post_id, post_id_unused, lemma_push_contains,
};

verus! {

/// Following is idempotent: a second identical follow changes nothing,
/// so no counter can ever move twice for one edge.
pub proof fn lemma_follow_idempotent(v: StoreView, a: Seq<char>, b: Seq<char>)
    requires
        inv(v),
    ensures
        follow_t(follow_t(v, a, b), a, b) == follow_t(v, a, b),
{
    if a != b && !following_of(v, a).contains(b) {
        let w = follow_t(v, a, b);
        lemma_push_contains(following_of(v, a), b);
        assert(following_of(w, a) == following_of(v, a).push(b));
        assert(following_of(w, a).contains(b));
    }
}

/// A new follow moves each of the two counters up by exactly one.
pub proof fn lemma_follow_counts(v: StoreView, a: Seq<char>, b: Seq<char>)
    requires
        inv(v),
        a != b,
        !following_of(v, a).contains(b),
    ensures
        v.users.contains_key(a) ==> follow_t(v, a, b).users[a].following_count == v.users[a].following_count
            + 1,
        v.users.contains_key(b) ==> follow_t(v, a, b).users[b].followers_count == v.users[b].followers_count
            + 1,
{
    let w = follow_t(v, a, b);
    if v.users.contains_key(a) {
        assert(v.users[a].following_count == following_of(v, a).len());
    }
    if v.users.contains_key(b) {
        assert(v.users[b].followers_count == followers_of(v, b).len());
    }
}

/// A self-follow is refused and creates no edge: the store is unchanged.
pub proof fn lemma_self_follow_rejected(v: StoreView, a: Seq<char>)
    ensures
        !follow_ok(a, a),
        follow_t(v, a, a) == v,
{
}

/// An unfollow with no prior follow reports failure and leaves the whole
/// store, counters included, unchanged.
pub proof fn lemma_unfollow_without_follow(v: StoreView, a: Seq<char>, b: Seq<char>)
    requires
        !following_of(v, a).contains(b),
    ensures
        !unfollow_ok(v, a, b),
        unfollow_t(v, a, b) == v,
{
}

/// Deleting a post one does not own reports failure and changes nothing:
/// the post stays retrievable with unchanged content.
pub proof fn lemma_delete_post_ownership(v: StoreView, c: Seq<char>, p: Seq<char>)
    requires
        v.posts.contains_key(p),
        v.posts[p].author != c,
    ensures
        !delete_post_ok(v, c, p),
        delete_post_t(v, c, p) == v,
        delete_post_t(v, c, p).posts[p] == v.posts[p],
{
}

/// Sharing a post yields a fresh post whose content is the original's
/// behind the marker prefix, with the original's media and zeroed
/// engagement; the original's share counter and the sharer's post counter
/// each move up by exactly one.
pub proof fn lemma_share_lineage(v: StoreView, c: Seq<char>, orig_id: Seq<char>, now: u64)
    requires
        inv(v),
        v.posts.contains_key(orig_id),
        post_id_unused(v, shared_post_id(now)),
    ensures
        share_post_t(v, c, orig_id, now).posts.contains_key(shared_post_id(now)),
        share_post_t(v, c, orig_id, now).posts[shared_post_id(now)] == new_shared_post(
            v,
            c,
            orig_id,
            now,
        ),
        new_shared_post(v, c, orig_id, now).content == shared_content(v.posts[orig_id].content),
        new_shared_post(v, c, orig_id, now).media == v.posts[orig_id].media,
        new_shared_post(v, c, orig_id, now).likes_count == 0,
        new_shared_post(v, c, orig_id, now).comments_count == 0,
        new_shared_post(v, c, orig_id, now).shares_count == 0,
        share_post_t(v, c, orig_id, now).posts[orig_id].shares_count == v.posts[orig_id].shares_count
            + 1,
        v.users.contains_key(c) ==> share_post_t(v, c, orig_id, now).users[c].posts_count
            == v.users[c].posts_count + 1,
{
    let w = share_post_t(v, c, orig_id, now);
    assert(shared_post_id(now) != orig_id);
    if v.users.contains_key(c) {
        assert(v.users[c].posts_count == posts_idx_of(v, c).len());
    }
}

} // verus!
