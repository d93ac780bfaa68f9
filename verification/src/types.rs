//! Entities of the store, their request shapes, and their mathematical views.
//!
//! A caller identity is the opaque textual form of an authenticated
//! principal; the store never interprets it beyond equality.

use vstd::prelude::*;

verus! {

/// Why a mutating operation failed.
#[derive(Clone, Copy, Debug, PartialEq, Eq, Structural)]
pub enum StoreError {
    /// The caller already has a profile.
    AlreadyExists,
    /// The addressed entity does not exist.
    NotFound,
}

/// A user profile, with counters that mirror the relationship collections.
#[derive(Debug)]
pub struct UserProfile {
    pub id: String,
    pub username: String,
    pub name: String,
    pub bio: String,
    pub profile_photo: Option<Vec<u8>>,
    pub cover_photo: Option<Vec<u8>>,
    pub followers_count: u64,
    pub following_count: u64,
    pub posts_count: u64,
    pub created_at: u64,
}

/// The mathematical content of a profile.
#[verifier::ext_equal]
pub ghost struct ProfileView {
    pub id: Seq<char>,
    pub username: Seq<char>,
    pub name: Seq<char>,
    pub bio: Seq<char>,
    pub profile_photo: Option<Seq<u8>>,
    pub cover_photo: Option<Seq<u8>>,
    pub followers_count: nat,
    pub following_count: nat,
    pub posts_count: nat,
    pub created_at: u64,
}

/// A post.
#[derive(Debug)]
pub struct Post {
    pub id: String,
    pub author: String,
    pub content: String,
    pub media: Option<Vec<u8>>,
    pub media_type: Option<String>,
    pub likes_count: u64,
    pub comments_count: u64,
    pub shares_count: u64,
    pub created_at: u64,
    pub updated_at: u64,
}

/// The mathematical content of a post.
#[verifier::ext_equal]
pub ghost struct PostView {
    pub id: Seq<char>,
    pub author: Seq<char>,
    pub content: Seq<char>,
    pub media: Option<Seq<u8>>,
    pub media_type: Option<Seq<char>>,
    pub likes_count: nat,
    pub comments_count: nat,
    pub shares_count: nat,
    pub created_at: u64,
    pub updated_at: u64,
}

/// A comment under a post.
#[derive(Debug)]
pub struct Comment {
    pub id: String,
    pub post_id: String,
    pub author: String,
    pub content: String,
    pub likes_count: u64,
    pub created_at: u64,
}

/// The mathematical content of a comment.
#[verifier::ext_equal]
pub ghost struct CommentView {
    pub id: Seq<char>,
    pub post_id: Seq<char>,
    pub author: Seq<char>,
    pub content: Seq<char>,
    pub likes_count: nat,
    pub created_at: u64,
}

/// What a caller supplies to create a post.
pub struct CreatePostRequest {
    pub content: String,
    pub media: Option<Vec<u8>>,
    pub media_type: Option<String>,
}

/// What a caller supplies to create or amend a profile; absent fields are
/// left untouched (or defaulted, on creation).
pub struct UpdateProfileRequest {
    pub username: Option<String>,
    pub name: Option<String>,
    pub bio: Option<String>,
    pub profile_photo: Option<Vec<u8>>,
    pub cover_photo: Option<Vec<u8>>,
}

/// What a caller supplies to create a comment.
pub struct CreateCommentRequest {
    pub post_id: String,
    pub content: String,
}

/// View of optional binary media.
pub open spec fn opt_bytes_view(o: Option<Vec<u8>>) -> Option<Seq<u8>> {
    match o {
        Some(v) => Some(v@),
        None => None,
    }
}

/// View of an optional string.
pub open spec fn opt_str_view(o: Option<String>) -> Option<Seq<char>> {
    match o {
        Some(s) => Some(s@),
        None => None,
    }
}

impl View for UserProfile {
    type V = ProfileView;

    open spec fn view(&self) -> ProfileView {
        ProfileView {
            id: self.id@,
            username: self.username@,
            name: self.name@,
            bio: self.bio@,
            profile_photo: opt_bytes_view(self.profile_photo),
            cover_photo: opt_bytes_view(self.cover_photo),
            followers_count: self.followers_count as nat,
            following_count: self.following_count as nat,
            posts_count: self.posts_count as nat,
            created_at: self.created_at,
        }
    }
}

impl DeepView for UserProfile {
    type V = ProfileView;

    open spec fn deep_view(&self) -> ProfileView {
        self.view()
    }
}

impl View for Post {
    type V = PostView;

    open spec fn view(&self) -> PostView {
        PostView {
            id: self.id@,
            author: self.author@,
            content: self.content@,
            media: opt_bytes_view(self.media),
            media_type: opt_str_view(self.media_type),
            likes_count: self.likes_count as nat,
            comments_count: self.comments_count as nat,
            shares_count: self.shares_count as nat,
            created_at: self.created_at,
            updated_at: self.updated_at,
        }
    }
}

impl DeepView for Post {
    type V = PostView;

    open spec fn deep_view(&self) -> PostView {
        self.view()
    }
}

impl View for Comment {
    type V = CommentView;

    open spec fn view(&self) -> CommentView {
        CommentView {
            id: self.id@,
            post_id: self.post_id@,
            author: self.author@,
            content: self.content@,
            likes_count: self.likes_count as nat,
            created_at: self.created_at,
        }
    }
}

impl DeepView for Comment {
    type V = CommentView;

    open spec fn deep_view(&self) -> CommentView {
        self.view()
    }
}

/// A copy of optional binary media with equal contents.
pub fn clone_opt_bytes(o: &Option<Vec<u8>>) -> (r: Option<Vec<u8>>)
    ensures
        opt_bytes_view(r) == opt_bytes_view(*o),
{
    match o {
        Some(v) => {
            let n = v.len();
            let mut out: Vec<u8> = Vec::new();
            let mut i: usize = 0;
            while i < n
                invariant
                    n == v@.len(),
                    i <= n,
                    out@ == v@.take(i as int),
                decreases n - i,
            {
                out.push(v[i]);
                i = i + 1;
                proof {
                    assert(out@ =~= v@.take(i as int));
                }
            }
            proof {
                assert(out@ =~= v@);
            }
            Some(out)
        },
        None => None,
    }
}

/// A copy of an optional string with equal contents.
pub fn clone_opt_str(o: &Option<String>) -> (r: Option<String>)
    ensures
        opt_str_view(r) == opt_str_view(*o),
{
    match o {
        Some(s) => Some(s.clone()),
        None => None,
    }
}

impl Clone for UserProfile {
    fn clone(&self) -> (r: Self)
        ensures
            r@ == self@,
    {
        UserProfile {
            id: self.id.clone(),
            username: self.username.clone(),
            name: self.name.clone(),
            bio: self.bio.clone(),
            profile_photo: clone_opt_bytes(&self.profile_photo),
            cover_photo: clone_opt_bytes(&self.cover_photo),
            followers_count: self.followers_count,
            following_count: self.following_count,
            posts_count: self.posts_count,
            created_at: self.created_at,
        }
    }
}

impl Clone for Post {
    fn clone(&self) -> (r: Self)
        ensures
            r@ == self@,
    {
        Post {
            id: self.id.clone(),
            author: self.author.clone(),
            content: self.content.clone(),
            media: clone_opt_bytes(&self.media),
            media_type: clone_opt_str(&self.media_type),
            likes_count: self.likes_count,
            comments_count: self.comments_count,
            shares_count: self.shares_count,
            created_at: self.created_at,
            updated_at: self.updated_at,
        }
    }
}

impl Clone for Comment {
    fn clone(&self) -> (r: Self)
        ensures
            r@ == self@,
    {
        Comment {
            id: self.id.clone(),
            post_id: self.post_id.clone(),
            author: self.author.clone(),
            content: self.content.clone(),
            likes_count: self.likes_count,
            created_at: self.created_at,
        }
    }
}


/// The mathematical content of a profile request.
#[verifier::ext_equal]
pub ghost struct UpdateProfileReqView {
    pub username: Option<Seq<char>>,
    pub name: Option<Seq<char>>,
    pub bio: Option<Seq<char>>,
    pub profile_photo: Option<Seq<u8>>,
    pub cover_photo: Option<Seq<u8>>,
}

impl DeepView for UpdateProfileRequest {
    type V = UpdateProfileReqView;

    open spec fn deep_view(&self) -> UpdateProfileReqView {
        UpdateProfileReqView {
            username: opt_str_view(self.username),
            name: opt_str_view(self.name),
            bio: opt_str_view(self.bio),
            profile_photo: opt_bytes_view(self.profile_photo),
            cover_photo: opt_bytes_view(self.cover_photo),
        }
    }
}

/// The mathematical content of a post request.
#[verifier::ext_equal]
pub ghost struct CreatePostReqView {
    pub content: Seq<char>,
    pub media: Option<Seq<u8>>,
    pub media_type: Option<Seq<char>>,
}

impl DeepView for CreatePostRequest {
    type V = CreatePostReqView;

    open spec fn deep_view(&self) -> CreatePostReqView {
        CreatePostReqView {
            content: self.content@,
            media: opt_bytes_view(self.media),
            media_type: opt_str_view(self.media_type),
        }
    }
}

/// The mathematical content of a comment request.
#[verifier::ext_equal]
pub ghost struct CreateCommentReqView {
    pub post_id: Seq<char>,
    pub content: Seq<char>,
}

impl DeepView for CreateCommentRequest {
    type V = CreateCommentReqView;

    open spec fn deep_view(&self) -> CreateCommentReqView {
        CreateCommentReqView {
            post_id: self.post_id@,
            content: self.content@,
        }
    }
}

} // verus!

