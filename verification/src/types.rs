//! Records of the Slab API.
use vstd::prelude::*;

use crate::json::JsonValue;
use crate::text::chars_of;

verus! {

/// A Slab post.
#[derive(Debug)]
pub struct Post {
    pub id: String,
    pub title: String,
    /// Quill Delta ops.
    pub content: Option<JsonValue>,
    /// Server-rendered markdown of the post content.
    pub markdown: Option<String>,
    /// Plain text of the post content (used for the OT checksum).
    pub text: Option<String>,
    pub inserted_at: Option<String>,
    pub updated_at: Option<String>,
    pub version: Option<i64>,
    pub topics: Option<Vec<TopicRef>>,
}

/// Number of UTF-16 code units that encode `s` (JavaScript string length).
pub open spec fn utf16_len(s: Seq<char>) -> nat
    decreases s.len(),
{
    if s.len() == 0 {
        0
    } else {
        utf16_len(s.drop_last()) + if (s.last() as u32) >= 0x10000 {
            2nat
        } else {
            1nat
        }
    }
}

/// The OT checksum of a post: the UTF-16 length of its text.
pub open spec fn post_checksum(text: Option<String>) -> i64 {
    match text {
        Some(t) => utf16_len(t@) as i64,
        None => 0,
    }
}

impl Post {
    /// OT checksum as computed by Slab's web client: the UTF-16 length of
    /// the document text (JavaScript string length semantics).
    pub fn checksum(&self) -> (c: i64)
        ensures
            c == post_checksum(self.text),
    {
        match &self.text {
            Some(t) => {
                let cs = chars_of(t.as_str());
                let mut n: u128 = 0;
                let mut i: usize = 0;
                while i < cs.len()
                    invariant
                        i <= cs@.len(),
                        n == utf16_len(cs@.take(i as int)),
                        n <= 2 * i,
                    decreases cs.len() - i,
                {
                    assert(cs@.take(i + 1).drop_last() =~= cs@.take(i as int));
                    if (cs[i] as u32) >= 0x10000 {
                        n = n + 2;
                    } else {
                        n = n + 1;
                    }
                    i = i + 1;
                }
                assert(cs@.take(cs@.len() as int) =~= cs@);
                n as i64
            },
            None => 0,
        }
    }
}

/// A topic a post belongs to.
#[derive(Debug)]
pub struct TopicRef {
    pub id: String,
    pub name: String,
}

/// A topic.
#[derive(Debug)]
pub struct Topic {
    pub id: String,
    pub name: String,
    pub description: Option<String>,
    pub parent_topic_id: Option<String>,
    pub posts: Option<Vec<Post>>,
}

/// A search hit.
#[derive(Debug)]
pub struct SearchResult {
    pub post: Post,
    pub highlight: Option<String>,
}

/// The organization behind a team.
#[derive(Debug)]
pub struct Organization {
    pub id: String,
    pub host: String,
}

/// A comment thread of a post.
#[derive(Debug)]
pub struct CommentThread {
    pub id: String,
    pub comments: Option<Vec<Comment>>,
    pub resolved_at: Option<String>,
}

/// A comment.
#[derive(Debug)]
pub struct Comment {
    pub id: String,
    pub content: Option<String>,
    pub author: Option<CommentAuthor>,
    pub inserted_at: Option<String>,
    pub updated_at: Option<String>,
}

/// Author of a comment.
#[derive(Debug)]
pub struct CommentAuthor {
    pub id: String,
    pub name: Option<String>,
    pub avatar_url: Option<String>,
}

/// The comment threads of a post.
#[derive(Debug)]
pub struct PostThreads {
    pub id: String,
    pub threads: Option<Vec<CommentThread>>,
}

/// Identifier of a created (or deleted) comment.
#[derive(Debug)]
pub struct CreatedComment {
    pub id: String,
}

/// A resolved thread.
#[derive(Debug)]
pub struct ResolvedThread {
    pub id: String,
    pub resolved_at: Option<String>,
}

} // verus!
