//! The persisted entities: discussions, their posts, and the crawl job
//! ledger entries, together with their mathematical views and the closed
//! status type of the ledger.

use vstd::prelude::*;
use crate::strutil::str_eq;
use crate::timestamp::Timestamp;

verus! {

/// One comment within a discussion.
#[derive(Clone, Debug)]
pub struct Post {
    pub id: u64,
    pub user_id: u64,
    pub discussion_id: u64,
    pub reply_to_id: u64,
    pub username: String,
    pub user_display_name: String,
    pub content: String,
    pub created_at: Timestamp,
}

/// The mathematical value of a `Post`.
#[verifier::ext_equal]
pub struct PostV {
    pub id: u64,
    pub user_id: u64,
    pub discussion_id: u64,
    pub reply_to_id: u64,
    pub username: Seq<char>,
    pub user_display_name: Seq<char>,
    pub content: Seq<char>,
    pub created_at: Timestamp,
}

impl View for Post {
    type V = PostV;

    open spec fn view(&self) -> PostV {
        PostV {
            id: self.id,
            user_id: self.user_id,
            discussion_id: self.discussion_id,
            reply_to_id: self.reply_to_id,
            username: self.username@,
            user_display_name: self.user_display_name@,
            content: self.content@,
            created_at: self.created_at,
        }
    }
}

impl DeepView for Post {
    type V = PostV;

    open spec fn deep_view(&self) -> PostV {
        self.view()
    }
}

/// The views of a sequence of posts, in order.
pub open spec fn posts_view(s: Seq<Post>) -> Seq<PostV> {
    s.map_values(|p: Post| p@)
}

/// A forum thread: metadata plus its ordered posts.
#[derive(Clone, Debug)]
pub struct Discussion {
    pub id: u64,
    pub user_id: u64,
    pub username: String,
    pub user_display_name: String,
    pub title: String,
    pub tags: Vec<String>,
    pub posts: Vec<Post>,
    pub is_frontpage: bool,
    pub created_at: Timestamp,
}

/// The mathematical value of a `Discussion`.
#[verifier::ext_equal]
pub struct DiscussionV {
    pub id: u64,
    pub user_id: u64,
    pub username: Seq<char>,
    pub user_display_name: Seq<char>,
    pub title: Seq<char>,
    pub tags: Seq<Seq<char>>,
    pub posts: Seq<PostV>,
    pub is_frontpage: bool,
    pub created_at: Timestamp,
}

impl View for Discussion {
    type V = DiscussionV;

    open spec fn view(&self) -> DiscussionV {
        DiscussionV {
            id: self.id,
            user_id: self.user_id,
            username: self.username@,
            user_display_name: self.user_display_name@,
            title: self.title@,
            tags: self.tags.deep_view(),
            posts: posts_view(self.posts@),
            is_frontpage: self.is_frontpage,
            created_at: self.created_at,
        }
    }
}

/// The outcome recorded for one crawl attempt of an entity.
#[derive(Clone, Copy, Debug, PartialEq, Eq, Structural)]
pub enum JobStatus {
    Failed,
    Success,
    Impossible,
    Partial,
}

/// The stored string form of each status.
pub open spec fn spec_status_str(st: JobStatus) -> Seq<char> {
    match st {
        JobStatus::Failed => "failed"@,
        JobStatus::Success => "success"@,
        JobStatus::Impossible => "impossible"@,
        JobStatus::Partial => "partial"@,
    }
}

/// The status a stored string denotes; `None` for a string that denotes
/// none, which callers treat as data corruption.
pub open spec fn spec_parse_status(s: Seq<char>) -> Option<JobStatus> {
    if s == "failed"@ {
        Some(JobStatus::Failed)
    } else if s == "success"@ {
        Some(JobStatus::Success)
    } else if s == "impossible"@ {
        Some(JobStatus::Impossible)
    } else if s == "partial"@ {
        Some(JobStatus::Partial)
    } else {
        None
    }
}

/// A stored status string that denotes no status.
#[derive(Debug)]
pub struct UnknownStatus {
    pub value: String,
}

impl JobStatus {
    /// The total parse from the persisted string form; an unrecognized
    /// string is surfaced to the caller, not swallowed.
    pub fn try_from(value: &str) -> (r: Result<JobStatus, UnknownStatus>)
        ensures
            match r {
                Ok(st) => spec_parse_status(value@) == Some(st),
                Err(e) => spec_parse_status(value@) is None && e.value@ == value@,
            },
    {
        if str_eq(value, "failed") {
            Ok(JobStatus::Failed)
        } else if str_eq(value, "success") {
            Ok(JobStatus::Success)
        } else if str_eq(value, "impossible") {
            Ok(JobStatus::Impossible)
        } else if str_eq(value, "partial") {
            Ok(JobStatus::Partial)
        } else {
            Err(UnknownStatus { value: value.to_owned() })
        }
    }

    /// The persisted string form of this status.
    pub fn as_str(self) -> (r: &'static str)
        ensures
            r@ == spec_status_str(self),
    {
        match self {
            JobStatus::Failed => "failed",
            JobStatus::Success => "success",
            JobStatus::Impossible => "impossible",
            JobStatus::Partial => "partial",
        }
    }
}

/// Rendering a status and parsing it back returns the same status: the
/// stored strings are unambiguous.
pub proof fn lemma_status_round_trip(st: JobStatus)
    ensures
        spec_parse_status(spec_status_str(st)) == Some(st),
{
    reveal_strlit("failed");
    reveal_strlit("success");
    reveal_strlit("impossible");
    reveal_strlit("partial");
    assert("success"@.len() != "failed"@.len());
    assert("impossible"@.len() != "failed"@.len());
    assert("partial"@.len() != "failed"@.len());
    assert("impossible"@.len() != "success"@.len());
    assert("partial"@[0] != "success"@[0]);
    assert("partial"@.len() != "impossible"@.len());
}

/// One durable ledger row: the latest crawl outcome for an entity.
#[derive(Clone, Debug)]
pub struct Job {
    pub entity: String,
    pub entity_id: u64,
    pub status: JobStatus,
}

/// The mathematical value of a `Job`.
#[verifier::ext_equal]
pub struct JobV {
    pub entity: Seq<char>,
    pub entity_id: u64,
    pub status: JobStatus,
}

impl View for Job {
    type V = JobV;

    open spec fn view(&self) -> JobV {
        JobV { entity: self.entity@, entity_id: self.entity_id, status: self.status }
    }
}

/// The views of a sequence of ledger rows, in order.
pub open spec fn jobs_view(s: Seq<Job>) -> Seq<JobV> {
    s.map_values(|j: Job| j@)
}

} // verus!
