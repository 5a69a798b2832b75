//! The upstream documents as plain values, the per-crawl options, and the
//! classification of discussion fetch outcomes.
//!
//! The upstream speaks JSON:API; the transport layer parses its documents
//! into the explicit record types here, with named optional fields where a
//! required attribute may be absent, and hands them to the pipeline. A
//! field the upstream may omit without making the document malformed is
//! carried as the empty string, which is how the crawler has always read
//! it.

use vstd::prelude::*;
use std::collections::HashSet;
use crate::config::Config;
use crate::entity::Discussion;

verus! {

/// One typed reference out of a JSON:API relationship or listing array:
/// the entity type it names and its id string.
pub struct ResourceRef {
    pub kind: String,
    pub id: String,
}

/// The mathematical value of a `ResourceRef`.
#[verifier::ext_equal]
pub struct ResourceRefV {
    pub kind: Seq<char>,
    pub id: Seq<char>,
}

impl View for ResourceRef {
    type V = ResourceRefV;

    open spec fn view(&self) -> ResourceRefV {
        ResourceRefV { kind: self.kind@, id: self.id@ }
    }
}

/// The views of a sequence of references, in order.
pub open spec fn refs_view(s: Seq<ResourceRef>) -> Seq<ResourceRefV> {
    s.map_values(|r: ResourceRef| r@)
}

/// One entity of a document's `included` array, carrying the attributes
/// the crawler reads: a tag's name, a user's names.
pub struct IncludedItem {
    pub kind: String,
    pub id: String,
    pub name: String,
    pub username: String,
    pub display_name: String,
}

/// The mathematical value of an `IncludedItem`.
#[verifier::ext_equal]
pub struct IncludedItemV {
    pub kind: Seq<char>,
    pub id: Seq<char>,
    pub name: Seq<char>,
    pub username: Seq<char>,
    pub display_name: Seq<char>,
}

impl View for IncludedItem {
    type V = IncludedItemV;

    open spec fn view(&self) -> IncludedItemV {
        IncludedItemV {
            kind: self.kind@,
            id: self.id@,
            name: self.name@,
            username: self.username@,
            display_name: self.display_name@,
        }
    }
}

/// The views of a sequence of included entities, in order.
pub open spec fn included_view(s: Seq<IncludedItem>) -> Seq<IncludedItemV> {
    s.map_values(|x: IncludedItem| x@)
}

/// One post entity of a posts response.
pub struct PostItem {
    pub kind: String,
    pub id: String,
    pub content_type: String,
    pub content_html: String,
    pub created_at: String,
    pub user_id: String,
}

/// The mathematical value of a `PostItem`.
#[verifier::ext_equal]
pub struct PostItemV {
    pub kind: Seq<char>,
    pub id: Seq<char>,
    pub content_type: Seq<char>,
    pub content_html: Seq<char>,
    pub created_at: Seq<char>,
    pub user_id: Seq<char>,
}

impl View for PostItem {
    type V = PostItemV;

    open spec fn view(&self) -> PostItemV {
        PostItemV {
            kind: self.kind@,
            id: self.id@,
            content_type: self.content_type@,
            content_html: self.content_html@,
            created_at: self.created_at@,
            user_id: self.user_id@,
        }
    }
}

/// The views of a sequence of post entities, in order.
pub open spec fn post_items_view(s: Seq<PostItem>) -> Seq<PostItemV> {
    s.map_values(|x: PostItem| x@)
}

/// A discussion document: the required attributes as optional fields —
/// absence makes the response malformed — with the relationship
/// references and the included entities.
pub struct DiscussionDoc {
    pub title: Option<String>,
    pub frontpage: Option<bool>,
    pub created_at: Option<String>,
    pub user_id: Option<String>,
    pub tag_ids: Vec<String>,
    pub post_refs: Vec<ResourceRef>,
    pub included: Vec<IncludedItem>,
}

/// The mathematical value of a `DiscussionDoc`.
#[verifier::ext_equal]
pub struct DiscussionDocV {
    pub title: Option<Seq<char>>,
    pub frontpage: Option<bool>,
    pub created_at: Option<Seq<char>>,
    pub user_id: Option<Seq<char>>,
    pub tag_ids: Seq<Seq<char>>,
    pub post_refs: Seq<ResourceRefV>,
    pub included: Seq<IncludedItemV>,
}

/// The view of an optional string.
pub open spec fn opt_str_view(s: Option<String>) -> Option<Seq<char>> {
    match s {
        Some(x) => Some(x@),
        None => None,
    }
}

impl View for DiscussionDoc {
    type V = DiscussionDocV;

    open spec fn view(&self) -> DiscussionDocV {
        DiscussionDocV {
            title: opt_str_view(self.title),
            frontpage: self.frontpage,
            created_at: opt_str_view(self.created_at),
            user_id: opt_str_view(self.user_id),
            tag_ids: self.tag_ids.deep_view(),
            post_refs: refs_view(self.post_refs@),
            included: included_view(self.included@),
        }
    }
}

/// A posts batch document: the post entities and the included users.
pub struct PostsDoc {
    pub posts: Vec<PostItem>,
    pub included: Vec<IncludedItem>,
}

/// The mathematical value of a `PostsDoc`.
#[verifier::ext_equal]
pub struct PostsDocV {
    pub posts: Seq<PostItemV>,
    pub included: Seq<IncludedItemV>,
}

impl View for PostsDoc {
    type V = PostsDocV;

    open spec fn view(&self) -> PostsDocV {
        PostsDocV { posts: post_items_view(self.posts@), included: included_view(self.included@) }
    }
}

/// An index listing page: the typed references of its data array.
pub struct IndexDoc {
    pub items: Vec<ResourceRef>,
}

impl View for IndexDoc {
    type V = Seq<ResourceRefV>;

    open spec fn view(&self) -> Seq<ResourceRefV> {
        refs_view(self.items@)
    }
}

/// Per-crawl configuration for one discussion fetch: the upstream base
/// URL, the shared concurrency limit, and the post ids already stored,
/// which prune redundant post fetches.
pub struct GetDiscussionOptions {
    pub base_url: String,
    pub concurrency: usize,
    pub existing_post_ids: HashSet<u64>,
}

impl GetDiscussionOptions {
    /// Options with the documented defaults: a concurrency of 20 and no
    /// known post ids.
    pub fn new(base_url: String) -> (r: GetDiscussionOptions)
        ensures
            r.base_url@ == base_url@,
            r.concurrency == 20,
            r.existing_post_ids@ == Set::<u64>::empty(),
    {
        GetDiscussionOptions { base_url, concurrency: 20, existing_post_ids: HashSet::new() }
    }

    /// The options a crawl invocation derives from its configuration, with
    /// no post ids known yet.
    pub fn from_config(config: &Config) -> (r: GetDiscussionOptions)
        ensures
            r.base_url@ == config.base_url@,
            r.concurrency == config.concurrency,
            r.existing_post_ids@ == Set::<u64>::empty(),
    {
        GetDiscussionOptions {
            base_url: config.base_url.clone(),
            concurrency: config.concurrency,
            existing_post_ids: HashSet::new(),
        }
    }
}

/// The outcome of one discussion fetch: permanently unobtainable, fully
/// fetched, or fetched with some post batches missing.
pub enum GetDiscussionResult {
    Impossible,
    Success(Discussion),
    PartialError(Discussion),
}

/// The discussion a fetch outcome carries.
pub open spec fn result_discussion(r: GetDiscussionResult) -> crate::entity::DiscussionV {
    match r {
        GetDiscussionResult::Success(d) => d@,
        GetDiscussionResult::PartialError(d) => d@,
        GetDiscussionResult::Impossible => arbitrary(),
    }
}

/// Why one discussion could not be fetched: a required field of its
/// document was absent or unreadable, or the transport failed — a
/// network error, a timeout, or an unexpected non-2xx status. All of
/// these are transient failures for that discussion, never
/// process-fatal, and the worker records them as `Failed`.
#[derive(Clone, Copy, Debug, PartialEq, Eq, Structural)]
pub enum FetchError {
    MissingTitle,
    MissingFrontpage,
    BadAuthorId,
    BadCreatedAt,
    Transient,
}

/// How a status on the discussion endpoint is treated.
#[derive(Clone, Copy, Debug, PartialEq, Eq, Structural)]
pub enum StatusClass {
    Proceed,
    Impossible,
    Transient,
}

/// 404 and 403 mean permanently unobtainable; any other non-2xx status is
/// a transient failure; a 2xx response is read.
pub open spec fn spec_classify_status(status: u16) -> StatusClass {
    if status == 404 || status == 403 {
        StatusClass::Impossible
    } else if 200 <= status < 300 {
        StatusClass::Proceed
    } else {
        StatusClass::Transient
    }
}

/// Classify the discussion endpoint's HTTP status, before any look at the
/// response body: 404 or 403 always yields `Impossible`, whatever the
/// body holds.
pub fn classify_discussion_status(status: u16) -> (r: StatusClass)
    ensures
        r == spec_classify_status(status),
        status == 404 || status == 403 ==> r is Impossible,
{
    if status == 404 || status == 403 {
        StatusClass::Impossible
    } else if 200 <= status && status < 300 {
        StatusClass::Proceed
    } else {
        StatusClass::Transient
    }
}

} // verus!
