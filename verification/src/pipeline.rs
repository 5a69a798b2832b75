//! The discussion fetch pipeline's logic: reading the upstream documents
//! into discussions and posts, planning the chunked post fetches, and
//! reassembling the batch results into a complete or partial discussion.
//! The transport layer performs the HTTP calls and hands the documents in;
//! everything that decides is here.

use vstd::prelude::*;
use vstd::multiset::Multiset;
use std::collections::HashSet;
use crate::api::{
    included_view, refs_view, post_items_view, DiscussionDoc, DiscussionDocV, FetchError,
    GetDiscussionOptions, GetDiscussionResult, IncludedItem, IncludedItemV, IndexDoc, PostItemV,
    PostsDoc, PostsDocV, ResourceRef, ResourceRefV,
};
use crate::entity::{posts_view, Discussion, DiscussionV, Post, PostV};
use crate::sanitize::{sanitize, spec_sanitize};
use crate::strutil::{parse_u64_or_zero, spec_parse_u64_or_zero, str_eq};
use crate::timestamp::{parse_rfc3339, rfc3339_of, Timestamp};

verus! {

broadcast use vstd::std_specs::hash::group_hash_axioms;

/// The upstream filter-by-id endpoint's practical page size: post ids are
/// fetched in batches of this many.
pub const BATCH_SIZE: usize = 20;

/// The names a user entity map gives a user id: those of the last
/// included user entity carrying that id, as a map built from the array
/// would give them.
pub open spec fn spec_user_of(inc: Seq<IncludedItemV>, uid: u64) -> Option<(Seq<char>, Seq<char>)>
    decreases inc.len(),
{
    if inc.len() == 0 {
        None
    } else if inc.last().kind == "users"@ && spec_parse_u64_or_zero(inc.last().id) == uid {
        Some((inc.last().username, inc.last().display_name))
    } else {
        spec_user_of(inc.drop_last(), uid)
    }
}

/// The names of the given user, resolved against the included entities.
fn user_of(included: &Vec<IncludedItem>, uid: u64) -> (r: Option<(String, String)>)
    ensures
        match r {
            Some(u) => spec_user_of(included_view(included@), uid) == Some((u.0@, u.1@)),
            None => spec_user_of(included_view(included@), uid) is None,
        },
{
    let ghost inc = included_view(included@);
    let mut i: usize = included.len();
    proof {
        assert(inc.take(i as int) =~= inc);
    }
    while i > 0
        invariant
            i <= included@.len(),
            inc == included_view(included@),
            spec_user_of(inc, uid) == spec_user_of(inc.take(i as int), uid),
        decreases i,
    {
        i = i - 1;
        proof {
            assert(inc.take(i + 1).last() == included@[i as int]@);
            assert(inc.take(i + 1).drop_last() =~= inc.take(i as int));
        }
        let item = &included[i];
        if str_eq(item.kind.as_str(), "users") && parse_u64_or_zero(item.id.as_str()) == uid {
            return Some((item.username.clone(), item.display_name.clone()));
        }
    }
    assert(inc.take(0) =~= Seq::<IncludedItemV>::empty());
    None
}

/// The tag names of a discussion: the names of the included entities of
/// type `tags` whose id the discussion's tag references name — filtering
/// by both type and the id set, so that another entity type sharing an id
/// is never read as a tag.
pub open spec fn spec_tags(inc: Seq<IncludedItemV>, tag_ids: Seq<Seq<char>>) -> Seq<Seq<char>>
    decreases inc.len(),
{
    if inc.len() == 0 {
        Seq::empty()
    } else {
        let rest = spec_tags(inc.drop_last(), tag_ids);
        if inc.last().kind == "tags"@ && tag_ids.contains(inc.last().id) {
            rest.push(inc.last().name)
        } else {
            rest
        }
    }
}

/// Whether any of the strings equals `s`.
fn contains_str(v: &Vec<String>, s: &str) -> (r: bool)
    ensures
        r == v.deep_view().contains(s@),
{
    let mut i: usize = 0;
    while i < v.len()
        invariant
            i <= v@.len(),
            forall|j: int| 0 <= j < i ==> v@[j]@ != s@,
        decreases v@.len() - i,
    {
        if str_eq(v[i].as_str(), s) {
            assert(v.deep_view()[i as int] == s@);
            return true;
        }
        i = i + 1;
    }
    assert forall|j: int| 0 <= j < v.deep_view().len() implies v.deep_view()[j] != s@ by {
        assert(v.deep_view()[j] == v@[j]@);
    }
    false
}

/// The tag names for the given tag id references, in included order.
fn collect_tags(included: &Vec<IncludedItem>, tag_ids: &Vec<String>) -> (r: Vec<String>)
    ensures
        r.deep_view() == spec_tags(included_view(included@), tag_ids.deep_view()),
{
    let ghost inc = included_view(included@);
    let ghost tv = tag_ids.deep_view();
    let mut r: Vec<String> = Vec::new();
    let mut i: usize = 0;
    while i < included.len()
        invariant
            i <= included@.len(),
            inc == included_view(included@),
            tv == tag_ids.deep_view(),
            r.deep_view() == spec_tags(inc.take(i as int), tv),
        decreases included@.len() - i,
    {
        proof {
            assert(inc.take(i + 1).last() == included@[i as int]@);
            assert(inc.take(i + 1).drop_last() =~= inc.take(i as int));
        }
        let item = &included[i];
        if str_eq(item.kind.as_str(), "tags") && contains_str(tag_ids, item.id.as_str()) {
            r.push(item.name.clone());
            assert(r.deep_view() =~= spec_tags(inc.take(i as int), tv).push(
                included@[i as int]@.name,
            ));
        }
        i = i + 1;
    }
    assert(inc.take(included@.len() as int) =~= inc);
    r
}

/// The post ids still to fetch: the references of type `posts` whose id
/// does not name an already stored post, in document order.
pub open spec fn spec_pending(refs: Seq<ResourceRefV>, existing: Set<u64>) -> Seq<Seq<char>>
    decreases refs.len(),
{
    if refs.len() == 0 {
        Seq::empty()
    } else {
        let rest = spec_pending(refs.drop_last(), existing);
        if refs.last().kind == "posts"@ && !existing.contains(
            spec_parse_u64_or_zero(refs.last().id),
        ) {
            rest.push(refs.last().id)
        } else {
            rest
        }
    }
}

/// The post id strings still to fetch, with already stored ids pruned.
fn pending_ids(post_refs: &Vec<ResourceRef>, existing: &HashSet<u64>) -> (r: Vec<String>)
    ensures
        r.deep_view() == spec_pending(refs_view(post_refs@), existing@),
{
    let ghost rv = refs_view(post_refs@);
    let mut r: Vec<String> = Vec::new();
    let mut i: usize = 0;
    while i < post_refs.len()
        invariant
            i <= post_refs@.len(),
            rv == refs_view(post_refs@),
            r.deep_view() == spec_pending(rv.take(i as int), existing@),
        decreases post_refs@.len() - i,
    {
        proof {
            assert(rv.take(i + 1).last() == post_refs@[i as int]@);
            assert(rv.take(i + 1).drop_last() =~= rv.take(i as int));
        }
        let item = &post_refs[i];
        if str_eq(item.kind.as_str(), "posts") {
            let id_val = parse_u64_or_zero(item.id.as_str());
            if !existing.contains(&id_val) {
                r.push(item.id.clone());
                assert(r.deep_view() =~= spec_pending(rv.take(i as int), existing@).push(
                    post_refs@[i as int]@.id,
                ));
            }
        }
        i = i + 1;
    }
    assert(rv.take(post_refs@.len() as int) =~= rv);
    r
}

/// The pending ids cut into batches of `BATCH_SIZE`, in order: every
/// batch but the last is full, none is empty, and together they are
/// exactly the pending ids.
pub open spec fn spec_chunks(ids: Seq<Seq<char>>) -> Seq<Seq<Seq<char>>>
    decreases ids.len(),
{
    if ids.len() == 0 {
        Seq::empty()
    } else if ids.len() <= BATCH_SIZE {
        seq![ids]
    } else {
        seq![ids.take(BATCH_SIZE as int)] + spec_chunks(ids.skip(BATCH_SIZE as int))
    }
}

/// Cut the pending id strings into fetch batches of `BATCH_SIZE`.
fn chunk_ids(ids: &Vec<String>) -> (r: Vec<Vec<String>>)
    ensures
        r.deep_view() == spec_chunks(ids.deep_view()),
{
    let ghost dv = ids.deep_view();
    let n = ids.len();
    let mut r: Vec<Vec<String>> = Vec::new();
    let mut p: usize = 0;
    proof {
        assert(dv.len() == n);
        assert(dv.skip(0) =~= dv);
        assert(r.deep_view() =~= Seq::<Seq<Seq<char>>>::empty());
    }
    while p < n
        invariant
            p <= n,
            n == ids@.len(),
            dv == ids.deep_view(),
            spec_chunks(dv) =~= r.deep_view() + spec_chunks(dv.skip(p as int)),
        decreases n - p,
    {
        let upto = if n - p <= BATCH_SIZE {
            n
        } else {
            p + BATCH_SIZE
        };
        let mut batch: Vec<String> = Vec::new();
        let mut i: usize = p;
        while i < upto
            invariant
                p <= i <= upto <= n,
                n == ids@.len(),
                batch@ =~= ids@.subrange(p as int, i as int),
            decreases upto - i,
        {
            batch.push(ids[i].clone());
            assert(batch@ =~= ids@.subrange(p as int, i + 1));
            i = i + 1;
        }
        proof {
            assert forall|k: int| 0 <= k < batch@.len() implies batch.deep_view()[k]
                == dv.subrange(p as int, upto as int)[k] by {
                assert(batch@[k] == ids@[p + k]);
            }
            assert(batch.deep_view() =~= dv.subrange(p as int, upto as int));
            let tail = dv.skip(p as int);
            if n - p <= BATCH_SIZE {
                assert(batch.deep_view() =~= tail);
                assert(spec_chunks(tail) == seq![tail]);
                assert(tail.len() > 0);
            } else {
                assert(batch.deep_view() =~= tail.take(BATCH_SIZE as int));
                assert(dv.skip(upto as int) =~= tail.skip(BATCH_SIZE as int));
            }
        }
        r.push(batch);
        proof {
            assert(r.deep_view() =~= r.deep_view().drop_last().push(batch.deep_view()));
            assert(spec_chunks(dv) =~= r.deep_view() + spec_chunks(dv.skip(upto as int)));
        }
        p = upto;
    }
    proof {
        assert(dv.skip(p as int) =~= Seq::<Seq<char>>::empty());
        assert(r.deep_view() =~= r.deep_view() + spec_chunks(dv.skip(p as int)));
    }
    r
}

/// The batches hold exactly the pending ids, in order; none is empty and
/// none exceeds `BATCH_SIZE`.
pub proof fn lemma_chunks_cover(ids: Seq<Seq<char>>)
    ensures
        spec_chunks(ids).flatten() == ids,
        forall|i: int|
            0 <= i < spec_chunks(ids).len() ==> 0 < (#[trigger] spec_chunks(ids)[i]).len()
                <= BATCH_SIZE,
    decreases ids.len(),
{
    if ids.len() == 0 {
        assert(spec_chunks(ids).flatten() =~= ids);
    } else if ids.len() <= BATCH_SIZE {
        let c = seq![ids];
        assert(c.first() == ids);
        assert(c.drop_first() =~= Seq::<Seq<Seq<char>>>::empty());
        assert(Seq::<Seq<Seq<char>>>::empty().flatten() =~= Seq::<Seq<char>>::empty());
        assert(c.flatten() == c.first() + c.drop_first().flatten());
        assert(c.flatten() =~= ids);
    } else {
        lemma_chunks_cover(ids.skip(BATCH_SIZE as int));
        let rest = spec_chunks(ids.skip(BATCH_SIZE as int));
        let c = seq![ids.take(BATCH_SIZE as int)] + rest;
        assert(c.first() == ids.take(BATCH_SIZE as int));
        assert(c.drop_first() =~= rest);
        assert(c.flatten() == ids.take(BATCH_SIZE as int) + rest.flatten());
        assert(ids.take(BATCH_SIZE as int) + ids.skip(BATCH_SIZE as int) =~= ids);
        assert forall|i: int| 0 <= i < c.len() implies 0 < (#[trigger] c[i]).len()
            <= BATCH_SIZE by {
            if i > 0 {
                assert(c[i] == rest[i - 1]);
            }
        }
    }
}

/// The discussion ids an index page lists: the ids of its references of
/// type `discussions`, in page order.
pub open spec fn spec_index_ids(items: Seq<ResourceRefV>) -> Seq<u64>
    decreases items.len(),
{
    if items.len() == 0 {
        Seq::empty()
    } else {
        let rest = spec_index_ids(items.drop_last());
        if items.last().kind == "discussions"@ {
            rest.push(spec_parse_u64_or_zero(items.last().id))
        } else {
            rest
        }
    }
}

/// What the metadata fetch of one discussion yields: the discussion
/// without posts yet, and the post id batches still to fetch.
#[derive(Debug)]
pub struct FetchPlan {
    pub discussion: Discussion,
    pub batches: Vec<Vec<String>>,
}

/// The author id a discussion document names, when its `user` reference
/// carries a readable id.
pub open spec fn spec_author_id(d: DiscussionDocV) -> Option<u64> {
    match d.user_id {
        None => None,
        Some(s) => crate::strutil::spec_parse_u64(s),
    }
}

/// The creation instant a discussion document names, when its `createdAt`
/// attribute is present and a valid RFC 3339 string.
pub open spec fn spec_created(d: DiscussionDocV) -> Option<Timestamp> {
    match d.created_at {
        None => None,
        Some(s) => rfc3339_of(s),
    }
}

/// The first reason a discussion document is malformed, in the order the
/// fields are read; `None` when the document can be turned into a
/// discussion.
pub open spec fn spec_discussion_error(d: DiscussionDocV) -> Option<FetchError> {
    if d.title is None {
        Some(FetchError::MissingTitle)
    } else if d.frontpage is None {
        Some(FetchError::MissingFrontpage)
    } else if spec_author_id(d) is None {
        Some(FetchError::BadAuthorId)
    } else if spec_created(d) is None {
        Some(FetchError::BadCreatedAt)
    } else {
        None
    }
}

/// The discussion a well-formed document denotes, without posts: author
/// names resolved against the included users, tags cross-referenced by
/// type and id.
pub open spec fn spec_discussion_of(id: u64, d: DiscussionDocV) -> DiscussionV {
    let uid = spec_author_id(d)->Some_0;
    let names = match spec_user_of(d.included, uid) {
        Some(u) => u,
        None => (Seq::<char>::empty(), Seq::<char>::empty()),
    };
    DiscussionV {
        id,
        user_id: uid,
        username: names.0,
        user_display_name: names.1,
        title: d.title->Some_0,
        tags: spec_tags(d.included, d.tag_ids),
        posts: Seq::empty(),
        is_frontpage: d.frontpage->Some_0,
        created_at: spec_created(d)->Some_0,
    }
}

/// Read one discussion document: the discussion it denotes and the
/// batches of post ids still to fetch — or exactly the first malformed
/// field, as an error. Succeeds if and only if the document is well
/// formed.
pub fn parse_discussion(id: u64, doc: &DiscussionDoc, options: &GetDiscussionOptions) -> (r:
    Result<FetchPlan, FetchError>)
    ensures
        match r {
            Ok(plan) => spec_discussion_error(doc@) is None && plan.discussion@
                == spec_discussion_of(id, doc@) && plan.discussion.posts@.len() == 0
                && plan.batches.deep_view() == spec_chunks(
                spec_pending(doc@.post_refs, options.existing_post_ids@),
            ),
            Err(e) => spec_discussion_error(doc@) == Some(e),
        },
{
    let title = match &doc.title {
        Some(t) => t.clone(),
        None => {
            return Err(FetchError::MissingTitle);
        },
    };
    let frontpage = match doc.frontpage {
        Some(b) => b,
        None => {
            return Err(FetchError::MissingFrontpage);
        },
    };
    let author = match &doc.user_id {
        Some(s) => match crate::strutil::parse_u64(s.as_str()) {
            Some(v) => v,
            None => {
                return Err(FetchError::BadAuthorId);
            },
        },
        None => {
            return Err(FetchError::BadAuthorId);
        },
    };
    let created = match &doc.created_at {
        Some(s) => match parse_rfc3339(s.as_str()) {
            Some(t) => t,
            None => {
                return Err(FetchError::BadCreatedAt);
            },
        },
        None => {
            return Err(FetchError::BadCreatedAt);
        },
    };
    let names = match user_of(&doc.included, author) {
        Some(u) => u,
        None => (String::new(), String::new()),
    };
    let tags = collect_tags(&doc.included, &doc.tag_ids);
    let pending = pending_ids(&doc.post_refs, &options.existing_post_ids);
    let batches = chunk_ids(&pending);
    let discussion = Discussion {
        id,
        user_id: author,
        username: names.0,
        user_display_name: names.1,
        title,
        tags,
        posts: Vec::new(),
        is_frontpage: frontpage,
        created_at: created,
    };
    proof {
        assert(posts_view(discussion.posts@) =~= Seq::<PostV>::empty());
        assert(discussion@ =~= spec_discussion_of(id, doc@));
    }
    Ok(FetchPlan { discussion, batches })
}

/// The post one post entity denotes: only the sanitizer touches its
/// content, the user map names its author, and an unreadable creation
/// time falls back to the epoch.
pub open spec fn spec_post_of(did: u64, it: PostItemV, inc: Seq<IncludedItemV>) -> PostV {
    let sanitized = spec_sanitize(it.content_html);
    let uid = spec_parse_u64_or_zero(it.user_id);
    let names = match spec_user_of(inc, uid) {
        Some(u) => u,
        None => (Seq::<char>::empty(), Seq::<char>::empty()),
    };
    PostV {
        id: spec_parse_u64_or_zero(it.id),
        user_id: uid,
        discussion_id: did,
        reply_to_id: sanitized.0,
        username: names.0,
        user_display_name: names.1,
        content: sanitized.1,
        created_at: match rfc3339_of(it.created_at) {
            Some(t) => t,
            None => Timestamp { seconds: 0, nanos: 0, offset_seconds: 0 },
        },
    }
}

/// The posts of one batch document, in document order: only entities of
/// type `posts` whose content type is `comment` become posts; everything
/// else is dropped, not stored.
pub open spec fn spec_batch_posts_rec(did: u64, items: Seq<PostItemV>, inc: Seq<IncludedItemV>) -> Seq<
    PostV,
>
    decreases items.len(),
{
    if items.len() == 0 {
        Seq::empty()
    } else {
        let rest = spec_batch_posts_rec(did, items.drop_last(), inc);
        if items.last().kind == "posts"@ && items.last().content_type == "comment"@ {
            rest.push(spec_post_of(did, items.last(), inc))
        } else {
            rest
        }
    }
}

/// The posts one batch document denotes.
pub open spec fn spec_batch_posts(did: u64, d: PostsDocV) -> Seq<PostV> {
    spec_batch_posts_rec(did, d.posts, d.included)
}

/// Read one posts batch document into posts, sanitizing each comment's
/// content inline.
pub fn parse_post_batch(discussion_id: u64, doc: &PostsDoc) -> (r: Vec<Post>)
    ensures
        posts_view(r@) == spec_batch_posts(discussion_id, doc@),
{
    let ghost items = post_items_view(doc.posts@);
    let ghost inc = included_view(doc.included@);
    let mut r: Vec<Post> = Vec::new();
    let mut i: usize = 0;
    while i < doc.posts.len()
        invariant
            i <= doc.posts@.len(),
            items == post_items_view(doc.posts@),
            inc == included_view(doc.included@),
            posts_view(r@) == spec_batch_posts_rec(discussion_id, items.take(i as int), inc),
        decreases doc.posts@.len() - i,
    {
        proof {
            assert(items.take(i + 1).last() == doc.posts@[i as int]@);
            assert(items.take(i + 1).drop_last() =~= items.take(i as int));
        }
        let item = &doc.posts[i];
        if str_eq(item.kind.as_str(), "posts") && str_eq(item.content_type.as_str(), "comment") {
            let (reply_to_id, content) = sanitize(item.content_html.as_str());
            let user_id = parse_u64_or_zero(item.user_id.as_str());
            let names = match user_of(&doc.included, user_id) {
                Some(u) => u,
                None => (String::new(), String::new()),
            };
            let created_at = match parse_rfc3339(item.created_at.as_str()) {
                Some(t) => t,
                None => Timestamp::epoch(),
            };
            let post = Post {
                id: parse_u64_or_zero(item.id.as_str()),
                user_id,
                discussion_id,
                reply_to_id,
                username: names.0,
                user_display_name: names.1,
                content,
                created_at,
            };
            proof {
                assert(post@ =~= spec_post_of(discussion_id, doc.posts@[i as int]@, inc));
            }
            r.push(post);
            assert(posts_view(r@) =~= spec_batch_posts_rec(
                discussion_id,
                items.take(i as int),
                inc,
            ).push(spec_post_of(discussion_id, doc.posts@[i as int]@, inc)));
        }
        i = i + 1;
    }
    assert(items.take(doc.posts@.len() as int) =~= items);
    r
}

/// The posts are in ascending id order.
pub open spec fn sorted_by_id(ps: Seq<PostV>) -> bool {
    forall|i: int, j: int| 0 <= i < j < ps.len() ==> ps[i].id <= ps[j].id
}

/// The posts in ascending id order: a permutation of the input, sorted.
pub fn sort_posts_by_id(v: Vec<Post>) -> (r: Vec<Post>)
    ensures
        sorted_by_id(posts_view(r@)),
        posts_view(r@).to_multiset() == posts_view(v@).to_multiset(),
{
    broadcast use vstd::seq_lib::group_to_multiset_ensures;

    let ghost full = posts_view(v@);
    let mut w = v;
    let mut r: Vec<Post> = Vec::new();
    while w.len() > 0
        invariant
            sorted_by_id(posts_view(r@)),
            posts_view(r@).to_multiset().add(posts_view(w@).to_multiset()) == full.to_multiset(),
            forall|a: int, b: int|
                0 <= a < r@.len() && 0 <= b < w@.len() ==> posts_view(r@)[a].id <= posts_view(
                    w@,
                )[b].id,
        decreases w@.len(),
    {
        let mut k: usize = 0;
        let mut t: usize = 1;
        while t < w.len()
            invariant
                k < t <= w@.len() || (t <= w@.len() && k == 0),
                k < w@.len(),
                forall|j: int| 0 <= j < t ==> w@[k as int].id <= (#[trigger] w@[j]).id,
            decreases w@.len() - t,
        {
            if w[t].id < w[k].id {
                k = t;
            }
            t = t + 1;
        }
        let ghost wv = posts_view(w@);
        let ghost rv = posts_view(r@);
        let p = w.remove(k);
        proof {
            broadcast use vstd::multiset::group_multiset_axioms;

            vstd::seq_lib::to_multiset_remove(wv, k as int);
            assert(posts_view(w@) =~= wv.remove(k as int));
            assert(p@ == wv[k as int]);
        }
        r.push(p);
        proof {
            broadcast use vstd::multiset::group_multiset_axioms;

            vstd::seq_lib::to_multiset_build(rv, p@);
            vstd::seq_lib::to_multiset_contains(wv, p@);
            assert(posts_view(r@) =~= rv.push(p@));
            assert(wv.contains(p@));
            assert(posts_view(r@).to_multiset().add(posts_view(w@).to_multiset())
                =~= rv.to_multiset().add(wv.to_multiset()));
        }
    }
    proof {
        broadcast use vstd::multiset::group_multiset_axioms;

        assert(posts_view(w@) =~= Seq::<PostV>::empty());
        assert(Seq::<PostV>::empty().to_multiset() =~= Multiset::<PostV>::empty());
        assert(posts_view(r@).to_multiset() =~= full.to_multiset());
    }
    r
}

/// The batch outcomes that succeeded, in batch order.
pub open spec fn spec_successes(gs: Seq<Option<Seq<PostV>>>) -> Seq<Seq<PostV>>
    decreases gs.len(),
{
    if gs.len() == 0 {
        Seq::empty()
    } else {
        let rest = spec_successes(gs.drop_last());
        match gs.last() {
            Some(b) => rest.push(b),
            None => rest,
        }
    }
}

/// The concatenation of the batches, in order.
pub open spec fn spec_concat(gs: Seq<Seq<PostV>>) -> Seq<PostV>
    decreases gs.len(),
{
    if gs.len() == 0 {
        Seq::empty()
    } else {
        spec_concat(gs.drop_last()) + gs.last()
    }
}

/// The union of the successful batches' posts.
pub open spec fn spec_success_posts(gs: Seq<Option<Seq<PostV>>>) -> Seq<PostV> {
    spec_concat(spec_successes(gs))
}

/// Some batch failed.
pub open spec fn spec_any_failed(gs: Seq<Option<Seq<PostV>>>) -> bool {
    exists|i: int| 0 <= i < gs.len() && gs[i] is None
}

/// Reassemble the discussion from its batch outcomes, one per attempted
/// batch, `None` for a failed one. The posts are exactly the union of the
/// successful batches, sorted ascending by post id whatever order the
/// batches completed in; the outcome is `PartialError` exactly when some
/// batch failed, and `Success` otherwise — in particular when no batch
/// was attempted at all, which leaves the posts empty.
pub fn assemble_discussion(discussion: Discussion, groups: Vec<Option<Vec<Post>>>) -> (r:
    GetDiscussionResult)
    ensures
        !(r is Impossible),
        (r is PartialError) <==> spec_any_failed(groups.deep_view()),
        sorted_by_id(crate::api::result_discussion(r).posts),
        crate::api::result_discussion(r).posts.to_multiset() == spec_success_posts(
            groups.deep_view(),
        ).to_multiset(),
        crate::api::result_discussion(r) == (DiscussionV {
            posts: crate::api::result_discussion(r).posts,
            ..discussion@
        }),
        groups.deep_view().len() == 0 ==> (r is Success) && crate::api::result_discussion(
            r,
        ).posts.len() == 0,
{
    broadcast use vstd::seq_lib::group_to_multiset_ensures;

    let ghost gv = groups.deep_view();
    let mut groups = groups;
    let mut all: Vec<Post> = Vec::new();
    let mut partial = false;
    proof {
        assert(gv.take(0) =~= Seq::<Option<Seq<PostV>>>::empty());
        assert(groups.deep_view() =~= gv.skip(0));
        assert(posts_view(all@) =~= spec_success_posts(gv.take(0)));
    }
    while groups.len() > 0
        invariant
            groups@.len() <= gv.len(),
            groups.deep_view() =~= gv.skip(gv.len() - groups@.len()),
            partial == spec_any_failed(gv.take(gv.len() - groups@.len())),
            posts_view(all@) =~= spec_success_posts(gv.take(gv.len() - groups@.len())),
        decreases groups@.len(),
    {
        let ghost idx = gv.len() - groups@.len();
        let ghost before_dv = groups.deep_view();
        let ghost before_seq = groups@;
        let g = groups.remove(0);
        proof {
            assert(g.deep_view() == before_dv[0]);
            assert(before_dv[0] == gv.skip(idx)[0]);
            assert(gv.skip(idx)[0] == gv[idx]);
            assert forall|k2: int|
                0 <= k2 < groups.deep_view().len() implies groups.deep_view()[k2] == gv.skip(
                idx + 1,
            )[k2] by {
                assert(groups@[k2] == before_seq[k2 + 1]);
                assert(groups.deep_view()[k2] == before_seq[k2 + 1].deep_view());
                assert(before_dv[k2 + 1] == before_seq[k2 + 1].deep_view());
                assert(before_dv[k2 + 1] == gv.skip(idx)[k2 + 1]);
                assert(gv.skip(idx)[k2 + 1] == gv[idx + 1 + k2]);
            }
            assert(groups.deep_view() =~= gv.skip(idx + 1));
            assert(gv.take(idx + 1).drop_last() =~= gv.take(idx));
            assert(gv.take(idx + 1).last() == gv[idx]);
        }
        match g {
            Some(mut ps) => {
                proof {
                    assert(ps.deep_view() == gv[idx]->Some_0);
                    assert(posts_view(ps@) =~= ps.deep_view());
                    assert(spec_successes(gv.take(idx + 1)) =~= spec_successes(gv.take(idx)).push(
                        ps.deep_view(),
                    ));
                    lemma_concat_push(spec_successes(gv.take(idx)), ps.deep_view());
                }
                let ghost before = posts_view(all@);
                all.append(&mut ps);
                proof {
                    assert(posts_view(all@) =~= before + gv[idx]->Some_0);
                }
                if partial {
                    assert(spec_any_failed(gv.take(idx + 1))) by {
                        let w = choose|i: int| 0 <= i < gv.take(idx).len() && gv.take(idx)[i]
                            is None;
                        assert(gv.take(idx + 1)[w] is None);
                    }
                } else {
                    assert(!spec_any_failed(gv.take(idx + 1))) by {
                        assert forall|i: int|
                            0 <= i < gv.take(idx + 1).len() implies !(#[trigger] gv.take(
                            idx + 1,
                        )[i] is None) by {
                            if i < idx {
                                assert(gv.take(idx)[i] == gv.take(idx + 1)[i]);
                            }
                        }
                    }
                }
            },
            None => {
                proof {
                    assert(spec_successes(gv.take(idx + 1)) =~= spec_successes(gv.take(idx)));
                    assert(gv.take(idx + 1)[idx] is None);
                    assert(spec_any_failed(gv.take(idx + 1)));
                }
                partial = true;
            },
        }
    }
    proof {
        assert(gv.take(gv.len() as int) =~= gv);
    }
    let sorted = sort_posts_by_id(all);
    let mut d = discussion;
    d.posts = sorted;
    proof {
        if gv.len() == 0 {
            assert(spec_successes(gv) =~= Seq::<Seq<PostV>>::empty());
            assert(spec_success_posts(gv).to_multiset() =~= Seq::<PostV>::empty().to_multiset());
            assert(posts_view(d.posts@).len() == posts_view(d.posts@).to_multiset().len());
        }
    }
    if partial {
        GetDiscussionResult::PartialError(d)
    } else {
        GetDiscussionResult::Success(d)
    }
}

proof fn lemma_concat_push(gs: Seq<Seq<PostV>>, b: Seq<PostV>)
    ensures
        spec_concat(gs.push(b)) == spec_concat(gs) + b,
{
    assert(gs.push(b).drop_last() =~= gs);
    assert(gs.push(b).last() == b);
}

/// When every referenced post id is already stored, nothing is pending:
/// the plan holds zero batches, the pipeline issues no post fetch at all,
/// and assembling the empty outcome list still yields `Success`.
pub proof fn lemma_all_known_no_batches(refs: Seq<ResourceRefV>, existing: Set<u64>)
    requires
        forall|i: int|
            0 <= i < refs.len() && (#[trigger] refs[i]).kind == "posts"@ ==> existing.contains(
                spec_parse_u64_or_zero(refs[i].id),
            ),
    ensures
        spec_pending(refs, existing).len() == 0,
        spec_chunks(spec_pending(refs, existing)).len() == 0,
    decreases refs.len(),
{
    if refs.len() > 0 {
        assert(forall|i: int| 0 <= i < refs.len() - 1 ==> #[trigger] refs.drop_last()[i]
            == refs[i]);
        lemma_all_known_no_batches(refs.drop_last(), existing);
        assert(refs.last() == refs[refs.len() - 1]);
    }
}

/// The discussion ids of one index listing page, in page order.
pub fn extract_index_ids(doc: &IndexDoc) -> (r: Vec<u64>)
    ensures
        r@ == spec_index_ids(doc@),
{
    let ghost dv = doc@;
    let mut r: Vec<u64> = Vec::new();
    let mut i: usize = 0;
    while i < doc.items.len()
        invariant
            i <= doc.items@.len(),
            dv == refs_view(doc.items@),
            r@ == spec_index_ids(dv.take(i as int)),
        decreases doc.items@.len() - i,
    {
        proof {
            assert(dv.take(i + 1).last() == doc.items@[i as int]@);
            assert(dv.take(i + 1).drop_last() =~= dv.take(i as int));
        }
        let item = &doc.items[i];
        if str_eq(item.kind.as_str(), "discussions") {
            let v = parse_u64_or_zero(item.id.as_str());
            r.push(v);
        }
        i = i + 1;
    }
    assert(dv.take(doc.items@.len() as int) =~= dv);
    r
}

} // verus!
