//! An idempotent model of the durable state: the discussion and post rows
//! and the job ledger. Each table is a vector of rows with pairwise
//! distinct keys, viewed as a map from key to row value; every write is an
//! upsert, so re-running a crawl never duplicates a row. A discussion and
//! its posts are written by one call, mirroring the single transaction the
//! database layer uses.

use vstd::prelude::*;
use crate::entity::{
    jobs_view, posts_view, Discussion, DiscussionV, Job, JobStatus, JobV, Post, PostV,
};
use crate::strutil::str_eq;

verus! {

/// The rows of a table, viewed as a map: later rows with the same key
/// overwrite earlier ones (there are none once the table is well formed).
pub open spec fn table_map<T, K, V>(s: Seq<T>, key: spec_fn(T) -> K, val: spec_fn(T) -> V) -> Map<
    K,
    V,
>
    decreases s.len(),
{
    if s.len() == 0 {
        Map::empty()
    } else {
        table_map(s.drop_last(), key, val).insert(key(s.last()), val(s.last()))
    }
}

/// No two rows share a key.
pub open spec fn keys_unique<T, K>(s: Seq<T>, key: spec_fn(T) -> K) -> bool {
    forall|i: int, j: int| 0 <= i < j < s.len() ==> key(#[trigger] s[i]) != key(#[trigger] s[j])
}

pub proof fn lemma_table_map_contains<T, K, V>(s: Seq<T>, key: spec_fn(T) -> K, val: spec_fn(
    T,
) -> V, k: K)
    ensures
        table_map(s, key, val).contains_key(k) <==> exists|i: int|
            0 <= i < s.len() && key(#[trigger] s[i]) == k,
    decreases s.len(),
{
    if s.len() > 0 {
        lemma_table_map_contains(s.drop_last(), key, val, k);
        if key(s.last()) == k {
            assert(key(s[s.len() - 1]) == k);
        } else if table_map(s, key, val).contains_key(k) {
            let i = choose|i: int| 0 <= i < s.drop_last().len() && key(#[trigger] s.drop_last()[i])
                == k;
            assert(key(s[i]) == k);
        } else {
            assert forall|i: int| 0 <= i < s.len() implies key(#[trigger] s[i]) != k by {
                if i < s.len() - 1 {
                    assert(s.drop_last()[i] == s[i]);
                }
            }
        }
    }
}

pub proof fn lemma_table_map_index<T, K, V>(s: Seq<T>, key: spec_fn(T) -> K, val: spec_fn(T) -> V, i: int)
    requires
        keys_unique(s, key),
        0 <= i < s.len(),
    ensures
        table_map(s, key, val).contains_key(key(s[i])),
        table_map(s, key, val)[key(s[i])] == val(s[i]),
    decreases s.len(),
{
    if i == s.len() - 1 {
    } else {
        assert(s.drop_last()[i] == s[i]);
        lemma_table_map_index(s.drop_last(), key, val, i);
    }
}

/// Replacing the row at `i` by a row with the same key updates the map at
/// that key and nothing else.
pub proof fn lemma_table_map_update<T, K, V>(
    s: Seq<T>,
    key: spec_fn(T) -> K,
    val: spec_fn(T) -> V,
    i: int,
    t: T,
)
    requires
        keys_unique(s, key),
        0 <= i < s.len(),
        key(t) == key(s[i]),
    ensures
        table_map(s.update(i, t), key, val) == table_map(s, key, val).insert(key(t), val(t)),
    decreases s.len(),
{
    let s2 = s.update(i, t);
    if i == s.len() - 1 {
        assert(s2.drop_last() =~= s.drop_last());
        assert(table_map(s2, key, val) =~= table_map(s, key, val).insert(key(t), val(t)));
    } else {
        assert(s2.drop_last() =~= s.drop_last().update(i, t));
        assert(s.drop_last()[i] == s[i]);
        lemma_table_map_update(s.drop_last(), key, val, i, t);
        assert(key(s.last()) != key(t));
        assert(table_map(s2, key, val) == table_map(s.drop_last(), key, val).insert(
            key(t),
            val(t),
        ).insert(key(s.last()), val(s.last())));
        assert(table_map(s2, key, val) =~= table_map(s, key, val).insert(key(t), val(t)));
    }
}

pub proof fn lemma_table_map_push<T, K, V>(s: Seq<T>, key: spec_fn(T) -> K, val: spec_fn(T) -> V, t: T)
    ensures
        table_map(s.push(t), key, val) == table_map(s, key, val).insert(key(t), val(t)),
{
    assert(s.push(t).drop_last() =~= s);
}

/// The key of a discussion row.
pub open spec fn disc_key() -> spec_fn(Discussion) -> u64 {
    |d: Discussion| d.id
}

/// The value of a discussion row.
pub open spec fn disc_val() -> spec_fn(Discussion) -> DiscussionV {
    |d: Discussion| d@
}

/// The key of a post row.
pub open spec fn post_key() -> spec_fn(Post) -> u64 {
    |p: Post| p.id
}

/// The value of a post row.
pub open spec fn post_val() -> spec_fn(Post) -> PostV {
    |p: Post| p@
}

/// The key of a ledger row: the entity type and the entity id.
pub open spec fn job_key() -> spec_fn(Job) -> (Seq<char>, u64) {
    |j: Job| (j.entity@, j.entity_id)
}

/// The value of a ledger row: the latest status.
pub open spec fn job_val() -> spec_fn(Job) -> JobStatus {
    |j: Job| j.status
}

/// The durable state: discussions, posts, and the job ledger.
pub struct Store {
    pub discussions: Vec<Discussion>,
    pub posts: Vec<Post>,
    pub jobs: Vec<Job>,
}

impl Store {
    /// Each table holds at most one row per key, and a stored discussion
    /// row carries no posts: posts live in their own table.
    pub open spec fn wf(&self) -> bool {
        &&& keys_unique(self.discussions@, disc_key())
        &&& keys_unique(self.posts@, post_key())
        &&& keys_unique(self.jobs@, job_key())
        &&& forall|i: int|
            0 <= i < self.discussions@.len() ==> (#[trigger] self.discussions@[i]).posts@.len()
                == 0
    }

    /// The discussion table: id to row value.
    pub open spec fn disc_map(&self) -> Map<u64, DiscussionV> {
        table_map(self.discussions@, disc_key(), disc_val())
    }

    /// The post table: id to row value.
    pub open spec fn post_map(&self) -> Map<u64, PostV> {
        table_map(self.posts@, post_key(), post_val())
    }

    /// The ledger: (entity, entity id) to its most recent status.
    pub open spec fn job_map(&self) -> Map<(Seq<char>, u64), JobStatus> {
        table_map(self.jobs@, job_key(), job_val())
    }

    pub fn new() -> (r: Store)
        ensures
            r.wf(),
            r.disc_map() == Map::<u64, DiscussionV>::empty(),
            r.post_map() == Map::<u64, PostV>::empty(),
            r.job_map() == Map::<(Seq<char>, u64), JobStatus>::empty(),
            r.jobs@.len() == 0,
    {
        Store { discussions: Vec::new(), posts: Vec::new(), jobs: Vec::new() }
    }
}

/// Insert or replace the post row with this id.
fn upsert_post(posts: &mut Vec<Post>, p: Post)
    requires
        keys_unique(old(posts)@, post_key()),
    ensures
        keys_unique(final(posts)@, post_key()),
        table_map(final(posts)@, post_key(), post_val()) == table_map(
            old(posts)@,
            post_key(),
            post_val(),
        ).insert(p.id, p@),
{
    let ghost orig = posts@;
    let mut i: usize = 0;
    while i < posts.len()
        invariant
            posts@ == orig,
            orig == old(posts)@,
            keys_unique(orig, post_key()),
            i <= posts@.len(),
            forall|j: int| 0 <= j < i ==> (#[trigger] posts@[j]).id != p.id,
        decreases posts@.len() - i,
    {
        if posts[i].id == p.id {
            proof {
                assert(post_key()(p) == post_key()(orig[i as int]));
                lemma_table_map_update(orig, post_key(), post_val(), i as int, p);
            }
            posts[i] = p;
            assert(posts@ == orig.update(i as int, p));
            assert forall|a: int, b: int| 0 <= a < b < posts@.len() implies post_key()(
                #[trigger] posts@[a],
            ) != post_key()(#[trigger] posts@[b]) by {
                assert(post_key()(orig[a]) != post_key()(orig[b]));
            }
            assert(post_key()(p) == p.id && post_val()(p) == p@);
            return ;
        }
        i = i + 1;
    }
    proof {
        lemma_table_map_push(posts@, post_key(), post_val(), p);
    }
    posts.push(p);
    assert(keys_unique(posts@, post_key())) by {
        assert(forall|j: int| 0 <= j < orig.len() ==> #[trigger] posts@[j] == orig[j]);
    }
}

impl Post {
    /// A copy whose mathematical value is the same.
    pub fn duplicate(&self) -> (r: Post)
        ensures
            r@ == self@,
            r.id == self.id,
    {
        Post {
            id: self.id,
            user_id: self.user_id,
            discussion_id: self.discussion_id,
            reply_to_id: self.reply_to_id,
            username: self.username.clone(),
            user_display_name: self.user_display_name.clone(),
            content: self.content.clone(),
            created_at: self.created_at,
        }
    }

    /// Upsert this post row, keyed by its id: an existing row is
    /// overwritten in place, never duplicated.
    pub fn save(&self, store: &mut Store)
        requires
            old(store).wf(),
        ensures
            final(store).wf(),
            final(store).post_map() == old(store).post_map().insert(self.id, self@),
            final(store).disc_map() == old(store).disc_map(),
            final(store).job_map() == old(store).job_map(),
            final(store).discussions@ == old(store).discussions@,
            final(store).jobs@ == old(store).jobs@,
    {
        upsert_post(&mut store.posts, self.duplicate());
    }
}

/// Copies of the strings, with the same values.
fn clone_strings(v: &Vec<String>) -> (r: Vec<String>)
    ensures
        r@ == v@,
        r.deep_view() == v.deep_view(),
{
    let mut r: Vec<String> = Vec::new();
    let mut i: usize = 0;
    while i < v.len()
        invariant
            i <= v@.len(),
            r@ == v@.subrange(0, i as int),
        decreases v@.len() - i,
    {
        r.push(v[i].clone());
        assert(r@ =~= v@.subrange(0, i + 1));
        i = i + 1;
    }
    assert(r@ =~= v@);
    assert(r.deep_view() =~= v.deep_view());
    r
}

/// The stored row of a discussion: its fields with the posts left out,
/// since posts live in their own table.
pub open spec fn spec_disc_row(d: DiscussionV) -> DiscussionV {
    DiscussionV { posts: Seq::empty(), ..d }
}

/// The post table after the posts of one fetched discussion are upserted
/// in order.
pub open spec fn spec_save_posts(m: Map<u64, PostV>, ps: Seq<PostV>) -> Map<u64, PostV>
    decreases ps.len(),
{
    if ps.len() == 0 {
        m
    } else {
        spec_save_posts(m.insert(ps[0].id, ps[0]), ps.drop_first())
    }
}

proof fn lemma_spec_save_posts_push(m: Map<u64, PostV>, ps: Seq<PostV>, p: PostV)
    ensures
        spec_save_posts(m, ps.push(p)) == spec_save_posts(m, ps).insert(p.id, p),
    decreases ps.len(),
{
    if ps.len() == 0 {
        assert(ps.push(p)[0] == p);
        assert(ps.push(p).drop_first() =~= Seq::<PostV>::empty());
        assert(spec_save_posts(m, ps.push(p)) == spec_save_posts(
            m.insert(p.id, p),
            ps.push(p).drop_first(),
        ));
        assert(spec_save_posts(m.insert(p.id, p), Seq::<PostV>::empty()) == m.insert(p.id, p));
        assert(spec_save_posts(m, ps) == m);
    } else {
        assert(ps.push(p)[0] == ps[0]);
        assert(ps.push(p).drop_first() =~= ps.drop_first().push(p));
        assert(spec_save_posts(m, ps.push(p)) == spec_save_posts(
            m.insert(ps[0].id, ps[0]),
            ps.drop_first().push(p),
        ));
        lemma_spec_save_posts_push(m.insert(ps[0].id, ps[0]), ps.drop_first(), p);
        assert(spec_save_posts(m, ps) == spec_save_posts(
            m.insert(ps[0].id, ps[0]),
            ps.drop_first(),
        ));
    }
}

/// Insert or replace the discussion row with this id.
fn upsert_discussion(discussions: &mut Vec<Discussion>, d: Discussion)
    requires
        keys_unique(old(discussions)@, disc_key()),
        forall|i: int|
            0 <= i < old(discussions)@.len() ==> (#[trigger] old(discussions)@[i]).posts@.len()
                == 0,
        d.posts@.len() == 0,
    ensures
        keys_unique(final(discussions)@, disc_key()),
        forall|i: int|
            0 <= i < final(discussions)@.len() ==> (#[trigger] final(discussions)@[i]).posts@.len()
                == 0,
        table_map(final(discussions)@, disc_key(), disc_val()) == table_map(
            old(discussions)@,
            disc_key(),
            disc_val(),
        ).insert(d.id, d@),
{
    let ghost orig = discussions@;
    let mut i: usize = 0;
    while i < discussions.len()
        invariant
            discussions@ == orig,
            orig == old(discussions)@,
            keys_unique(orig, disc_key()),
            i <= discussions@.len(),
            d.posts@.len() == 0,
            forall|j: int| 0 <= j < orig.len() ==> (#[trigger] orig[j]).posts@.len() == 0,
            forall|j: int| 0 <= j < i ==> (#[trigger] discussions@[j]).id != d.id,
        decreases discussions@.len() - i,
    {
        if discussions[i].id == d.id {
            proof {
                assert(disc_key()(d) == disc_key()(orig[i as int]));
                lemma_table_map_update(orig, disc_key(), disc_val(), i as int, d);
            }
            discussions[i] = d;
            assert(discussions@ == orig.update(i as int, d));
            assert forall|a: int, b: int| 0 <= a < b < discussions@.len() implies disc_key()(
                #[trigger] discussions@[a],
            ) != disc_key()(#[trigger] discussions@[b]) by {
                assert(disc_key()(orig[a]) != disc_key()(orig[b]));
            }
            assert forall|j: int| 0 <= j < discussions@.len() implies (
            #[trigger] discussions@[j]).posts@.len() == 0 by {
                if j != i {
                    assert(discussions@[j] == orig[j]);
                }
            }
            assert(disc_key()(d) == d.id && disc_val()(d) == d@);
            return ;
        }
        i = i + 1;
    }
    proof {
        lemma_table_map_push(discussions@, disc_key(), disc_val(), d);
    }
    discussions.push(d);
    assert(forall|j: int| 0 <= j < orig.len() ==> #[trigger] discussions@[j] == orig[j]);
    assert(keys_unique(discussions@, disc_key()));
    assert(forall|j: int|
        0 <= j < discussions@.len() ==> (#[trigger] discussions@[j]).posts@.len() == 0);
}

impl Discussion {
    /// The row this discussion stores: a copy of its fields with no posts.
    fn row_copy(&self) -> (r: Discussion)
        ensures
            r@ == spec_disc_row(self@),
            r.id == self.id,
            r.posts@.len() == 0,
    {
        let r = Discussion {
            id: self.id,
            user_id: self.user_id,
            username: self.username.clone(),
            user_display_name: self.user_display_name.clone(),
            title: self.title.clone(),
            tags: clone_strings(&self.tags),
            posts: Vec::new(),
            is_frontpage: self.is_frontpage,
            created_at: self.created_at,
        };
        proof {
            assert(posts_view(r.posts@) =~= Seq::<PostV>::empty());
            assert(r@ =~= spec_disc_row(self@));
        }
        r
    }

    /// One transaction: upsert the discussion row, then upsert each of its
    /// posts in order, all keyed by id. Re-running the same save cannot
    /// duplicate a row, and a changed re-crawl overwrites every mutable
    /// field.
    pub fn save_with_posts(&self, store: &mut Store)
        requires
            old(store).wf(),
        ensures
            final(store).wf(),
            final(store).disc_map() == old(store).disc_map().insert(
                self.id,
                spec_disc_row(self@),
            ),
            final(store).post_map() == spec_save_posts(
                old(store).post_map(),
                posts_view(self.posts@),
            ),
            final(store).job_map() == old(store).job_map(),
            final(store).jobs@ == old(store).jobs@,
    {
        upsert_discussion(&mut store.discussions, self.row_copy());
        let ghost pv = posts_view(self.posts@);
        let ghost pm0 = table_map(store.posts@, post_key(), post_val());
        let ghost discs1 = store.discussions@;
        let ghost jobs0 = store.jobs@;
        let mut i: usize = 0;
        while i < self.posts.len()
            invariant
                i <= self.posts@.len(),
                pv == posts_view(self.posts@),
                keys_unique(store.posts@, post_key()),
                table_map(store.posts@, post_key(), post_val()) == spec_save_posts(
                    pm0,
                    pv.take(i as int),
                ),
                store.discussions@ == discs1,
                store.jobs@ == jobs0,
            decreases self.posts@.len() - i,
        {
            let p = self.posts[i].duplicate();
            proof {
                lemma_spec_save_posts_push(pm0, pv.take(i as int), pv[i as int]);
                assert(pv.take(i as int).push(pv[i as int]) =~= pv.take(i + 1));
                assert(pv[i as int] == self.posts@[i as int]@);
            }
            upsert_post(&mut store.posts, p);
            i = i + 1;
        }
        assert(pv.take(self.posts@.len() as int) =~= pv);
    }

    /// The stored discussion with this id, if any, carrying the posts of
    /// its own table that reference it, in table order.
    pub fn find_by_id(id: u64, store: &Store) -> (r: Option<Discussion>)
        requires
            store.wf(),
        ensures
            match r {
                Some(d) => store.disc_map().contains_key(id) && d@ == (DiscussionV {
                    posts: spec_posts_of(posts_view(store.posts@), id),
                    ..store.disc_map()[id]
                }),
                None => !store.disc_map().contains_key(id),
            },
    {
        let n = store.discussions.len();
        let mut i: usize = 0;
        while i < n
            invariant
                store.wf(),
                i <= n,
                n == store.discussions@.len(),
                forall|j: int| 0 <= j < i ==> (#[trigger] store.discussions@[j]).id != id,
            decreases n - i,
        {
            if store.discussions[i].id == id {
                proof {
                    lemma_table_map_index(store.discussions@, disc_key(), disc_val(), i as int);
                    assert(disc_key()(store.discussions@[i as int]) == store.discussions@[
                        i as int].id);
                    lemma_table_map_contains(store.discussions@, disc_key(), disc_val(), id);
                }
                let row = &store.discussions[i];
                let posts = collect_posts(&store.posts, id);
                let d = Discussion {
                    id: row.id,
                    user_id: row.user_id,
                    username: row.username.clone(),
                    user_display_name: row.user_display_name.clone(),
                    title: row.title.clone(),
                    tags: clone_strings(&row.tags),
                    posts,
                    is_frontpage: row.is_frontpage,
                    created_at: row.created_at,
                };
                proof {
                    assert(disc_val()(store.discussions@[i as int]) == store.discussions@[
                        i as int]@);
                    assert(d@ =~= (DiscussionV {
                        posts: spec_posts_of(posts_view(store.posts@), id),
                        ..store.disc_map()[id]
                    }));
                }
                return Some(d);
            }
            i = i + 1;
        }
        proof {
            lemma_table_map_contains(store.discussions@, disc_key(), disc_val(), id);
            assert forall|j: int| 0 <= j < store.discussions@.len() implies disc_key()(
                #[trigger] store.discussions@[j],
            ) != id by {
                assert(store.discussions@[j].id != id);
            }
        }
        None
    }
}

/// The posts that belong to the given discussion, in order.
pub open spec fn spec_posts_of(ps: Seq<PostV>, did: u64) -> Seq<PostV>
    decreases ps.len(),
{
    if ps.len() == 0 {
        Seq::empty()
    } else {
        let rest = spec_posts_of(ps.drop_last(), did);
        if ps.last().discussion_id == did {
            rest.push(ps.last())
        } else {
            rest
        }
    }
}

/// The rows of the post table that reference the given discussion, in
/// table order.
fn collect_posts(posts: &Vec<Post>, did: u64) -> (r: Vec<Post>)
    ensures
        posts_view(r@) == spec_posts_of(posts_view(posts@), did),
{
    let mut r: Vec<Post> = Vec::new();
    let n = posts.len();
    let mut i: usize = 0;
    while i < n
        invariant
            i <= n,
            n == posts@.len(),
            posts_view(r@) == spec_posts_of(posts_view(posts@).take(i as int), did),
        decreases n - i,
    {
        proof {
            assert(posts_view(posts@).take(i + 1).drop_last() =~= posts_view(posts@).take(
                i as int,
            ));
            assert(posts_view(posts@).take(i + 1).last() == posts@[i as int]@);
        }
        if posts[i].discussion_id == did {
            let p = posts[i].duplicate();
            r.push(p);
            assert(posts_view(r@) =~= spec_posts_of(posts_view(posts@).take(i as int), did).push(
                posts@[i as int]@,
            ));
        }
        i = i + 1;
    }
    assert(posts_view(posts@).take(n as int) =~= posts_view(posts@));
    r
}

impl Job {
    /// A copy whose mathematical value is the same.
    pub fn duplicate(&self) -> (r: Job)
        ensures
            r@ == self@,
    {
        Job { entity: self.entity.clone(), entity_id: self.entity_id, status: self.status }
    }

    /// Upsert this ledger row, keyed by (entity, entity id): last write
    /// wins, and no second row for the same entity ever appears.
    pub fn save(&self, store: &mut Store)
        requires
            old(store).wf(),
        ensures
            final(store).wf(),
            final(store).job_map() == old(store).job_map().insert(
                (self.entity@, self.entity_id),
                self.status,
            ),
            final(store).disc_map() == old(store).disc_map(),
            final(store).post_map() == old(store).post_map(),
            final(store).discussions@ == old(store).discussions@,
            final(store).posts@ == old(store).posts@,
    {
        upsert_job(&mut store.jobs, self.duplicate());
    }

    /// The ledger rows for this entity type whose most recent status is
    /// the one given, in table order.
    pub fn find_by_entity_status(entity: &str, status: JobStatus, store: &Store) -> (r: Vec<Job>)
        ensures
            jobs_view(r@) == spec_find_jobs(jobs_view(store.jobs@), entity@, status),
    {
        let mut r: Vec<Job> = Vec::new();
        let n = store.jobs.len();
        let mut i: usize = 0;
        while i < n
            invariant
                i <= n,
                n == store.jobs@.len(),
                jobs_view(r@) == spec_find_jobs(
                    jobs_view(store.jobs@).take(i as int),
                    entity@,
                    status,
                ),
            decreases n - i,
        {
            proof {
                assert(jobs_view(store.jobs@).take(i + 1).drop_last() =~= jobs_view(
                    store.jobs@,
                ).take(i as int));
                assert(jobs_view(store.jobs@).take(i + 1).last() == store.jobs@[i as int]@);
            }
            let matches_entity = str_eq(store.jobs[i].entity.as_str(), entity);
            if matches_entity && store.jobs[i].status == status {
                let j = store.jobs[i].duplicate();
                r.push(j);
                assert(jobs_view(r@) =~= spec_find_jobs(
                    jobs_view(store.jobs@).take(i as int),
                    entity@,
                    status,
                ).push(store.jobs@[i as int]@));
            }
            i = i + 1;
        }
        assert(jobs_view(store.jobs@).take(n as int) =~= jobs_view(store.jobs@));
        r
    }
}

/// The ledger rows with this entity type and status, in order.
pub open spec fn spec_find_jobs(js: Seq<JobV>, entity: Seq<char>, st: JobStatus) -> Seq<JobV>
    decreases js.len(),
{
    if js.len() == 0 {
        Seq::empty()
    } else {
        let rest = spec_find_jobs(js.drop_last(), entity, st);
        if js.last().entity == entity && js.last().status == st {
            rest.push(js.last())
        } else {
            rest
        }
    }
}

/// Insert or replace the ledger row with this (entity, entity id) key.
fn upsert_job(jobs: &mut Vec<Job>, j: Job)
    requires
        keys_unique(old(jobs)@, job_key()),
    ensures
        keys_unique(final(jobs)@, job_key()),
        table_map(final(jobs)@, job_key(), job_val()) == table_map(
            old(jobs)@,
            job_key(),
            job_val(),
        ).insert((j.entity@, j.entity_id), j.status),
{
    let ghost orig = jobs@;
    let mut i: usize = 0;
    while i < jobs.len()
        invariant
            jobs@ == orig,
            orig == old(jobs)@,
            keys_unique(orig, job_key()),
            i <= jobs@.len(),
            forall|k: int|
                0 <= k < i ==> job_key()(#[trigger] jobs@[k]) != (j.entity@, j.entity_id),
        decreases jobs@.len() - i,
    {
        let same_entity = str_eq(jobs[i].entity.as_str(), j.entity.as_str());
        if same_entity && jobs[i].entity_id == j.entity_id {
            proof {
                assert(job_key()(j) == job_key()(orig[i as int]));
                lemma_table_map_update(orig, job_key(), job_val(), i as int, j);
            }
            jobs[i] = j;
            assert(jobs@ == orig.update(i as int, j));
            assert forall|a: int, b: int| 0 <= a < b < jobs@.len() implies job_key()(
                #[trigger] jobs@[a],
            ) != job_key()(#[trigger] jobs@[b]) by {
                assert(job_key()(orig[a]) != job_key()(orig[b]));
            }
            assert(job_key()(j) == (j.entity@, j.entity_id) && job_val()(j) == j.status);
            return ;
        }
        assert(job_key()(jobs@[i as int]) != (j.entity@, j.entity_id));
        i = i + 1;
    }
    proof {
        lemma_table_map_push(jobs@, job_key(), job_val(), j);
    }
    jobs.push(j);
    assert(forall|k: int| 0 <= k < orig.len() ==> #[trigger] jobs@[k] == orig[k]);
    assert(keys_unique(jobs@, job_key()));
}

/// The last post with the given id among those upserted, if any: the one
/// whose values a save leaves in the table.
pub open spec fn last_with_id(ps: Seq<PostV>, k: u64) -> Option<PostV>
    decreases ps.len(),
{
    if ps.len() == 0 {
        None
    } else {
        let rest = last_with_id(ps.drop_first(), k);
        if rest is Some {
            rest
        } else if ps[0].id == k {
            Some(ps[0])
        } else {
            None
        }
    }
}

/// What the post table holds at each id after a save: the last upserted
/// post with that id, or what was there before.
pub proof fn lemma_spec_save_posts_at(m: Map<u64, PostV>, ps: Seq<PostV>, k: u64)
    ensures
        spec_save_posts(m, ps).contains_key(k) <==> (m.contains_key(k) || last_with_id(ps, k)
            is Some),
        last_with_id(ps, k) is Some ==> spec_save_posts(m, ps)[k] == last_with_id(ps, k)->Some_0,
        last_with_id(ps, k) is None && m.contains_key(k) ==> spec_save_posts(m, ps)[k] == m[k],
    decreases ps.len(),
{
    if ps.len() > 0 {
        lemma_spec_save_posts_at(m.insert(ps[0].id, ps[0]), ps.drop_first(), k);
    }
}

/// Saving a discussion and its posts twice with identical content leaves
/// exactly the state one save leaves: one row per id, with the same final
/// field values.
pub proof fn lemma_save_with_posts_idempotent(
    dm: Map<u64, DiscussionV>,
    pm: Map<u64, PostV>,
    d: DiscussionV,
)
    ensures
        dm.insert(d.id, spec_disc_row(d)).insert(d.id, spec_disc_row(d)) == dm.insert(
            d.id,
            spec_disc_row(d),
        ),
        spec_save_posts(spec_save_posts(pm, d.posts), d.posts) == spec_save_posts(pm, d.posts),
{
    assert(dm.insert(d.id, spec_disc_row(d)).insert(d.id, spec_disc_row(d)) =~= dm.insert(
        d.id,
        spec_disc_row(d),
    ));
    let once = spec_save_posts(pm, d.posts);
    let twice = spec_save_posts(once, d.posts);
    assert forall|k: u64| true implies (#[trigger] twice.contains_key(k) <==> once.contains_key(
        k,
    )) && (twice.contains_key(k) ==> twice[k] == once[k]) by {
        lemma_spec_save_posts_at(pm, d.posts, k);
        lemma_spec_save_posts_at(once, d.posts, k);
    }
    assert(twice =~= once);
}

/// An upsert under an already present key overwrites that row in place:
/// writing one value and then another leaves the table the second write
/// alone would leave, with no second row.
pub proof fn lemma_upsert_overwrites<K, V>(m: Map<K, V>, k: K, v1: V, v2: V)
    ensures
        m.insert(k, v1).insert(k, v2) == m.insert(k, v2),
{
    assert(m.insert(k, v1).insert(k, v2) =~= m.insert(k, v2));
}

/// Every row the status query returns carries the entity type and status
/// asked for.
pub proof fn lemma_find_jobs_elements(js: Seq<JobV>, entity: Seq<char>, st: JobStatus)
    ensures
        forall|k: int|
            0 <= k < spec_find_jobs(js, entity, st).len() ==> (#[trigger] spec_find_jobs(
                js,
                entity,
                st,
            )[k]).entity == entity && spec_find_jobs(js, entity, st)[k].status == st,
    decreases js.len(),
{
    if js.len() > 0 {
        lemma_find_jobs_elements(js.drop_last(), entity, st);
    }
}

/// The status query reports exactly the entity ids whose most recent
/// ledger write was the given status: an id whose latest write differs is
/// never reported.
pub proof fn lemma_find_reports_ledger(js: Seq<Job>, entity: Seq<char>, st: JobStatus, id: u64)
    requires
        keys_unique(js, job_key()),
    ensures
        (exists|k: int|
            0 <= k < spec_find_jobs(jobs_view(js), entity, st).len() && (#[trigger] spec_find_jobs(
                jobs_view(js),
                entity,
                st,
            )[k]).entity_id == id) <==> (table_map(js, job_key(), job_val()).contains_key(
            (entity, id),
        ) && table_map(js, job_key(), job_val())[(entity, id)] == st),
    decreases js.len(),
{
    let f = spec_find_jobs(jobs_view(js), entity, st);
    let t = table_map(js, job_key(), job_val());
    if js.len() == 0 {
        assert(jobs_view(js).len() == 0);
        if t.contains_key((entity, id)) {
            lemma_table_map_contains(js, job_key(), job_val(), (entity, id));
        }
    } else {
        let dl = js.drop_last();
        assert(keys_unique(dl, job_key())) by {
            assert(forall|i: int| 0 <= i < dl.len() ==> #[trigger] dl[i] == js[i]);
        }
        lemma_find_reports_ledger(dl, entity, st, id);
        assert(jobs_view(js).drop_last() =~= jobs_view(dl));
        assert(jobs_view(js).last() == js.last()@);
        let fd = spec_find_jobs(jobs_view(dl), entity, st);
        let td = table_map(dl, job_key(), job_val());
        let last = js.last();
        assert(job_key()(last) == (last.entity@, last.entity_id));
        assert(job_val()(last) == last.status);
        assert(t == td.insert((last.entity@, last.entity_id), last.status));
        lemma_table_map_contains(dl, job_key(), job_val(), (entity, id));
        assert forall|i: int| 0 <= i < dl.len() implies job_key()(#[trigger] dl[i]) != job_key()(
            last,
        ) by {
            assert(dl[i] == js[i]);
            assert(last == js[js.len() - 1]);
        }
        if last.entity@ == entity && last.status == st {
            assert(f == fd.push(last@));
            if exists|k: int| 0 <= k < f.len() && (#[trigger] f[k]).entity_id == id {
                let k = choose|k: int| 0 <= k < f.len() && (#[trigger] f[k]).entity_id == id;
                if k < fd.len() {
                    assert(fd[k].entity_id == id);
                    assert(td.contains_key((entity, id)) && td[(entity, id)] == st);
                    assert((last.entity@, last.entity_id) != (entity, id));
                    assert(t.contains_key((entity, id)) && t[(entity, id)] == st);
                } else {
                    assert(f[k] == last@);
                    assert(last.entity_id == id);
                    assert(t[(entity, id)] == st);
                }
            }
            if t.contains_key((entity, id)) && t[(entity, id)] == st {
                if (last.entity@, last.entity_id) == (entity, id) {
                    assert(f[f.len() - 1].entity_id == id);
                } else {
                    assert(td.contains_key((entity, id)) && td[(entity, id)] == st);
                    let k = choose|k: int| 0 <= k < fd.len() && (#[trigger] fd[k]).entity_id == id;
                    assert(f[k].entity_id == id);
                }
            }
        } else {
            assert(f == fd);
            if exists|k: int| 0 <= k < f.len() && (#[trigger] f[k]).entity_id == id {
                assert(td.contains_key((entity, id)) && td[(entity, id)] == st);
                if (last.entity@, last.entity_id) == (entity, id) {
                    assert(false);
                }
                assert(t.contains_key((entity, id)) && t[(entity, id)] == st);
            }
            if t.contains_key((entity, id)) && t[(entity, id)] == st {
                if (last.entity@, last.entity_id) == (entity, id) {
                    assert(last.entity@ == entity);
                    assert(t[(entity, id)] == last.status);
                    assert(false);
                }
                assert(td.contains_key((entity, id)) && td[(entity, id)] == st);
            }
        }
    }
}

} // verus!
