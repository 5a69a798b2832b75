use flarum_crawler::entity::{Discussion, Job, JobStatus, Post};
use flarum_crawler::store::Store;
use flarum_crawler::timestamp::Timestamp;

fn post(id: u64, discussion_id: u64, content: &str) -> Post {
    Post {
        id,
        user_id: 1,
        discussion_id,
        reply_to_id: 0,
        username: "u".to_string(),
        user_display_name: "U".to_string(),
        content: content.to_string(),
        created_at: Timestamp::epoch(),
    }
}

fn discussion(id: u64, title: &str, posts: Vec<Post>) -> Discussion {
    Discussion {
        id,
        user_id: 1,
        username: "u".to_string(),
        user_display_name: "U".to_string(),
        title: title.to_string(),
        tags: vec!["tag".to_string()],
        posts,
        is_frontpage: false,
        created_at: Timestamp::epoch(),
    }
}

fn job(id: u64, status: JobStatus) -> Job {
    Job {
        entity: "discussion".to_string(),
        entity_id: id,
        status,
    }
}

#[test]
fn saving_twice_with_identical_content_leaves_one_row_per_id() {
    let mut store = Store::new();
    let d = discussion(1, "title", vec![post(10, 1, "a"), post(11, 1, "b")]);
    d.save_with_posts(&mut store);
    d.save_with_posts(&mut store);
    assert_eq!(store.discussions.len(), 1);
    assert_eq!(store.posts.len(), 2);
    let found = Discussion::find_by_id(1, &store).unwrap();
    assert_eq!(found.title, "title");
    assert_eq!(found.posts.len(), 2);
    assert_eq!(found.posts[0].content, "a");
    assert_eq!(found.posts[1].content, "b");
}

#[test]
fn saving_changed_content_overwrites_the_row_in_place() {
    let mut store = Store::new();
    let d1 = discussion(1, "old title", vec![post(10, 1, "old content")]);
    d1.save_with_posts(&mut store);
    let d2 = discussion(1, "new title", vec![post(10, 1, "new content")]);
    d2.save_with_posts(&mut store);
    assert_eq!(store.discussions.len(), 1);
    assert_eq!(store.posts.len(), 1);
    let found = Discussion::find_by_id(1, &store).unwrap();
    assert_eq!(found.title, "new title");
    assert_eq!(found.posts[0].content, "new content");
}

#[test]
fn posts_of_other_discussions_are_untouched() {
    let mut store = Store::new();
    discussion(1, "one", vec![post(10, 1, "a")]).save_with_posts(&mut store);
    discussion(2, "two", vec![post(20, 2, "b")]).save_with_posts(&mut store);
    let one = Discussion::find_by_id(1, &store).unwrap();
    let two = Discussion::find_by_id(2, &store).unwrap();
    assert_eq!(one.posts.len(), 1);
    assert_eq!(one.posts[0].id, 10);
    assert_eq!(two.posts.len(), 1);
    assert_eq!(two.posts[0].id, 20);
    assert!(Discussion::find_by_id(3, &store).is_none());
}

#[test]
fn single_post_save_upserts_by_id() {
    let mut store = Store::new();
    post(10, 1, "first").save(&mut store);
    post(10, 1, "second").save(&mut store);
    post(11, 1, "other").save(&mut store);
    assert_eq!(store.posts.len(), 2);
    let found = Discussion::find_by_id(1, &store);
    assert!(found.is_none());
}

#[test]
fn ledger_reports_exactly_the_latest_status() {
    let mut store = Store::new();
    job(1, JobStatus::Failed).save(&mut store);
    job(2, JobStatus::Success).save(&mut store);
    job(3, JobStatus::Failed).save(&mut store);
    // The most recent write wins: entity 3 recovers, entity 2 degrades.
    job(3, JobStatus::Success).save(&mut store);
    job(2, JobStatus::Failed).save(&mut store);
    let failed = Job::find_by_entity_status("discussion", JobStatus::Failed, &store);
    let ids: Vec<u64> = failed.iter().map(|j| j.entity_id).collect();
    assert_eq!(ids, vec![1, 2]);
    let success = Job::find_by_entity_status("discussion", JobStatus::Success, &store);
    let ids: Vec<u64> = success.iter().map(|j| j.entity_id).collect();
    assert_eq!(ids, vec![3]);
}

#[test]
fn ledger_rows_are_keyed_by_entity_and_id() {
    let mut store = Store::new();
    job(1, JobStatus::Partial).save(&mut store);
    Job {
        entity: "user".to_string(),
        entity_id: 1,
        status: JobStatus::Impossible,
    }
    .save(&mut store);
    assert_eq!(store.jobs.len(), 2);
    let partial = Job::find_by_entity_status("discussion", JobStatus::Partial, &store);
    assert_eq!(partial.len(), 1);
    assert_eq!(partial[0].entity_id, 1);
    let impossible = Job::find_by_entity_status("user", JobStatus::Impossible, &store);
    assert_eq!(impossible.len(), 1);
    let none = Job::find_by_entity_status("discussion", JobStatus::Impossible, &store);
    assert!(none.is_empty());
}
