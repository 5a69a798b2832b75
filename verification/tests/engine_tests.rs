use flarum_crawler::api::{GetDiscussionResult, PostItem, PostsDoc};
use flarum_crawler::pipeline::parse_post_batch;
use flarum_crawler::config::{normalize_base_url, Config};
use flarum_crawler::crawler::{
    build_ignore_set, classify_outcome, existing_post_ids, retry_candidates,
};
use flarum_crawler::entity::{Discussion, Job, JobStatus, Post};
use flarum_crawler::paginator::{page_offset, Paginator};
use flarum_crawler::strutil::{parse_u64, parse_u64_or_zero};
use flarum_crawler::timestamp::Timestamp;

fn post(id: u64) -> Post {
    Post {
        id,
        user_id: 1,
        discussion_id: 1,
        reply_to_id: 0,
        username: String::new(),
        user_display_name: String::new(),
        content: String::new(),
        created_at: Timestamp::epoch(),
    }
}

fn discussion(posts: Vec<Post>) -> Discussion {
    Discussion {
        id: 1,
        user_id: 1,
        username: String::new(),
        user_display_name: String::new(),
        title: "t".to_string(),
        tags: Vec::new(),
        posts,
        is_frontpage: false,
        created_at: Timestamp::epoch(),
    }
}

fn job(id: u64, status: JobStatus) -> Job {
    Job {
        entity: "discussion".to_string(),
        entity_id: id,
        status,
    }
}

#[test]
fn paginator_stops_on_the_first_empty_page() {
    let mut p = Paginator::start(1);
    assert_eq!(p.request(), Some(1));
    p.record_page(&vec![5, 6]);
    assert_eq!(p.request(), Some(2));
    p.record_page(&vec![7]);
    assert_eq!(p.request(), Some(3));
    p.record_page(&Vec::new());
    assert_eq!(p.request(), None);
    // A finished walk never resumes, whatever is recorded afterwards.
    p.record_page(&vec![8]);
    assert_eq!(p.request(), None);
}

#[test]
fn page_numbers_map_to_offsets_of_twenty() {
    assert_eq!(page_offset(1), 0);
    assert_eq!(page_offset(2), 20);
    assert_eq!(page_offset(7), 120);
}

#[test]
fn outcomes_map_to_persistence_and_ledger_writes() {
    let step = classify_outcome(Ok(GetDiscussionResult::Impossible));
    assert!(step.save.is_none());
    assert_eq!(step.status, JobStatus::Impossible);

    let step = classify_outcome(Ok(GetDiscussionResult::Success(discussion(Vec::new()))));
    assert!(step.save.is_some());
    assert_eq!(step.status, JobStatus::Success);

    let step = classify_outcome(Ok(GetDiscussionResult::PartialError(discussion(Vec::new()))));
    assert!(step.save.is_some());
    assert_eq!(step.status, JobStatus::Partial);

    let step = classify_outcome(Err(flarum_crawler::api::FetchError::MissingTitle));
    assert!(step.save.is_none());
    assert_eq!(step.status, JobStatus::Failed);
}

#[test]
fn stored_posts_become_the_existing_id_set() {
    let d = discussion(vec![post(4), post(9)]);
    let set = existing_post_ids(&d);
    assert!(set.contains(&4));
    assert!(set.contains(&9));
    assert!(!set.contains(&5));
    assert_eq!(set.len(), 2);
}

#[test]
fn retry_candidates_are_failed_then_partial() {
    let failed = vec![job(3, JobStatus::Failed), job(1, JobStatus::Failed)];
    let partial = vec![job(7, JobStatus::Partial)];
    assert_eq!(retry_candidates(&failed, &partial), vec![3, 1, 7]);
}

#[test]
fn full_crawl_skips_impossible_and_optionally_success() {
    let impossible = vec![job(5, JobStatus::Impossible)];
    let success = vec![job(6, JobStatus::Success)];
    let skip = build_ignore_set(&impossible, &success, false);
    assert!(skip.contains(&5));
    assert!(!skip.contains(&6));
    let skip = build_ignore_set(&impossible, &success, true);
    assert!(skip.contains(&5));
    assert!(skip.contains(&6));
    assert!(!skip.contains(&7));
}

#[test]
fn statuses_round_trip_through_their_stored_strings() {
    for status in [
        JobStatus::Failed,
        JobStatus::Success,
        JobStatus::Impossible,
        JobStatus::Partial,
    ] {
        let parsed = JobStatus::try_from(status.as_str()).unwrap();
        assert_eq!(parsed, status);
    }
    assert_eq!(JobStatus::Failed.as_str(), "failed");
    assert_eq!(JobStatus::Success.as_str(), "success");
    assert_eq!(JobStatus::Impossible.as_str(), "impossible");
    assert_eq!(JobStatus::Partial.as_str(), "partial");
}

#[test]
fn unknown_status_strings_are_surfaced() {
    let err = JobStatus::try_from("done").unwrap_err();
    assert_eq!(err.value, "done");
}

#[test]
fn u64_parsing_matches_the_standard_parser() {
    assert_eq!(parse_u64("123"), Some(123));
    assert_eq!(parse_u64("+123"), Some(123));
    assert_eq!(parse_u64("0"), Some(0));
    assert_eq!(parse_u64(""), None);
    assert_eq!(parse_u64("+"), None);
    assert_eq!(parse_u64("12a"), None);
    assert_eq!(parse_u64("-1"), None);
    assert_eq!(parse_u64("18446744073709551615"), Some(u64::MAX));
    assert_eq!(parse_u64("18446744073709551616"), None);
    assert_eq!(parse_u64_or_zero("oops"), 0);
    assert_eq!(parse_u64_or_zero("17"), 17);
}

#[test]
fn fetch_options_default_to_twenty_and_no_known_posts() {
    let options = flarum_crawler::api::GetDiscussionOptions::new("http://x.example".to_string());
    assert_eq!(options.base_url, "http://x.example");
    assert_eq!(options.concurrency, 20);
    assert!(options.existing_post_ids.is_empty());
    let config = Config {
        base_url: "http://y.example".to_string(),
        concurrency: 8,
        db: String::new(),
    };
    let options = flarum_crawler::api::GetDiscussionOptions::from_config(&config);
    assert_eq!(options.base_url, "http://y.example");
    assert_eq!(options.concurrency, 8);
    assert!(options.existing_post_ids.is_empty());
}

#[test]
fn base_urls_lose_one_trailing_slash() {
    assert_eq!(normalize_base_url("http://x.example/"), "http://x.example");
    assert_eq!(normalize_base_url("http://x.example"), "http://x.example");
    assert_eq!(normalize_base_url(""), "");
    let config = Config {
        base_url: "http://x.example/".to_string(),
        concurrency: 4,
        db: "sqlite://crawl.db".to_string(),
    };
    let normalized = config.normalized();
    assert_eq!(normalized.base_url, "http://x.example");
    assert_eq!(normalized.concurrency, 4);
    assert_eq!(normalized.db, "sqlite://crawl.db");
}

#[test]
fn timestamps_carry_instant_offset_and_subseconds() {
    let doc = PostsDoc {
        posts: vec![PostItem {
            kind: "posts".to_string(),
            id: "1".to_string(),
            content_type: "comment".to_string(),
            content_html: "x".to_string(),
            created_at: "2001-02-03T04:05:06.5+01:00".to_string(),
            user_id: "1".to_string(),
        }],
        included: Vec::new(),
    };
    let t = parse_post_batch(1, &doc)[0].created_at;
    assert_eq!(t.seconds, 981169506);
    assert_eq!(t.offset_seconds, 3600);
    assert_eq!(t.nanos, 500_000_000);
}
