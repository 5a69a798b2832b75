use std::collections::HashSet;

use flarum_crawler::api::{
    classify_discussion_status, DiscussionDoc, GetDiscussionOptions, GetDiscussionResult,
    IncludedItem, IndexDoc, PostItem, PostsDoc, ResourceRef, StatusClass,
};
use flarum_crawler::entity::{Discussion, Post};
use flarum_crawler::pipeline::{
    assemble_discussion, extract_index_ids, parse_discussion, parse_post_batch, sort_posts_by_id,
};
use flarum_crawler::timestamp::Timestamp;

fn post(id: u64) -> Post {
    Post {
        id,
        user_id: 1,
        discussion_id: 10,
        reply_to_id: 0,
        username: "u".to_string(),
        user_display_name: "U".to_string(),
        content: format!("post {}", id),
        created_at: Timestamp::epoch(),
    }
}

fn post_ref(id: &str) -> ResourceRef {
    ResourceRef {
        kind: "posts".to_string(),
        id: id.to_string(),
    }
}

fn doc_with_post_ids(ids: &[&str]) -> DiscussionDoc {
    DiscussionDoc {
        title: Some("A title".to_string()),
        frontpage: Some(true),
        created_at: Some("1996-12-19T16:39:57-08:00".to_string()),
        user_id: Some("3".to_string()),
        tag_ids: vec!["1".to_string()],
        post_refs: ids.iter().map(|i| post_ref(i)).collect(),
        included: vec![
            IncludedItem {
                kind: "tags".to_string(),
                id: "1".to_string(),
                name: "news".to_string(),
                username: String::new(),
                display_name: String::new(),
            },
            IncludedItem {
                kind: "users".to_string(),
                id: "3".to_string(),
                name: String::new(),
                username: "alice".to_string(),
                display_name: "Alice".to_string(),
            },
        ],
    }
}

fn options_with_existing(existing: &[u64]) -> GetDiscussionOptions {
    let mut set = HashSet::new();
    for id in existing {
        set.insert(*id);
    }
    GetDiscussionOptions {
        base_url: "http://forum.example".to_string(),
        concurrency: 20,
        existing_post_ids: set,
    }
}

#[test]
fn all_known_post_ids_mean_zero_batches_and_success() {
    let doc = doc_with_post_ids(&["100", "101", "102"]);
    let options = options_with_existing(&[100, 101, 102]);
    let plan = parse_discussion(10, &doc, &options).unwrap();
    assert_eq!(plan.batches.len(), 0);
    let result = assemble_discussion(plan.discussion, Vec::new());
    match result {
        GetDiscussionResult::Success(d) => {
            assert_eq!(d.posts.len(), 0);
            assert_eq!(d.title, "A title");
        }
        _ => panic!("expected a full success"),
    }
}

#[test]
fn discussion_fields_are_extracted() {
    let doc = doc_with_post_ids(&["100"]);
    let options = options_with_existing(&[]);
    let plan = parse_discussion(10, &doc, &options).unwrap();
    let d = &plan.discussion;
    assert_eq!(d.id, 10);
    assert_eq!(d.user_id, 3);
    assert_eq!(d.username, "alice");
    assert_eq!(d.user_display_name, "Alice");
    assert_eq!(d.title, "A title");
    assert_eq!(d.tags, vec!["news".to_string()]);
    assert!(d.is_frontpage);
    assert_eq!(d.created_at.seconds, 851042397);
    assert_eq!(d.created_at.offset_seconds, -28800);
    assert_eq!(plan.batches.len(), 1);
    assert_eq!(plan.batches[0], vec!["100".to_string()]);
}

#[test]
fn missing_title_is_the_reported_error() {
    let mut doc = doc_with_post_ids(&[]);
    doc.title = None;
    let options = options_with_existing(&[]);
    let err = parse_discussion(10, &doc, &options).unwrap_err();
    assert_eq!(err, flarum_crawler::api::FetchError::MissingTitle);
}

#[test]
fn missing_frontpage_is_the_reported_error() {
    let mut doc = doc_with_post_ids(&[]);
    doc.frontpage = None;
    let options = options_with_existing(&[]);
    let err = parse_discussion(10, &doc, &options).unwrap_err();
    assert_eq!(err, flarum_crawler::api::FetchError::MissingFrontpage);
}

#[test]
fn unreadable_author_is_the_reported_error() {
    let mut doc = doc_with_post_ids(&[]);
    doc.user_id = Some("not-a-number".to_string());
    let options = options_with_existing(&[]);
    let err = parse_discussion(10, &doc, &options).unwrap_err();
    assert_eq!(err, flarum_crawler::api::FetchError::BadAuthorId);
}

#[test]
fn unreadable_created_at_is_the_reported_error() {
    let mut doc = doc_with_post_ids(&[]);
    doc.created_at = Some("yesterday".to_string());
    let options = options_with_existing(&[]);
    let err = parse_discussion(10, &doc, &options).unwrap_err();
    assert_eq!(err, flarum_crawler::api::FetchError::BadCreatedAt);
}

#[test]
fn pending_ids_are_batched_by_twenty() {
    let id_strings: Vec<String> = (1..=45).map(|i| i.to_string()).collect();
    let id_refs: Vec<&str> = id_strings.iter().map(|s| s.as_str()).collect();
    let doc = doc_with_post_ids(&id_refs);
    let options = options_with_existing(&[]);
    let plan = parse_discussion(10, &doc, &options).unwrap();
    let sizes: Vec<usize> = plan.batches.iter().map(|b| b.len()).collect();
    assert_eq!(sizes, vec![20, 20, 5]);
    assert_eq!(plan.batches[2], vec!["41", "42", "43", "44", "45"]);
}

#[test]
fn existing_ids_are_pruned_before_batching() {
    let doc = doc_with_post_ids(&["100", "101", "102", "103"]);
    let options = options_with_existing(&[101, 103]);
    let plan = parse_discussion(10, &doc, &options).unwrap();
    assert_eq!(plan.batches.len(), 1);
    assert_eq!(plan.batches[0], vec!["100", "102"]);
}

#[test]
fn non_post_references_are_not_fetched() {
    let mut doc = doc_with_post_ids(&["100"]);
    doc.post_refs.push(ResourceRef {
        kind: "events".to_string(),
        id: "200".to_string(),
    });
    let options = options_with_existing(&[]);
    let plan = parse_discussion(10, &doc, &options).unwrap();
    assert_eq!(plan.batches[0], vec!["100"]);
}

#[test]
fn out_of_order_batches_are_sorted_ascending() {
    let doc = doc_with_post_ids(&[]);
    let options = options_with_existing(&[]);
    let plan = parse_discussion(10, &doc, &options).unwrap();
    let groups = vec![
        Some(vec![post(30), post(31)]),
        Some(vec![post(10), post(12), post(11)]),
        Some(vec![post(20)]),
    ];
    let result = assemble_discussion(plan.discussion, groups);
    match result {
        GetDiscussionResult::Success(d) => {
            let ids: Vec<u64> = d.posts.iter().map(|p| p.id).collect();
            assert_eq!(ids, vec![10, 11, 12, 20, 30, 31]);
        }
        _ => panic!("expected a full success"),
    }
}

#[test]
fn partial_batches_keep_exactly_the_successful_posts() {
    let doc = doc_with_post_ids(&[]);
    let options = options_with_existing(&[]);
    let plan = parse_discussion(10, &doc, &options).unwrap();
    let groups = vec![
        Some(vec![post(5), post(6)]),
        None,
        Some(vec![post(1)]),
    ];
    let result = assemble_discussion(plan.discussion, groups);
    match result {
        GetDiscussionResult::PartialError(d) => {
            let ids: Vec<u64> = d.posts.iter().map(|p| p.id).collect();
            assert_eq!(ids, vec![1, 5, 6]);
        }
        _ => panic!("expected a partial outcome"),
    }
}

#[test]
fn all_batches_failing_is_a_partial_with_no_posts() {
    let doc = doc_with_post_ids(&[]);
    let options = options_with_existing(&[]);
    let plan = parse_discussion(10, &doc, &options).unwrap();
    let groups: Vec<Option<Vec<Post>>> = vec![None, None];
    match assemble_discussion(plan.discussion, groups) {
        GetDiscussionResult::PartialError(d) => assert!(d.posts.is_empty()),
        _ => panic!("expected a partial outcome"),
    }
}

#[test]
fn all_batches_succeeding_is_a_success() {
    let doc = doc_with_post_ids(&[]);
    let options = options_with_existing(&[]);
    let plan = parse_discussion(10, &doc, &options).unwrap();
    let groups = vec![Some(vec![post(2)]), Some(vec![post(1)])];
    let result = assemble_discussion(plan.discussion, groups);
    assert!(matches!(result, GetDiscussionResult::Success(_)));
}

#[test]
fn statuses_classify_as_spec_says() {
    assert_eq!(classify_discussion_status(404), StatusClass::Impossible);
    assert_eq!(classify_discussion_status(403), StatusClass::Impossible);
    assert_eq!(classify_discussion_status(200), StatusClass::Proceed);
    assert_eq!(classify_discussion_status(204), StatusClass::Proceed);
    assert_eq!(classify_discussion_status(500), StatusClass::Transient);
    assert_eq!(classify_discussion_status(301), StatusClass::Transient);
    assert_eq!(classify_discussion_status(429), StatusClass::Transient);
}

#[test]
fn batch_documents_become_comment_posts_only() {
    let doc = PostsDoc {
        posts: vec![
            PostItem {
                kind: "posts".to_string(),
                id: "7".to_string(),
                content_type: "comment".to_string(),
                content_html: "<p>hi <a class=\"PostMention\" data-id=\"3\">@x</a></p>".to_string(),
                created_at: "1970-01-01T00:00:05+00:00".to_string(),
                user_id: "3".to_string(),
            },
            PostItem {
                kind: "posts".to_string(),
                id: "8".to_string(),
                content_type: "discussionRenamed".to_string(),
                content_html: String::new(),
                created_at: String::new(),
                user_id: "3".to_string(),
            },
        ],
        included: vec![IncludedItem {
            kind: "users".to_string(),
            id: "3".to_string(),
            name: String::new(),
            username: "alice".to_string(),
            display_name: "Alice".to_string(),
        }],
    };
    let posts = parse_post_batch(10, &doc);
    assert_eq!(posts.len(), 1);
    let p = &posts[0];
    assert_eq!(p.id, 7);
    assert_eq!(p.discussion_id, 10);
    assert_eq!(p.user_id, 3);
    assert_eq!(p.username, "alice");
    assert_eq!(p.user_display_name, "Alice");
    assert_eq!(p.reply_to_id, 3);
    assert_eq!(p.content, "hi");
    assert_eq!(p.created_at.seconds, 5);
}

#[test]
fn unreadable_post_created_at_falls_back_to_epoch() {
    let doc = PostsDoc {
        posts: vec![PostItem {
            kind: "posts".to_string(),
            id: "7".to_string(),
            content_type: "comment".to_string(),
            content_html: "<p>x</p>".to_string(),
            created_at: "bogus".to_string(),
            user_id: "99".to_string(),
        }],
        included: Vec::new(),
    };
    let posts = parse_post_batch(10, &doc);
    assert_eq!(posts[0].created_at, Timestamp::epoch());
    assert_eq!(posts[0].username, "");
    assert_eq!(posts[0].user_display_name, "");
}

#[test]
fn index_pages_yield_discussion_ids_in_order() {
    let doc = IndexDoc {
        items: vec![
            ResourceRef {
                kind: "discussions".to_string(),
                id: "12".to_string(),
            },
            ResourceRef {
                kind: "users".to_string(),
                id: "99".to_string(),
            },
            ResourceRef {
                kind: "discussions".to_string(),
                id: "7".to_string(),
            },
        ],
    };
    assert_eq!(extract_index_ids(&doc), vec![12, 7]);
}

#[test]
fn sorting_is_a_permutation() {
    let v = vec![post(3), post(1), post(2), post(1)];
    let sorted = sort_posts_by_id(v);
    let ids: Vec<u64> = sorted.iter().map(|p| p.id).collect();
    assert_eq!(ids, vec![1, 1, 2, 3]);
}

#[test]
fn assembling_no_batches_gives_an_empty_success() {
    let d = Discussion {
        id: 1,
        user_id: 1,
        username: String::new(),
        user_display_name: String::new(),
        title: "t".to_string(),
        tags: Vec::new(),
        posts: Vec::new(),
        is_frontpage: false,
        created_at: Timestamp::epoch(),
    };
    match assemble_discussion(d, Vec::new()) {
        GetDiscussionResult::Success(out) => assert!(out.posts.is_empty()),
        _ => panic!("expected success"),
    }
}
