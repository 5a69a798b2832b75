use flarum_crawler::sanitize::sanitize;

#[test]
fn mention_markers_are_resolved_and_removed() {
    let html = "<span class=\"PostMention PostMention--deleted\">@ghost</span> hello \
                <a class=\"PostMention\" data-id=\"42\">@bob</a> world";
    let (reply_to_id, content) = sanitize(html);
    assert_eq!(reply_to_id, 42);
    assert!(content.contains("hello"));
    assert!(content.contains("world"));
    assert!(!content.contains("@bob"));
    assert!(!content.contains("@ghost"));
}

#[test]
fn no_mention_means_no_reply_target() {
    let (reply_to_id, content) = sanitize("<p>plain paragraph</p>");
    assert_eq!(reply_to_id, 0);
    assert!(content.contains("plain paragraph"));
}

#[test]
fn first_mention_wins() {
    let html = "<a class=\"PostMention\" data-id=\"7\">@a</a> \
                <a class=\"PostMention\" data-id=\"9\">@b</a>";
    let (reply_to_id, content) = sanitize(html);
    assert_eq!(reply_to_id, 7);
    assert!(!content.contains("@a"));
    assert!(!content.contains("@b"));
}

#[test]
fn deleted_mention_id_is_not_captured() {
    let html = "<span class=\"PostMention PostMention--deleted\" data-id=\"5\">@gone</span> text";
    let (reply_to_id, content) = sanitize(html);
    assert_eq!(reply_to_id, 0);
    assert!(content.contains("text"));
    assert!(!content.contains("@gone"));
}

#[test]
fn markup_is_converted_to_markdown() {
    let (_, content) = sanitize("<h1>Title</h1>");
    assert_eq!(content, "# Title");
}

#[test]
fn output_is_trimmed() {
    let (_, content) = sanitize("  spaced  ");
    assert_eq!(content, "spaced");
}

#[test]
fn mention_without_digits_is_ignored() {
    let html = "<a class=\"PostMention\" data-id=\"\">@x</a> rest";
    let (reply_to_id, content) = sanitize(html);
    assert_eq!(reply_to_id, 0);
    assert!(content.contains("rest"));
}

#[test]
fn marker_elements_do_not_span_lines() {
    // A deleted-mention element broken across a newline is not a marker,
    // so its text survives removal.
    let html = "<span class=\"PostMention PostMention--deleted\">@kept\n</span> rest";
    let (_, content) = sanitize(html);
    assert!(content.contains("@kept"));
    assert!(content.contains("rest"));
}

#[test]
fn overlong_mention_id_reads_as_zero() {
    let html = "<a class=\"PostMention\" data-id=\"18446744073709551616\">@x</a> rest";
    let (reply_to_id, _) = sanitize(html);
    assert_eq!(reply_to_id, 0);
}
