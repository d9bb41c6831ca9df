use twir_deploy_notify::escape::escape_markdown;
use twir_deploy_notify::escape::escape_markdown_url;
use twir_deploy_notify::splitter::split_posts;
use twir_deploy_notify::validator::validate_telegram_markdown;
use twir_deploy_notify::TELEGRAM_LIMIT;

#[test]
fn generator_shared_escape_markdown_basic() {
    let text = "_bold_ *italic*";
    let escaped = escape_markdown(text);
    assert_eq!(escaped, "\\_bold\\_ \\*italic\\*");
}

#[test]
fn generator_shared_escape_url_parentheses() {
    let url = "https://example.com/path(1)";
    let escaped = escape_markdown_url(url);
    assert_eq!(escaped, "https://example.com/path\\(1\\)");
}

#[test]
fn escape_marker_is_escaped_first() {
    assert_eq!(escape_markdown("a\\b"), "a\\\\b");
    assert_eq!(escape_markdown("\\"), "\\\\");
    assert_eq!(
        escape_markdown_url("https://example.com/a\\b(1)"),
        "https://example.com/a\\\\b\\(1\\)"
    );
}

#[test]
fn escape_then_strip_round_trip() {
    let text = "a-b.c #x (y)!";
    let escaped = escape_markdown(text);
    assert_eq!(escaped, "a\\-b\\.c \\#x \\(y\\)\\!");
    assert_eq!(escaped.replace('\\', ""), text);
}

#[test]
fn url_escaper_leaves_neutral_characters() {
    assert_eq!(
        escape_markdown_url("https://example.com/a#b+c.d"),
        "https://example.com/a#b+c.d"
    );
}

#[test]
fn generator_shared_split_posts_basic() {
    let parts = split_posts("aaa\nbbb\nccc", 7);
    assert_eq!(parts, vec!["aaa\nbbb", "ccc"]);
}

#[test]
fn line_just_over_limit_splits_in_two() {
    let line = "a".repeat(11);
    let parts = split_posts(&line, 10);
    assert_eq!(parts.len(), 2);
    assert_eq!(parts[0], "a".repeat(10));
    assert_eq!(parts[1], "a");
    for p in parts {
        validate_telegram_markdown(&p).unwrap();
    }
}

#[test]
fn escaped_dash_survives_forced_cut() {
    let mut input = "a".repeat(9);
    input.push_str("\\-b");
    let parts = split_posts(&input, 10);
    assert_eq!(parts, vec!["a".repeat(9), "\\-b".to_string()]);
    assert!(parts[1].starts_with("\\-"));
    for p in parts {
        validate_telegram_markdown(&p).unwrap();
    }
}

#[test]
fn generator_shared_dash_at_post_boundary() {
    let mut text = "a".repeat(10);
    text.push('\n');
    text.push_str("\\- start");
    let parts = split_posts(&text, 10);
    assert!(parts.len() > 1);
    assert!(parts[1].starts_with("\\-"));
    for p in parts {
        validate_telegram_markdown(&p).unwrap();
    }
}

#[test]
fn generator_shared_backslash_then_dash_across_posts() {
    let mut text = "a".repeat(9);
    text.push('\\');
    text.push('\n');
    text.push_str("- test");
    let parts = split_posts(&text, 10);
    assert!(parts.len() > 1);
    assert!(parts[1].starts_with("\\-"));
    for p in parts {
        validate_telegram_markdown(&p).unwrap();
    }
}

#[test]
fn boundary_escape_preserved() {
    let mut input = "a".repeat(TELEGRAM_LIMIT - 1);
    input.push('\\');
    input.push_str("-b");
    let posts = split_posts(&input, TELEGRAM_LIMIT);
    assert!(posts.len() >= 2);
    assert!(!posts[1].starts_with('-'));
    for p in posts {
        validate_telegram_markdown(&p).unwrap();
    }
}

#[test]
fn fence_closed_and_reopened_around_cut() {
    let mut text = String::from("```\n");
    for _ in 0..4 {
        text.push_str("word word word\n");
    }
    text.push_str("```");
    let parts = split_posts(&text, 40);
    assert!(parts.len() >= 2);
    for p in &parts {
        validate_telegram_markdown(p).unwrap();
        assert!(p.len() <= 40);
    }
}

#[test]
fn split_chunks_respect_budget() {
    let text = "word ".repeat(60);
    let parts = split_posts(text.trim_end(), 50);
    assert!(!parts.is_empty());
    for p in parts {
        assert!(!p.is_empty());
        assert!(p.len() <= 50);
    }
}

#[test]
fn forced_cut_escapes_leading_reserved_character() {
    let parts = split_posts(".aaaa", 4);
    assert_eq!(parts, vec!["\\.aa", "aa"]);
    for p in parts {
        validate_telegram_markdown(&p).unwrap();
    }
}
