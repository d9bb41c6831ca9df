use twir_deploy_notify::generator::generate_posts;
use twir_deploy_notify::generator::markdown_to_plain;
use twir_deploy_notify::generator::normalize_chat_id;
use twir_deploy_notify::validator::validate_telegram_markdown;
use twir_deploy_notify::TELEGRAM_LIMIT;
use twir_deploy_notify::docs::parse_function;
use twir_deploy_notify::docs::parse_rs_file;
use twir_deploy_notify::generator::find_date;
use twir_deploy_notify::generator::find_number;
use twir_deploy_notify::generator::find_title;
use twir_deploy_notify::generator::sanitize_url;
use twir_deploy_notify::generator::replace_links;

// Compact stand-in issues: small documents that exercise the same section
// kinds as a full newsletter end to end, checked against byte-exact
// expected posts.

fn news_issue() -> String {
    "Title: Test\nNumber: 1\nDate: 2025-01-01\n\n## News\n- item\n".to_string()
}

fn latest_issue() -> String {
    "Title: Test\nNumber: 1\nDate: 2025-01-01\n\n## News\n### Official\n- [Rust](https://rust-lang.org)\n- item two\n\n## Crate of the Week\nThis week's crate is [fancy](https://example.com/fancy).\n".to_string()
}

fn jobs_issue() -> String {
    "Title: T\nNumber: 606\nDate: 2025-07-02\n\n## News\n- [Rust](https://rust-lang.org)\n\n## Jobs\nPlease see the latest [Who's Hiring thread on r/rust](https://example.com/thread)\n\n## Misc\n### Quote of the Week\n> Rust is great.\n\n– Someone\n".to_string()
}

#[test]
fn parse_latest_issue_full() {
    let posts = generate_posts(latest_issue()).unwrap();
    let expected = "\\#1 — 2025\\-01\\-01\n\n📰 **NEWS** 📰\n**Official**\n• [Rust](https://rust-lang.org)\n• item two\n\n📦 **CRATE OF THE WEEK** 📦\nThis week's crate is [fancy](https://example.com/fancy)\\.\n\n🌐 [View web version](https://this-week-in-rust.org/blog/2025/01/01/this-week-in-rust-1/) 🌐\n";
    assert_eq!(posts.len(), 1, "post count mismatch");
    assert_eq!(posts[0], expected, "Mismatch in post 1");
}

#[test]
fn minimal_issue_single_post() {
    let posts =
        generate_posts("Title: T\nNumber: 1\nDate: 2025-01-01\n\n## News\n- item\n".to_string())
            .unwrap();
    let expected = "\\#1 — 2025\\-01\\-01\n\n📰 **NEWS** 📰\n• item\n\n🌐 [View web version](https://this-week-in-rust.org/blog/2025/01/01/this-week-in-rust-1/) 🌐\n";
    assert_eq!(posts.len(), 1, "post count mismatch");
    assert_eq!(posts[0], expected, "Mismatch in post 1");
    assert!(!posts[0].contains("*Part"));
}

#[test]
fn parse_complex_markdown() {
    let input =
        "Title: C\nNumber: 2\nDate: 2025-02-03\n\n## Test\n> quoted text\n\n```\ncode line\n```\n"
            .to_string();
    let posts = generate_posts(input).unwrap();
    let expected = "\\#2 — 2025\\-02\\-03\n\n📰 **TEST** 📰\n\\> quoted text\n```\ncode line\n```\n\n🌐 [View web version](https://this-week-in-rust.org/blog/2025/02/03/this-week-in-rust-2/) 🌐\n";
    assert_eq!(posts.len(), 1, "post count mismatch");
    assert_eq!(posts[0], expected, "Mismatch in post 1");
}

#[test]
fn parse_issue_606_full() {
    let posts = generate_posts(jobs_issue()).unwrap();
    let expected = "\\#606 — 2025\\-07\\-02\n\n📰 **NEWS** 📰\n• [Rust](https://rust-lang.org)\n\n📰 **JOBS** 📰\n🦀 [Rust Job Reddit Thread](https://example.com/thread)\n💼 [Rust Jobs chat](https://t.me/rust_jobs)\n📢 [Rust Jobs feed](https://t.me/rust_jobs_feed)\n📝 [Rust HH jobs](https://t.me/rusthhjobs) — channel with Rust jobs from HeadHunter\n\n📰 **MISC** 📰\n\n**Quote of the Week:** 💬\n\n_Rust is great\\._\n– Someone\n\n\n🌐 [View web version](https://this-week-in-rust.org/blog/2025/07/02/this-week-in-rust-606/) 🌐\n";
    assert_eq!(posts.len(), 1, "post count mismatch");
    assert_eq!(posts[0], expected, "Mismatch in post 1");
    for (i, post) in posts.iter().enumerate() {
        validate_telegram_markdown(post)
            .unwrap_or_else(|e| panic!("post {} invalid: {:?}", i + 1, e));
    }
}

#[test]
fn issue_606_no_unescaped_dashes() {
    let posts = generate_posts(jobs_issue()).unwrap();
    assert!(!posts.is_empty());
    for (i, post) in posts.iter().enumerate() {
        assert!(
            !post.starts_with('-'),
            "post {} begins with unescaped dash",
            i + 1
        );
    }
}

#[test]
fn jobs_links_present() {
    let posts = generate_posts(jobs_issue()).unwrap();
    let combined = posts.join("\n");
    assert!(combined.contains("[Rust Job Reddit Thread](https://example.com/thread)"));
    assert!(combined.contains("[Rust Jobs chat](https://t.me/rust_jobs)"));
    assert!(combined.contains("[Rust Jobs feed](https://t.me/rust_jobs_feed)"));
}

#[test]
fn jobs_url_simplified() {
    let input = "Title: Test\nNumber: 1\nDate: 2025-01-01\n\n## Jobs\nPlease see the latest [Who's Hiring thread on r/rust](https://example.com/thread)\n";
    let posts = generate_posts(input.to_string()).unwrap();
    let combined = posts.join("\n");
    assert!(combined.contains("[Rust Job Reddit Thread](https://example.com/thread)"));
}

#[test]
fn issue_606_dash_after_newline() {
    let posts = generate_posts(jobs_issue()).unwrap();
    let broken = posts.into_iter().find(|p| p.starts_with('-'));
    if let Some(post) = broken {
        assert!(validate_telegram_markdown(&post).is_err());
    } else {
        let msg = "- example";
        assert!(validate_telegram_markdown(msg).is_err());
    }
}

#[test]
fn single_section_has_expected_prefix() {
    let posts = generate_posts(news_issue()).unwrap();
    assert_eq!(posts.len(), 1);
    assert!(!posts[0].starts_with("*Part"));
}

#[test]
fn part_markers_count_posts() {
    let mut input = String::from("Title: T\nNumber: 9\nDate: 2025-03-04\n\n## Big\n");
    for i in 0..400 {
        input.push_str(&format!("- entry number {i} with some extra words to fill space\n"));
    }
    let posts = generate_posts(input).unwrap();
    assert!(posts.len() > 1);
    assert!(!posts[0].starts_with("*Part"));
    for (i, post) in posts.iter().enumerate().skip(1) {
        let marker = format!("*Part {}/{}*\n\n", i + 1, posts.len());
        assert!(post.starts_with(&marker), "post {} lacks its marker", i + 1);
    }
}

#[test]
fn generated_posts_pass_validation() {
    let mut input = String::from("Title: T\nNumber: 9\nDate: 2025-03-04\n\n## Big\n");
    for i in 0..400 {
        input.push_str(&format!("- entry number {i} with some extra words to fill space\n"));
    }
    let posts = generate_posts(input).unwrap();
    for (i, post) in posts.iter().enumerate() {
        validate_telegram_markdown(post)
            .unwrap_or_else(|e| panic!("post {} invalid: {:?}", i + 1, e));
    }
}

#[test]
fn generated_posts_respect_budget() {
    let mut input = String::from("Title: T\nNumber: 9\nDate: 2025-03-04\n\n## Big\n");
    for i in 0..400 {
        input.push_str(&format!("- entry number {i} with some extra words to fill space\n"));
    }
    let posts = generate_posts(input).unwrap();
    for post in posts {
        assert!(post.len() <= TELEGRAM_LIMIT);
    }
}

#[test]
fn generator_shared_table_rendering() {
    let input = "Title: Test\nNumber: 1\nDate: 2024-01-01\n\n## Table\n| Name | Score |\n|------|------|\n| Foo | 10 |\n| Bar | 20 |\n";
    let posts = generate_posts(input.to_string()).unwrap();
    let table = "```\n| Name | Score |\n| Foo  | 10    |\n| Bar  | 20    |\n```";
    assert!(posts[0].contains(table));
}

#[test]
fn table_posts_validate() {
    let input = "Title: Test\nNumber: 1\nDate: 2024-01-01\n\n## Table\n| Name | Score |\n|------|------|\n| Foo | 10 |\n| Bar | 20 |\n";
    let posts = generate_posts(input.to_string()).unwrap();
    for post in posts {
        validate_telegram_markdown(&post).unwrap();
    }
}

#[test]
fn cfp_sections_without_content_are_short() {
    let input = "Title: T\nNumber: 1\nDate: 2025-06-25\n\n## Call for Participation; projects and speakers\n### CFP - Projects\nAlways wanted to contribute to open-source projects but did not know where to start?\n\n### CFP - Events\nAre you a new or experienced speaker looking for a place to share something cool?\n".to_string();
    let posts = generate_posts(input).unwrap();
    assert_eq!(posts.len(), 1);
    let post = &posts[0];
    assert!(post.contains("No new tasks this week"));
    assert!(!post.contains("Always wanted to contribute"));
    assert!(!post.contains("Are you a new or experienced speaker"));
    validate_telegram_markdown(post).unwrap();
}

#[test]
fn quote_section_spacing() {
    let input = "Title: T\nNumber: 1\nDate: 2025-01-01\n\n## Misc\n### Quote of the Week\n> Rust is great.\n\n– Someone\n".to_string();
    let posts = generate_posts(input).unwrap();
    let lines: Vec<&str> = posts[0].lines().collect();
    let idx = lines
        .iter()
        .position(|l| l.contains("Quote of the Week"))
        .unwrap();
    assert!(lines.get(idx + 1).is_some_and(|l| l.is_empty()));
    assert!(lines.get(idx + 2).is_some_and(|l| !l.is_empty()));
    let author_idx = lines
        .iter()
        .position(|l| l.trim_start().starts_with('–'))
        .unwrap();
    assert!(lines.get(author_idx + 1).is_some_and(|l| l.is_empty()));
    for post in &posts {
        validate_telegram_markdown(post).unwrap();
    }
}

#[test]
fn upcoming_events_section_dropped() {
    let input = "Title: T\nNumber: 1\nDate: 2025-01-01\n\n## News\n- item\n\n## Upcoming Events\n- somewhere\n".to_string();
    let posts = generate_posts(input).unwrap();
    let combined = posts.join("\n");
    assert!(!combined.contains("UPCOMING EVENTS"));
    assert!(combined.contains("NEWS"));
}

#[test]
fn missing_metadata_disables_permalink() {
    let posts = generate_posts("## News\n- item\n".to_string()).unwrap();
    let combined = posts.join("\n");
    assert!(!combined.contains("View web version"));
    assert!(!combined.starts_with("\\#"));
}

#[test]
fn malformed_date_disables_permalink() {
    let posts =
        generate_posts("Title: T\nNumber: 1\nDate: 20250101\n\n## News\n- item\n".to_string())
            .unwrap();
    let combined = posts.join("\n");
    assert!(!combined.contains("View web version"));
    assert!(combined.starts_with("\\#1"));
}

#[test]
fn generator_plain_conversion() {
    let text = "*Part 1/1*\n**News**\n• [Link](https://example.com)";
    let plain = markdown_to_plain(text);
    assert_eq!(plain, "Part 1/1\nNews\n- Link (https://example.com)");
}

#[test]
fn plain_code_block() {
    let text = "```rust\nlet x = 1;\n```";
    let plain = markdown_to_plain(text);
    assert_eq!(plain, "let x = 1;\n");
}

#[test]
fn plain_link_rewrite() {
    assert_eq!(
        replace_links("see [here](https://example.com) now"),
        "see here (https://example.com) now"
    );
}

#[test]
fn chat_id_normalization() {
    assert_eq!(normalize_chat_id("@rustchat"), "@rustchat");
    assert_eq!(normalize_chat_id("-1001234"), "-1001234");
    assert_eq!(normalize_chat_id("42"), "-10042");
    assert_eq!(normalize_chat_id("-42"), "-10042");
}

#[test]
fn docs_recognizers() {
    assert_eq!(parse_rs_file(" src/lib.rs "), Some("src/lib.rs".to_string()));
    assert_eq!(parse_rs_file("lib.txt"), None);
    assert_eq!(parse_function("do_work("), Some("do_work".to_string()));
    assert_eq!(parse_function("not a function"), None);
}

#[test]
fn invalid_markup_aborts_conversion() {
    let input =
        "Title: T\nNumber: 1\nDate: 2025-01-01\n\n## A\n```\nlet x = 2 * 3;\n```\n".to_string();
    let err = generate_posts(input).unwrap_err();
    assert!(err.message().contains("Generated post 1 invalid:"));
}

#[test]
fn metadata_readers_trim_values() {
    let text = "Title:  Spaced \nNumber: 7\nDate: 2025-05-06\n\nbody";
    assert_eq!(find_title(text), Some("Spaced".to_string()));
    assert_eq!(find_number(text), Some("7".to_string()));
    assert_eq!(find_date(text), Some("2025-05-06".to_string()));
    assert_eq!(find_title("no metadata here"), None);
}

#[test]
fn token_redacted_in_urls() {
    assert_eq!(
        sanitize_url("https://api.example.org/botSECRET/send", "SECRET"),
        "https://api.example.org/bot<token>/send"
    );
}
