use twir_deploy_notify::headings::format_heading;
use twir_deploy_notify::headings::format_subheading;
use twir_deploy_notify::parser::parse_sections;
use twir_deploy_notify::validator::validate_telegram_markdown;

#[test]
fn generator_shared_link_parsing() {
    let text = "## Links\n- [Rust](https://rust-lang.org)\n";
    let secs = parse_sections(text);
    assert_eq!(secs.len(), 1);
    assert_eq!(secs[0].title, "Links");
    assert_eq!(secs[0].lines, vec!["• [Rust](https://rust-lang.org)"]);
}

#[test]
fn generator_shared_nested_list_parsing() {
    let text = "## News\n- Item 1\n  - Sub 1\n  - Sub 2\n- Item 2\n";
    let secs = parse_sections(text);
    assert_eq!(secs.len(), 1);
    assert_eq!(secs[0].title, "News");
    assert_eq!(
        secs[0].lines,
        vec!["• Item 1", "  • Sub 1", "  • Sub 2", "• Item 2"]
    );
}

#[test]
fn generator_shared_quote_and_code_blocks() {
    let text = "## Test\n> quoted text\n\n```\ncode line\n```\n";
    let secs = parse_sections(text);
    assert_eq!(secs.len(), 1);
    assert_eq!(secs[0].title, "Test");
    assert_eq!(secs[0].lines, vec!["\\> quoted text", "```\ncode line\n```"]);
}

#[test]
fn generator_shared_bullet_formatting() {
    let text = "## Items\n- example\n";
    let secs = parse_sections(text);
    assert_eq!(secs[0].lines, vec!["• example"]);
    let plain = twir_deploy_notify::generator::markdown_to_plain(&secs[0].lines[0]);
    assert!(plain.starts_with("- "));
}

#[test]
fn generator_shared_heading_formatter() {
    let formatted = format_heading("My Title");
    assert_eq!(formatted, "📰 **MY TITLE** 📰");
}

#[test]
fn heading_emoji_follows_title() {
    assert_eq!(format_heading("Upcoming Events"), "🎉 **UPCOMING EVENTS** 🎉");
    assert_eq!(
        format_heading("Crate of the Week"),
        "📦 **CRATE OF THE WEEK** 📦"
    );
}

#[test]
fn subheading_emoji_table() {
    assert_eq!(format_subheading("Cargo"), "\n**Cargo:** 📦");
    assert_eq!(format_subheading("rust-analyzer"), "\n**rust\\-analyzer:** 🤖");
    assert_eq!(format_subheading("Nothing Known"), "**Nothing Known**");
    assert_eq!(
        format_subheading("Quote of the Week"),
        "\n**Quote of the Week:** 💬\n"
    );
}

#[test]
fn generator_shared_subheading_with_dash() {
    let text = "## Section\n### Foo-Bar\n- item\n";
    let secs = parse_sections(text);
    assert_eq!(secs[0].lines[0], "**Foo\\-Bar**");
    let posts = twir_deploy_notify::generator::generate_posts(
        "Title: T\nNumber: 1\nDate: 2025-01-01\n\n## Section\n### Foo-Bar\n- item\n".to_string(),
    )
    .unwrap();
    for p in posts {
        validate_telegram_markdown(&p).unwrap();
    }
}

#[test]
fn code_block_before_next_heading() {
    let input = "## First\n```\nline1\nline2\n```\n\n## Second";
    let sections = parse_sections(input);
    assert_eq!(sections.len(), 2);
    assert_eq!(sections[0].title, "First");
    assert_eq!(sections[0].lines, vec!["```\nline1\nline2\n```"]);
}

#[test]
fn bare_link_with_parentheses() {
    let input = "## Section\n- Some text (https://example.com/path(1))";
    let sections = parse_sections(input);
    assert_eq!(sections.len(), 1);
    assert_eq!(sections[0].title, "Section");
    assert_eq!(
        sections[0].lines,
        vec!["• [Some text](https://example.com/path\\(1\\))"]
    );
    validate_telegram_markdown(&sections[0].lines[0]).unwrap();
}

#[test]
fn fenced_code_block_round_trip() {
    let input = "## Section\n```\nfn main() {\n    println!(\"Hello_world\");\n}\n```";
    let sections = parse_sections(input);
    assert_eq!(sections.len(), 1);
    assert_eq!(
        sections[0].lines,
        vec!["```\nfn main() {\n    println!(\"Hello_world\");\n}\n```"]
    );
}

#[test]
fn github_mentions_are_linked() {
    let input = "## Section\n- Thanks to @user for the fix";
    let sections = parse_sections(input);
    assert_eq!(sections.len(), 1);
    assert_eq!(sections[0].title, "Section");
    assert_eq!(
        sections[0].lines,
        vec!["• Thanks to [user](https://github.com/user) for the fix"]
    );
    validate_telegram_markdown(&sections[0].lines[0]).unwrap();
}

#[test]
fn mentions_inside_links_are_preserved() {
    let input = "## Section\n- [@user on github](https://example.com)";
    let sections = parse_sections(input);
    assert_eq!(sections.len(), 1);
    assert_eq!(sections[0].title, "Section");
    assert_eq!(sections[0].lines, vec!["• [@user on github](https://example.com)"]);
    validate_telegram_markdown(&sections[0].lines[0]).unwrap();
}

#[test]
fn mentions_adjacent_to_word_characters_stay() {
    let input = "## Section\n- mail me at someone@example.com today";
    let sections = parse_sections(input);
    assert_eq!(
        sections[0].lines,
        vec!["• mail me at someone@example\\.com today"]
    );
}

#[test]
fn parser_is_deterministic() {
    let input = "## A\n- one\n\n## B\n> quote\n";
    let first = parse_sections(input);
    let second = parse_sections(input);
    assert_eq!(first.len(), second.len());
    for (a, b) in first.iter().zip(second.iter()) {
        assert_eq!(a.title, b.title);
        assert_eq!(a.lines, b.lines);
    }
}

#[test]
fn content_before_first_heading_forms_untitled_section() {
    let input = "stray text\n\n## Real\n- item\n";
    let sections = parse_sections(input);
    assert_eq!(sections.len(), 2);
    assert_eq!(sections[0].title, "");
    assert_eq!(sections[0].lines, vec!["stray text"]);
    assert_eq!(sections[1].title, "Real");
}

#[test]
fn document_without_headings_yields_one_untitled_section() {
    let sections = parse_sections("just a paragraph\n");
    assert_eq!(sections.len(), 1);
    assert_eq!(sections[0].title, "");
    assert_eq!(sections[0].lines, vec!["just a paragraph"]);
    assert!(parse_sections("").is_empty());
}

#[test]
fn loose_list_preserves_parent_items() {
    let input = "## Section\n[Cargo](https://example.com/cargo)\n* [Parent](https://example.com/parent)\n  * [Child](https://example.com/child)\n\n* *No calls for testing were issued by [Rust](https://example.com/rust).*";
    let sections = parse_sections(input);
    assert_eq!(sections.len(), 1);
    let lines = &sections[0].lines;
    assert_eq!(lines.len(), 4);
    assert_eq!(lines[0], "[Cargo](https://example.com/cargo)");
    assert_eq!(lines[1], "• [Parent](https://example.com/parent)");
    assert_eq!(lines[2], "  • [Child](https://example.com/child)");
    assert_eq!(
        lines[3],
        "• No calls for testing were issued by [Rust](https://example.com/rust)\\."
    );
}
