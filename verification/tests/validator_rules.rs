use twir_deploy_notify::validator::validate_telegram_markdown;
use twir_deploy_notify::validator::MarkdownError;

#[test]
fn basic_validation() {
    validate_telegram_markdown("*bold*").unwrap();
    assert!(validate_telegram_markdown("*bold").is_err());
}

#[test]
fn rejects_unescaped_dash() {
    assert!(validate_telegram_markdown("some - text").is_err());
}

#[test]
fn accepts_escaped_dash() {
    assert!(validate_telegram_markdown("some \\- text").is_ok());
}

#[test]
fn validator_dash_inside_word_is_ok() {
    let msg =
        "Always wanted to contribute to open-source projects but did not know where to start?";
    assert!(validate_telegram_markdown(msg).is_ok());
}

#[test]
fn dash_word_dash_inside_word_is_ok() {
    let msg = "well-known open-source work-in-progress";
    assert!(validate_telegram_markdown(msg).is_ok());
}

#[test]
fn rejects_dash_at_start() {
    assert!(validate_telegram_markdown("- bad").is_err());
}

#[test]
fn unescaped_dash_message_names_position() {
    match validate_telegram_markdown("some - text") {
        Err(MarkdownError::InvalidEscape(m)) => assert_eq!(m, "Unescaped - at 5"),
        other => panic!("expected an invalid-escape error, got {other:?}"),
    }
}

#[test]
fn unclosed_entity_message_names_token_and_position() {
    match validate_telegram_markdown("*bold") {
        Err(MarkdownError::UnmatchedTag(m)) => assert_eq!(m, "Unclosed * entity at 0"),
        other => panic!("expected an unmatched-tag error, got {other:?}"),
    }
    match validate_telegram_markdown("text __under") {
        Err(MarkdownError::UnmatchedTag(m)) => assert_eq!(m, "Unclosed __ entity at 5"),
        other => panic!("expected an unmatched-tag error, got {other:?}"),
    }
}

#[test]
fn mismatched_entity_message_names_position() {
    match validate_telegram_markdown("~a *b~") {
        Err(MarkdownError::UnmatchedTag(m)) => assert_eq!(m, "Mismatched ~ entity at 5"),
        other => panic!("expected an unmatched-tag error, got {other:?}"),
    }
}

#[test]
fn unmatched_bracket_reported() {
    match validate_telegram_markdown("see [broken") {
        Err(MarkdownError::UnmatchedTag(m)) => assert_eq!(m, "Unmatched [ at 4"),
        other => panic!("expected an unmatched-tag error, got {other:?}"),
    }
}

#[test]
fn mismatched_nesting_rejected() {
    assert!(validate_telegram_markdown("*a _b* c_").is_err());
}

#[test]
fn fence_suspends_reserved_checks() {
    assert!(validate_telegram_markdown("```\nlet x = a - b;\n```").is_ok());
}

#[test]
fn spoiler_and_strikethrough_balance() {
    assert!(validate_telegram_markdown("||hidden|| and ~gone~").is_ok());
    assert!(validate_telegram_markdown("||hidden~ mixed||").is_err());
}

#[test]
fn leading_reserved_character_rejected() {
    assert!(validate_telegram_markdown("# heading").is_err());
    assert!(validate_telegram_markdown("\\# heading").is_ok());
}
