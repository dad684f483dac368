//! Title truncation behaviour at byte budgets and UTF-8 boundaries.

use nit::textfmt::truncate_with_ellipsis;

// --- truncate_with_ellipsis unit tests ---

#[test]
fn truncate_ascii_short_unchanged() {
    assert_eq!(truncate_with_ellipsis("hello", 40), "hello");
}

#[test]
fn truncate_ascii_exact_limit_unchanged() {
    let s = "a".repeat(40);
    assert_eq!(truncate_with_ellipsis(&s, 40), s);
}

#[test]
fn truncate_ascii_over_limit() {
    let s = "a".repeat(50);
    let result = truncate_with_ellipsis(&s, 40);
    assert!(result.ends_with("..."));
    assert!(result.len() <= 40);
}

#[test]
fn truncate_multibyte_em_dash_at_boundary() {
    // em dash '‚Äî' is 3 bytes (U+2014). Place it so byte 37 lands inside it.
    // 35 ASCII chars + '‚Äî' (bytes 35..38) + more text
    let s = format!("{}‚Äîthis continues past the limit!!", "a".repeat(35));
    let result = truncate_with_ellipsis(&s, 40);
    assert!(result.ends_with("..."));
    assert!(result.len() <= 40);
}

#[test]
fn truncate_multibyte_emoji_at_boundary() {
    // 'üöÄ' is 4 bytes. Place at the cut point.
    let s = format!("{}üöÄ and more stuff here!!", "a".repeat(35));
    let result = truncate_with_ellipsis(&s, 40);
    assert!(result.ends_with("..."));
    assert!(result.len() <= 40);
}

#[test]
fn truncate_all_multibyte() {
    // String of only 3-byte chars (em dashes): 20 chars = 60 bytes
    let s = "‚Äî".repeat(20);
    let result = truncate_with_ellipsis(&s, 40);
    assert!(result.ends_with("..."));
    assert!(result.len() <= 40);
    // Validates it's valid UTF-8 (would panic if not)
    let _ = result.chars().count();
}

#[test]
fn truncate_two_byte_chars_at_boundary() {
    // '√©' is 2 bytes (U+00E9)
    let s = format!("{}√© more text after here!!", "a".repeat(36));
    let result = truncate_with_ellipsis(&s, 40);
    assert!(result.ends_with("..."));
    assert!(result.len() <= 40);
}

#[test]
fn truncate_graph_dot_limit() {
    // Graph DOT uses limit=30. em dash at byte 27 boundary.
    let s = format!("{}‚Äîcontinues on and on", "a".repeat(27));
    let result = truncate_with_ellipsis(&s, 30);
    assert!(result.ends_with("..."));
    assert!(result.len() <= 30);
}



#[test]
fn truncate_cuts_to_exact_content() {
    assert_eq!(truncate_with_ellipsis("hello world, hello", 10), "hello w...");
    assert_eq!(truncate_with_ellipsis("abcd", 4), "abcd");
    assert_eq!(truncate_with_ellipsis("abcde", 4), "a...");
}
