use blob_mirror::commands::{parse_command, parse_usize_decimal, Command};
use blob_mirror::urls::{parse_mirror_url, raw_content_url, split_full_name};

#[test]
fn parses_a_repository_browser_url() {
    let info = parse_mirror_url("https://github.com/alice/proj/blob/main/src/lib.rs").unwrap();
    assert_eq!(info.user, "alice");
    assert_eq!(info.repo, "proj");
    assert_eq!(info.path, "main/src/lib.rs");
}

#[test]
fn parses_a_raw_content_url() {
    let info =
        parse_mirror_url("https://raw.githubusercontent.com/alice/proj/main/src/lib.rs").unwrap();
    assert_eq!(info.user, "alice");
    assert_eq!(info.repo, "proj");
    assert_eq!(info.path, "main/src/lib.rs");
}

#[test]
fn rejects_urls_of_other_shapes() {
    assert!(parse_mirror_url("https://example.com/alice/proj/blob/main/x").is_none());
    assert!(parse_mirror_url("https://github.com/alice/proj").is_none());
    assert!(parse_mirror_url("https://raw.githubusercontent.com/alice").is_none());
    assert!(parse_mirror_url("").is_none());
}

#[test]
fn builds_the_raw_content_url() {
    assert_eq!(
        raw_content_url("alice", "proj", "main/README.md"),
        "https://raw.githubusercontent.com/alice/proj/main/README.md"
    );
}

#[test]
fn splits_the_owner_name_pair() {
    assert_eq!(
        split_full_name("alice/proj"),
        Some(("alice".to_string(), "proj".to_string()))
    );
    // only the second segment counts as the name
    assert_eq!(split_full_name("a/b/c"), Some(("a".to_string(), "b".to_string())));
    assert_eq!(split_full_name("a/"), Some(("a".to_string(), "".to_string())));
    assert_eq!(split_full_name("noslash"), None);
}

#[test]
fn decimal_parse_exact_values() {
    assert_eq!(parse_usize_decimal("123"), Some(123));
    assert_eq!(parse_usize_decimal("0"), Some(0));
    assert_eq!(parse_usize_decimal(""), None);
    assert_eq!(parse_usize_decimal("12a"), None);
    assert_eq!(parse_usize_decimal("-3"), None);
    assert_eq!(parse_usize_decimal("99999999999999999999999999"), None);
}

#[test]
fn decimal_parse_accepts_one_leading_plus() {
    assert_eq!(parse_usize_decimal("+3"), Some(3));
    assert_eq!(parse_usize_decimal("+0"), Some(0));
    assert_eq!(parse_usize_decimal("+"), None);
    assert_eq!(parse_usize_decimal("++1"), None);
}

#[test]
fn commands_split_on_any_unicode_whitespace() {
    let p1 = "<@!1>";
    let p2 = "<@1>";
    // no-break space and ideographic space both separate tokens
    assert!(matches!(parse_command("<@!1>\u{00a0}invite", p1, p2), Command::Invite));
    match parse_command("<@!1>\u{3000}mirror\u{2009}u", p1, p2) {
        Command::Mirror { url, explicit_pages } => {
            assert_eq!(url, "u");
            assert_eq!(explicit_pages, None);
        },
        _ => panic!("expected a mirror command"),
    }
}

#[test]
fn mirror_page_count_may_carry_a_plus_sign() {
    let p1 = "<@!1>";
    let p2 = "<@1>";
    match parse_command("<@!1> mirror u +3", p1, p2) {
        Command::Mirror { url, explicit_pages } => {
            assert_eq!(url, "u");
            assert_eq!(explicit_pages, Some(3));
        },
        _ => panic!("expected a mirror command"),
    }
}

#[test]
fn commands_are_decoded_against_the_mention_prefixes() {
    let p1 = "<@!1>";
    let p2 = "<@1>";
    assert!(matches!(parse_command("<@!1> invite", p1, p2), Command::Invite));
    assert!(matches!(parse_command("<@1> invite", p1, p2), Command::Invite));
    assert!(matches!(parse_command("no mention", p1, p2), Command::Ignore));
    assert!(matches!(parse_command("<@!1> dance", p1, p2), Command::Ignore));
    assert!(matches!(parse_command("<@!1>", p1, p2), Command::Ignore));
}

#[test]
fn mirror_commands_carry_url_and_page_count() {
    let p1 = "<@!1>";
    let p2 = "<@1>";
    match parse_command("<@!1> mirror https://github.com/a/b/blob/m/f 3", p1, p2) {
        Command::Mirror { url, explicit_pages } => {
            assert_eq!(url, "https://github.com/a/b/blob/m/f");
            assert_eq!(explicit_pages, Some(3));
        },
        _ => panic!("expected a mirror command"),
    }
    match parse_command("<@1>mirror u", p1, p2) {
        Command::Mirror { url, explicit_pages } => {
            assert_eq!(url, "u");
            assert_eq!(explicit_pages, None);
        },
        _ => panic!("expected a mirror command"),
    }
    assert!(matches!(parse_command("<@!1> mirror", p1, p2), Command::Usage));
    assert!(matches!(parse_command("<@!1> mirror u abc", p1, p2), Command::Usage));
}
