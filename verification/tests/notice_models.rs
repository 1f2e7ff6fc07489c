use lightbulb::test_models::{describe, tinyllama_dir, CheckpointProbe, MODEL_DIR_NAME, PINNED_REVISION};
use lightbulb::test_notice::{armed_by, parse_arming, NOTICE_TOKEN};

#[test]
fn pinned_revision_is_a_full_sha1() {
    assert_eq!(PINNED_REVISION.len(), 40, "a HF revision is a 40-char sha1");
    assert!(PINNED_REVISION.bytes().all(|b| b.is_ascii_hexdigit()));
}

#[test]
fn notice_token_is_greppable() {
    assert!(!NOTICE_TOKEN.is_empty());
    assert!(NOTICE_TOKEN.bytes().all(|b| b.is_ascii_graphic() && b != b'"'));
}

#[test]
fn the_off_list_does_not_arm() {
    assert!(!armed_by("V", None), "unset must not arm");
    for value in ["", "0", "false", "no", "off", " OFF ", "False"] {
        assert!(!armed_by("V", Some(value)), "{value:?} must NOT arm");
    }
}

#[test]
fn the_on_list_arms() {
    for value in ["1", "true", "yes", "on", "TRUE", " On ", "\tyes\n"] {
        assert!(armed_by("V", Some(value)), "{value:?} must arm");
    }
}

#[test]
fn an_unrecognised_value_is_reported_rather_than_silently_declining() {
    assert_eq!(parse_arming("ture"), None);
    assert_eq!(parse_arming("2"), None);
    assert_eq!(parse_arming("o n"), None);
    assert_eq!(parse_arming("\u{3000}yes\u{85}"), Some(true), "Unicode whitespace is trimmed");
    assert_eq!(parse_arming("\u{200b}yes"), None, "a zero-width space is not whitespace");
    assert_eq!(parse_arming("   "), Some(false));
}

fn probe() -> CheckpointProbe {
    CheckpointProbe {
        override_dir: None,
        pinned: Some(("/hub/snap/pinned".to_string(), false)),
        snapshots: vec![
            ("/hub/snap/bbb".to_string(), b"bbb".to_vec()),
            ("/hub/snap/ab".to_string(), b"ab".to_vec()),
            ("/hub/snap/abc".to_string(), b"abc".to_vec()),
        ],
        chained: ("/models/TinyLlama".to_string(), true),
    }
}

#[test]
fn an_override_pointing_at_nothing_resolves_to_none() {
    let mut p = probe();
    p.override_dir = Some(("Z:/definitely/not/here".to_string(), false));
    assert_eq!(tinyllama_dir(&p), None);
    p.override_dir = Some(("/mine".to_string(), true));
    assert_eq!(tinyllama_dir(&p).as_deref(), Some("/mine"));
}

#[test]
fn resolution_prefers_the_pinned_snapshot_then_the_first_sorted_one() {
    let mut p = probe();
    assert_eq!(tinyllama_dir(&p).as_deref(), Some("/hub/snap/ab"));
    p.pinned = Some(("/hub/snap/pinned".to_string(), true));
    assert_eq!(tinyllama_dir(&p).as_deref(), Some("/hub/snap/pinned"));
    p.pinned = None;
    p.snapshots.clear();
    assert_eq!(tinyllama_dir(&p).as_deref(), Some("/models/TinyLlama"));
    p.chained.1 = false;
    assert_eq!(tinyllama_dir(&p), None);
}

#[test]
fn describe_says_whether_the_pinned_revision_was_used() {
    let none = describe(None);
    assert!(none.starts_with("no TinyLlama checkpoint found"));
    assert!(none.contains(MODEL_DIR_NAME));
    let pinned = describe(Some(("/x/y".to_string(), Some(PINNED_REVISION.to_string()))));
    assert_eq!(pinned, "/x/y (pinned revision)");
    let other = describe(Some(("/x/z".to_string(), Some("z".to_string()))));
    assert_eq!(other, "/x/z (NOT the pinned revision -- recorded numbers are not comparable)");
}
