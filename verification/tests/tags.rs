//! Folder names, state tags and the feeds to push.
use papr_sync::data::SubCat;
use papr_sync::subscriptions::feeds_to_push;
use papr_sync::tags::{has_state_tag, READ_TAG, STARRED_TAG};

fn cat(id: &str, label: Option<&str>) -> SubCat {
    SubCat {
        id: id.to_string(),
        label: label.map(str::to_string),
    }
}

#[test]
fn folder_name_prefers_label() {
    assert_eq!(
        cat("user/-/label/Tech", Some("Tech")).folder_name().as_deref(),
        Some("Tech")
    );
}

#[test]
fn folder_name_falls_back_to_label_id() {
    // Some servers omit the human label; derive it from the id instead.
    assert_eq!(
        cat("user/-/label/科技", None).folder_name().as_deref(),
        Some("科技")
    );
}

#[test]
fn folder_name_skips_unnamed_categories() {
    // A state tag (not a label) or a blank label is not a folder.
    assert_eq!(cat("user/-/state/com.google/read", None).folder_name(), None);
    assert_eq!(cat("", Some("   ")).folder_name(), None);
}

#[test]
fn folder_name_skips_freshrss_uncategorized() {
    // FreshRSS's built-in "Uncategorized" label is not a real folder, by
    // either label or id, and regardless of case.
    assert_eq!(
        cat("user/-/label/Uncategorized", Some("Uncategorized")).folder_name(),
        None
    );
    assert_eq!(cat("user/-/label/uncategorized", None).folder_name(), None);
}

#[test]
fn feeds_to_push_selects_only_local_only_feeds() {
    let local = vec![
        "https://a.example/feed".to_string(),
        "https://b.example/feed".to_string(),
        "https://c.example/feed".to_string(),
    ];
    let server = vec!["https://b.example/feed".to_string()];
    assert_eq!(
        feeds_to_push(&local, &server),
        vec!["https://a.example/feed", "https://c.example/feed"]
    );
}

#[test]
fn feeds_to_push_empty_when_server_has_everything() {
    let local = vec!["https://a.example/feed".to_string()];
    let server = vec!["https://a.example/feed".to_string()];
    assert!(feeds_to_push(&local, &server).is_empty());
}

#[test]
fn state_tag_accepts_numeric_user_prefix() {
    let categories = vec![
        "user/123/state/com.google/read".to_string(),
        "user/-/state/com.google/starred".to_string(),
    ];
    assert!(has_state_tag(&categories, READ_TAG));
    assert!(has_state_tag(&categories, STARRED_TAG));
}

#[test]
fn state_tag_ignores_unrelated_tags() {
    let categories = vec!["user/-/label/Tech".to_string()];
    assert!(!has_state_tag(&categories, READ_TAG));
    assert!(!has_state_tag(&categories, STARRED_TAG));
}

#[test]
fn no_category_carries_both_states() {
    for user in ["-", "1", "anyone", ""] {
        let read = vec![format!("user/{user}/state/com.google/read")];
        let starred = vec![format!("user/{user}/state/com.google/starred")];
        assert!(has_state_tag(&read, READ_TAG));
        assert!(!has_state_tag(&read, STARRED_TAG));
        assert!(has_state_tag(&starred, STARRED_TAG));
        assert!(!has_state_tag(&starred, READ_TAG));
    }
    assert!(!has_state_tag(&[], READ_TAG));
}

#[test]
fn a_blank_label_gives_way_to_the_id() {
    assert_eq!(cat("user/-/label/Tech", Some("  ")).folder_name().as_deref(), Some("Tech"));
    assert_eq!(cat("user/-/label/Tech", Some(" News ")).folder_name().as_deref(), Some("News"));
    // A label that stands for no folder is not replaced by the id.
    assert_eq!(cat("user/-/label/Tech", Some("UNCATEGORIZED")).folder_name(), None);
    assert_eq!(cat("user/-/label/  ", None).folder_name(), None);
}
