use giflibrary::tags::{
    caption_word_tags, gif_nsfw_categories, is_locked, merge_caption_tags, nsfw_placeholder_label,
    parse_enabled_categories,
};

#[test]
fn gif_nsfw_categories_extracts_reserved_tags_case_insensitively() {
    let tags = vec!["meme".to_string(), "NSFW".to_string(), "funny".to_string()];
    assert_eq!(gif_nsfw_categories(&tags), vec!["nsfw".to_string()]);
}

#[test]
fn gif_nsfw_categories_returns_multiple_matches_in_tag_order() {
    let tags = vec!["offensive".to_string(), "sexual".to_string(), "funny".to_string()];
    assert_eq!(
        gif_nsfw_categories(&tags),
        vec!["offensive".to_string(), "sexual".to_string()]
    );
}

#[test]
fn gif_nsfw_categories_empty_for_sfw_gif() {
    let tags = vec!["meme".to_string(), "funny".to_string()];
    assert!(gif_nsfw_categories(&tags).is_empty());
}

#[test]
fn parse_enabled_categories_splits_trims_and_lowercases() {
    assert_eq!(
        parse_enabled_categories(Some("Suggestive, offensive")),
        vec!["suggestive".to_string(), "offensive".to_string()]
    );
}

#[test]
fn parse_enabled_categories_drops_unknown_values() {
    assert_eq!(
        parse_enabled_categories(Some("suggestive,bogus")),
        vec!["suggestive".to_string()]
    );
}

#[test]
fn parse_enabled_categories_empty_for_none_or_blank() {
    assert!(parse_enabled_categories(None).is_empty());
    assert!(parse_enabled_categories(Some("")).is_empty());
}

#[test]
fn is_locked_false_for_sfw_gif() {
    assert!(!is_locked(&[], &[]));
    assert!(!is_locked(&[], &["offensive".to_string()]));
}

#[test]
fn is_locked_true_when_category_not_enabled() {
    let gif_cats = vec!["offensive".to_string()];
    assert!(is_locked(&gif_cats, &[]));
}

#[test]
fn is_locked_false_when_single_category_enabled() {
    let gif_cats = vec!["offensive".to_string()];
    let enabled = vec!["offensive".to_string()];
    assert!(!is_locked(&gif_cats, &enabled));
}

#[test]
fn is_locked_requires_all_of_gifs_categories_enabled() {
    let gif_cats = vec!["offensive".to_string(), "sexual".to_string()];
    let enabled_partial = vec!["offensive".to_string()];
    let enabled_full = vec!["offensive".to_string(), "sexual".to_string()];
    assert!(is_locked(&gif_cats, &enabled_partial));
    assert!(!is_locked(&gif_cats, &enabled_full));
}

#[test]
fn is_locked_nsfw_tag_does_not_add_a_requirement_alongside_a_specific_category() {
    let gif_cats = vec!["sexual".to_string(), "nsfw".to_string()];
    let enabled_sexual_only = vec!["sexual".to_string()];
    assert!(!is_locked(&gif_cats, &enabled_sexual_only));
}

#[test]
fn is_locked_nsfw_only_gif_still_requires_nsfw_enabled() {
    let gif_cats = vec!["nsfw".to_string()];
    assert!(is_locked(&gif_cats, &[]));
    assert!(!is_locked(&gif_cats, &["nsfw".to_string()]));
}

#[test]
fn is_locked_nsfw_does_not_bypass_other_unenabled_specific_categories() {
    let gif_cats = vec!["offensive".to_string(), "sexual".to_string(), "nsfw".to_string()];
    let enabled_offensive_only = vec!["offensive".to_string()];
    let enabled_both = vec!["offensive".to_string(), "sexual".to_string()];
    assert!(is_locked(&gif_cats, &enabled_offensive_only));
    assert!(!is_locked(&gif_cats, &enabled_both));
}

#[test]
fn nsfw_placeholder_label_generic_only() {
    let gif_cats = vec!["nsfw".to_string()];
    assert_eq!(nsfw_placeholder_label(&gif_cats), "NSFW");
}

#[test]
fn nsfw_placeholder_label_single_specific_category() {
    let gif_cats = vec!["sexual".to_string()];
    assert_eq!(nsfw_placeholder_label(&gif_cats), "NSFW/SEXUAL");
}

#[test]
fn nsfw_placeholder_label_drops_generic_when_specific_present() {
    let gif_cats = vec!["sexual".to_string(), "nsfw".to_string()];
    assert_eq!(nsfw_placeholder_label(&gif_cats), "NSFW/SEXUAL");
}

#[test]
fn nsfw_placeholder_label_joins_multiple_specific_categories() {
    let gif_cats = vec!["offensive".to_string(), "sexual".to_string()];
    assert_eq!(nsfw_placeholder_label(&gif_cats), "NSFW/OFFENSIVE/SEXUAL");
}

#[test]
fn caption_word_tags_splits_lowercases_and_trims_punctuation() {
    let tags = caption_word_tags("SWIPE UP to get this ringtone!");
    assert_eq!(
        tags,
        vec!["swipe", "up", "to", "get", "this", "ringtone"]
            .into_iter().map(String::from).collect::<Vec<_>>()
    );
}

#[test]
fn caption_word_tags_empty_for_blank_input() {
    assert!(caption_word_tags("").is_empty());
    assert!(caption_word_tags("   ").is_empty());
}

#[test]
fn merge_caption_tags_adds_caption_tag() {
    let existing = vec!["meme".to_string()];
    let merged = merge_caption_tags(&existing, "hello world");
    assert!(merged.contains(&"caption".to_string()));
}

#[test]
fn merge_caption_tags_dedupes_against_existing_manual_tags() {
    let existing = vec!["bro".to_string(), "dance".to_string()];
    let merged = merge_caption_tags(&existing, "bro dance party");
    let bro_count = merged.iter().filter(|t| *t == "bro").count();
    assert_eq!(bro_count, 1);
    assert!(merged.contains(&"party".to_string()));
}

#[test]
fn merge_caption_tags_preserves_manual_tags_then_appends_caption_words_then_caption_tag() {
    let existing = vec!["exploit".to_string(), "community".to_string()];
    let merged = merge_caption_tags(&existing, "can ur external do this");
    assert_eq!(
        merged,
        vec!["exploit", "community", "can", "ur", "external", "do", "this", "caption"]
            .into_iter().map(String::from).collect::<Vec<_>>()
    );
}
