use giflibrary::gallery::describe_gif;
use giflibrary::page::{
    escape_html_text, object_url, page_parts, page_response, render_about, render_page,
    replace_text, PageResponse,
};
use giflibrary::placeholder::{hash_string, placeholder_colors, placeholder_data_url, placeholder_hash};
use giflibrary::slug::{find_gif, gif_slug, parse_slug_request, short_key};
use giflibrary::tags::{effective_nsfw_categories, is_locked, merge_caption_tags};

fn s(v: &[&str]) -> Vec<String> {
    v.iter().map(|x| x.to_string()).collect()
}

fn expected_hash(s: &str) -> i32 {
    let mut hash: i32 = 0;
    for c in s.chars() {
        hash = (c as i32).wrapping_add((hash << 5).wrapping_sub(hash));
    }
    hash
}

#[test]
fn hash_string_known_values() {
    assert_eq!(hash_string(""), 0);
    assert_eq!(hash_string("a"), 97);
    assert_eq!(hash_string("ab"), 97 * 31 + 98);
    for key in ["a1b2c3d4e5f60708.webp", "日本語のキー", "zzzzzzzzzzzzzzzzzzzzzzzzzzzzzz"] {
        assert_eq!(hash_string(key), expected_hash(key));
    }
}

#[test]
fn placeholder_hash_is_absolute() {
    let key = "zzzzzzzzzzzzzzzzzzzz";
    assert_eq!(placeholder_hash(key), expected_hash(key).wrapping_abs());
    assert!(placeholder_hash(key) >= 0);
}

#[test]
fn placeholder_colors_follow_the_hash() {
    let palettes = [
        ["#ff0080", "#7928ca"],
        ["#00dfd8", "#007cf0"],
        ["#ff4d4d", "#f9cb28"],
        ["#ff4b2b", "#ff416c"],
        ["#8e2de2", "#4a00e0"],
        ["#f12711", "#f5af19"],
        ["#12c2e9", "#c471ed"],
        ["#f857a6", "#ff5858"],
    ];
    for key in ["a", "b", "abc.webp", "0123456789abcdef.webp", "zzzzzzzzzzzzzzzz"] {
        let idx = (expected_hash(key).unsigned_abs() as usize) % 8;
        let (c1, c2) = placeholder_colors(key);
        assert_eq!(c1, palettes[idx][0]);
        assert_eq!(c2, palettes[idx][1]);
    }
}

#[test]
fn placeholder_data_url_is_base64_of_the_svg() {
    assert_eq!(placeholder_data_url("<svg/>"), "data:image/svg+xml;base64,PHN2Zy8+");
    assert_eq!(placeholder_data_url(""), "data:image/svg+xml;base64,");
}

#[test]
fn slug_from_first_three_tags_and_short_key() {
    let key = "abcdef0123.webp";
    assert_eq!(short_key(key), "abcdef");
    assert_eq!(short_key("abc"), "abc");
    assert_eq!(gif_slug(key, &s(&["Funny Cat", "dog!", "x", "ignored"])), "funny-cat-dog--x-abcdef");
    assert_eq!(gif_slug(key, &[]), "abcdef");
    assert_eq!(gif_slug(key, &s(&["", ""])), "abcdef");
}

#[test]
fn slug_request_strips_media_extension() {
    let r = parse_slug_request("Funny-Cat-ABCDEF.WEBP");
    assert_eq!(r.target, "funny-cat-abcdef");
    assert!(r.has_ext);
    let r = parse_slug_request("abc.gif");
    assert_eq!(r.target, "abc");
    assert!(r.has_ext);
    let r = parse_slug_request("abc.webm");
    assert_eq!(r.target, "abc");
    let r = parse_slug_request("plain-slug");
    assert_eq!(r.target, "plain-slug");
    assert!(!r.has_ext);
}

#[test]
fn find_gif_takes_first_match_in_listing_order() {
    let keys = s(&["aaaaaa11.webp", "bbbbbb22.webp", "bbbbbb33.webp"]);
    let tags = vec![s(&["x"]), s(&["dance"]), s(&[])];
    assert_eq!(find_gif(&keys, &tags, &"dance-bbbbbb".to_string()), Some(1));
    assert_eq!(find_gif(&keys, &tags, &"bbbbbb".to_string()), Some(1));
    assert_eq!(find_gif(&keys, &tags, &"bbbbbb33".to_string()), Some(2));
    assert_eq!(find_gif(&keys, &tags, &"nothing".to_string()), None);
}

#[test]
fn html_escaping_covers_the_five_characters() {
    assert_eq!(escape_html_text("a&b<c>d\"e'f"), "a&amp;b&lt;c&gt;d&quot;e&#39;f");
    let t = "<tag> & 'x'";
    let expected = t
        .replace("&", "&amp;")
        .replace("<", "&lt;")
        .replace(">", "&gt;")
        .replace("\"", "&quot;")
        .replace("'", "&#39;");
    assert_eq!(escape_html_text(t), expected);
}

#[test]
fn replace_text_agrees_with_std() {
    for (text, pat, rep) in [
        ("aaa", "aa", "b"),
        ("{slug} and {slug}", "{slug}", "x"),
        ("none here", "{x}", "y"),
        ("ababab", "ab", ""),
    ] {
        assert_eq!(replace_text(text, pat, rep), text.replace(pat, rep));
    }
}

#[test]
fn page_parts_for_tagged_nsfw_gif() {
    let parts = page_parts(&s(&["Cat<3", "NSFW"]));
    assert_eq!(parts.tags_text, "Cat&lt;3, NSFW");
    assert_eq!(
        parts.tags_html,
        "<span class=\"tag\">cat&lt;3</span><span class=\"tag\">nsfw</span>"
    );
    assert_eq!(parts.filter_style, "filter: brightness(0.85);");
}

#[test]
fn page_parts_for_untagged_gif() {
    let parts = page_parts(&[]);
    assert_eq!(parts.tags_text, "GIF");
    assert_eq!(parts.tags_html, "<span class=\"tag\">untagged</span>");
    assert_eq!(parts.filter_style, "");
}

#[test]
fn render_page_fills_every_placeholder() {
    let parts = page_parts(&s(&["cat"]));
    let html = render_page(
        "<t>{tags_text}</t><s>{slug}</s><u>{raw_url}</u><f>{filter_style}</f>{tags_html}",
        &parts,
        "cat-abcdef",
        "https://cdn/x.webp",
    );
    assert_eq!(
        html,
        "<t>cat</t><s>cat-abcdef</s><u>https://cdn/x.webp</u><f></f><span class=\"tag\">cat</span>"
    );
    assert_eq!(render_about("mail {{CONTACT_EMAIL}}!", "a@b"), "mail a@b!");
    assert_eq!(object_url("https://cdn", "k.webp"), "https://cdn/k.webp");
}

#[test]
fn page_response_redirects_media_requests() {
    let slug = "cat-abcdef".to_string();
    let target = "cat-abcdef".to_string();
    match page_response(true, false, false, "text/html", "Mozilla", &target, &slug, "https://cdn/k") {
        PageResponse::Redirect { permanent, location } => {
            assert!(permanent);
            assert_eq!(location, "/gif/cat-abcdef");
        }
        _ => panic!("expected a redirect to the page"),
    }
    match page_response(true, false, false, "text/html", "Discordbot", &target, &slug, "https://cdn/k") {
        PageResponse::Redirect { permanent, location } => {
            assert!(!permanent);
            assert_eq!(location, "https://cdn/k");
        }
        _ => panic!("expected a redirect to the file"),
    }
}

#[test]
fn page_response_hides_and_canonicalises() {
    let slug = "cat-abcdef".to_string();
    assert!(matches!(
        page_response(false, true, false, "", "", &slug, &slug, "u"),
        PageResponse::NotFound
    ));
    assert!(matches!(page_response(false, true, true, "", "", &slug, &slug, "u"), PageResponse::Render));
    match page_response(false, false, false, "", "", &"abcdef".to_string(), &slug, "u") {
        PageResponse::Redirect { permanent, location } => {
            assert!(permanent);
            assert_eq!(location, "/gif/cat-abcdef");
        }
        _ => panic!("expected a redirect to the slug"),
    }
}

#[test]
fn describe_gif_hides_hidden_gifs_from_visitors() {
    let tags = s(&["Hidden", "cat"]);
    assert!(describe_gif("abcdef.webp", &tags, &[], false).is_none());
    let card = describe_gif("abcdef.webp", &tags, &[], true).unwrap();
    assert!(card.hidden);
    assert_eq!(card.slug, "hidden-cat-abcdef");
    assert!(card.placeholder.is_none());
}

#[test]
fn describe_gif_locks_nsfw_gifs_until_enabled() {
    let tags = s(&["Sexual", "nsfw", "cat"]);
    let card = describe_gif("abcdef.webp", &tags, &[], false).unwrap();
    let p = card.placeholder.unwrap();
    assert_eq!(p.label, "NSFW/SEXUAL");
    assert_eq!(p.hash, placeholder_hash("abcdef.webp"));
    let card = describe_gif("abcdef.webp", &tags, &s(&["sexual"]), false).unwrap();
    assert!(card.placeholder.is_none());
}

#[test]
fn effective_categories_drop_generic_only_beside_specific() {
    let cats = s(&["nsfw", "offensive"]);
    let eff: Vec<String> = effective_nsfw_categories(&cats).into_iter().cloned().collect();
    assert_eq!(eff, s(&["offensive"]));
    let cats = s(&["nsfw"]);
    let eff: Vec<String> = effective_nsfw_categories(&cats).into_iter().cloned().collect();
    assert_eq!(eff, s(&["nsfw"]));
}

#[test]
fn enabling_more_categories_never_locks() {
    let cats = s(&["offensive", "sexual"]);
    assert!(!is_locked(&cats, &s(&["offensive", "sexual"])));
    assert!(!is_locked(&cats, &s(&["offensive", "sexual", "nsfw", "suggestive"])));
}

#[test]
fn merging_a_caption_twice_changes_nothing() {
    let once = merge_caption_tags(&s(&["meme"]), "Hello, world! hello");
    assert_eq!(once, s(&["meme", "hello", "world", "caption"]));
    let twice = merge_caption_tags(&once, "Hello, world! hello");
    assert_eq!(twice, once);
}
