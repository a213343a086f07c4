//! How one GIF appears in the listing a viewer asked for: whether it is listed at all, its
//! short key and slug, and whether it is shown behind a placeholder.
use vstd::prelude::*;
use crate::text::views;
use crate::tags::{
    categories_of, generic_category, gif_nsfw_categories, is_locked, is_nsfw_category, law_tags_locked,
    locked, nsfw_placeholder_label, placeholder_label,
};
use crate::text::lowercase;
use crate::slug::{gif_slug, short_key, short_key_of, slug_of};
use crate::placeholder::{palette, palette_index_of, placeholder_colors, placeholder_hash, placeholder_hash_of};
use crate::submit::{hidden_of, is_hidden};

verus! {

/// What the placeholder of a locked GIF is drawn from.
pub struct Placeholder {
    /// The hash that names its blur filter.
    pub hash: i32,
    /// Its first colour.
    pub first_color: String,
    /// Its second colour.
    pub second_color: String,
    /// The label drawn on it.
    pub label: String,
}

/// A GIF as the listing shows it.
pub struct GifCard {
    pub short_key: String,
    pub slug: String,
    /// Whether the GIF is hidden (and so listed only for administrators).
    pub hidden: bool,
    /// The placeholder shown in its place, where it is locked for the viewer.
    pub placeholder: Option<Placeholder>,
}

/// Whether a GIF with tags `tags` is shown behind a placeholder to a viewer who enabled
/// `enabled`: it has an NSFW category and is locked.
pub open spec fn shows_placeholder(tags: Seq<Seq<char>>, enabled: Seq<Seq<char>>) -> bool {
    categories_of(tags).len() > 0 && locked(categories_of(tags), enabled)
}

/// The listing entry of the GIF with key `key` and tags `tags`, for a viewer who enabled the
/// NSFW categories `enabled`; `None` where the GIF is hidden and the viewer is no
/// administrator.
pub fn describe_gif(key: &str, tags: &[String], enabled: &[String], is_admin: bool) -> (card: Option<GifCard>)
    ensures
        card is None <==> hidden_of(views(tags@)) && !is_admin,
        match card {
            Some(c) => {
                &&& c.short_key@ == short_key_of(key@)
                &&& c.slug@ == slug_of(key@, views(tags@))
                &&& c.hidden == hidden_of(views(tags@))
                &&& (c.placeholder is Some <==> shows_placeholder(views(tags@), views(enabled@)))
                &&& match c.placeholder {
                    Some(p) => {
                        &&& p.hash == placeholder_hash_of(key@)
                        &&& p.first_color@ == palette(palette_index_of(key@)).0
                        &&& p.second_color@ == palette(palette_index_of(key@)).1
                        &&& p.label@ == placeholder_label(categories_of(views(tags@)))
                    },
                    None => true,
                }
            },
            None => true,
        },
{
    let cats = gif_nsfw_categories(tags);
    let hidden = is_hidden(tags);
    if hidden && !is_admin {
        return None;
    }
    let sk = short_key(key);
    let slug = gif_slug(key, tags);
    let placeholder = if cats.len() > 0 && is_locked(cats.as_slice(), enabled) {
        let hash = placeholder_hash(key);
        let (first_color, second_color) = placeholder_colors(key);
        let label = nsfw_placeholder_label(cats.as_slice());
        Some(Placeholder { hash, first_color, second_color, label })
    } else {
        None
    };
    Some(GifCard { short_key: sk, slug, hidden, placeholder })
}


/// A GIF is listed behind a placeholder exactly when one of its tags, lowercased, is a
/// specific NSFW category the viewer has not enabled, or when its only NSFW category is the
/// generic `nsfw` and the viewer has not enabled that.
pub proof fn law_placeholder_shown(tags: Seq<Seq<char>>, enabled: Seq<Seq<char>>)
    ensures
        shows_placeholder(tags, enabled) == ((exists|i: int|
            0 <= i < tags.len() && is_nsfw_category(#[trigger] lowercase(tags[i])) && lowercase(
                tags[i],
            ) != "nsfw"@ && !enabled.contains(lowercase(tags[i]))) || ((exists|i: int|
            0 <= i < tags.len() && #[trigger] lowercase(tags[i]) == "nsfw"@) && (forall|i: int|
            0 <= i < tags.len() && is_nsfw_category(#[trigger] lowercase(tags[i])) ==> lowercase(
                tags[i],
            ) == "nsfw"@) && !enabled.contains("nsfw"@))),
{
    assert(generic_category() == "nsfw"@);
    law_tags_locked(tags, enabled);
}

} // verus!
