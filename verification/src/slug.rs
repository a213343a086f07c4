//! Slugs: the readable names GIF pages are served under, built from a GIF's first tags and
//! the start of its key, and how a requested slug finds its GIF.
use vstd::prelude::*;
use crate::text::{
    chars_of, is_ascii_alphanumeric, lowercase, push_char, string_of, take_chars,
    to_lower, ascii_alphanumeric, views, append_str, join, non_empty, drop_empty, join_strings,
    lowercase_all, lowered,
};
use crate::tags::copy_strings;
use crate::search::{is_prefix, starts_with};

verus! {

/// The first six characters of a key (all of it where it is shorter).
pub open spec fn short_key_of(key: Seq<char>) -> Seq<char> {
    key.take(if key.len() < 6 {
        key.len() as int
    } else {
        6
    })
}

/// `s` with every character that is not an ASCII letter or digit replaced by `-`.
pub open spec fn dashed(s: Seq<char>) -> Seq<char> {
    s.map_values(|c: char| if is_ascii_alphanumeric(c) {
        c
    } else {
        '-'
    })
}

/// The first three elements of `xs` (all of them where there are fewer).
pub open spec fn first_three(xs: Seq<Seq<char>>) -> Seq<Seq<char>> {
    xs.take(if xs.len() < 3 {
        xs.len() as int
    } else {
        3
    })
}

/// Each string of `xs` dashed.
pub open spec fn dashed_all(xs: Seq<Seq<char>>) -> Seq<Seq<char>> {
    xs.map_values(|t: Seq<char>| dashed(t))
}

/// The slug pieces of a GIF's tags: its first three tags, lowercased and dashed, the empty
/// ones dropped.
pub open spec fn slug_parts(tags: Seq<Seq<char>>) -> Seq<Seq<char>> {
    non_empty(dashed_all(lowered(first_three(tags))))
}

/// The slug made of `parts` and a key: the parts joined by `-`, then `-` and the key's
/// short key; only the short key where there are no parts.
pub open spec fn slug_with(key: Seq<char>, parts: Seq<Seq<char>>) -> Seq<char> {
    if parts.len() == 0 {
        short_key_of(key)
    } else {
        join(parts, "-"@) + "-"@ + short_key_of(key)
    }
}

/// The slug of a GIF, from its key and its first tags.
pub open spec fn slug_of(key: Seq<char>, tags: Seq<Seq<char>>) -> Seq<char> {
    slug_with(key, slug_parts(tags))
}

/// The first six characters of `key`.
pub fn short_key(key: &str) -> (s: String)
    ensures
        s@ == short_key_of(key@),
{
    take_chars(key, 6)
}

/// `s` with every character other than an ASCII letter or digit replaced by `-`.
pub fn dash_non_alphanumeric(s: &str) -> (d: String)
    ensures
        d@ == dashed(s@),
{
    let cs = chars_of(s);
    let n = cs.len();
    let mut d = String::new();
    let mut i: usize = 0;
    while i < n
        invariant
            cs@ == s@,
            n == s@.len(),
            i <= n,
            d@ == dashed(s@.take(i as int)),
        decreases n - i,
    {
        let c = cs[i];
        if ascii_alphanumeric(c) {
            push_char(&mut d, c);
        } else {
            push_char(&mut d, '-');
        }
        proof {
            assert(dashed(s@.take(i + 1)) =~= dashed(s@.take(i as int)).push(
                if is_ascii_alphanumeric(c) {
                    c
                } else {
                    '-'
                },
            ));
        }
        i = i + 1;
    }
    proof {
        assert(s@.take(n as int) == s@);
    }
    d
}

/// The slug of the GIF with key `key` whose first tags, lowercased, are `lowered_tags`.
pub fn slug_from_lowered(key: &str, lowered_tags: &[String]) -> (slug: String)
    ensures
        slug@ == slug_with(key@, non_empty(dashed_all(views(lowered_tags@)))),
{
    let sk = short_key(key);
    let n = lowered_tags.len();
    let mut dashes: Vec<String> = Vec::new();
    let mut i: usize = 0;
    while i < n
        invariant
            n == lowered_tags@.len(),
            i <= n,
            views(dashes@) == dashed_all(views(lowered_tags@)).take(i as int),
        decreases n - i,
    {
        let ghost before = dashes@;
        dashes.push(dash_non_alphanumeric(lowered_tags[i].as_str()));
        proof {
            let d = dashed_all(views(lowered_tags@));
            assert(views(dashes@) =~= views(before).push(d[i as int]));
            assert(d.take(i + 1) == d.take(i as int).push(d[i as int]));
        }
        i = i + 1;
    }
    proof {
        assert(dashed_all(views(lowered_tags@)).take(n as int) == dashed_all(views(lowered_tags@)));
    }
    let parts = drop_empty(dashes);
    if parts.len() == 0 {
        return sk;
    }
    let mut slug = join_strings(parts.as_slice(), "-");
    append_str(&mut slug, "-");
    append_str(&mut slug, sk.as_str());
    slug
}

/// The slug of the GIF with key `key` and tags `tags`.
pub fn gif_slug(key: &str, tags: &[String]) -> (slug: String)
    ensures
        slug@ == slug_of(key@, views(tags@)),
{
    let count = if tags.len() < 3 {
        tags.len()
    } else {
        3
    };
    let firsts = copy_strings(&tags[0..count]);
    proof {
        assert(tags@.subrange(0, count as int) == tags@.take(count as int));
        assert(views(tags@.take(count as int)) == first_three(views(tags@)));
    }
    let lower = lowercase_all(firsts.as_slice());
    slug_from_lowered(key, lower.as_slice())
}

// ---------------------------------------------------------------- requested slugs

/// Whether `s` ends with `suffix`.
pub open spec fn has_suffix(s: Seq<char>, suffix: Seq<char>) -> bool {
    suffix.len() <= s.len() && s.skip(s.len() - suffix.len()) == suffix
}

/// Whether a requested slug (lowercased) names a media file rather than a page.
pub open spec fn names_media(s: Seq<char>) -> bool {
    has_suffix(s, ".webp"@) || has_suffix(s, ".gif"@) || has_suffix(s, ".mp4"@) || has_suffix(
        s,
        ".webm"@,
    )
}

/// A requested slug, lowercased, without its media extension.
pub open spec fn target_slug_of(param: Seq<char>) -> Seq<char> {
    strip_media_ext(lowercase(param))
}

/// Whether `s` ends with `suffix`.
pub fn ends_with(s: &[char], suffix: &str) -> (b: bool)
    ensures
        b == has_suffix(s@, suffix@),
{
    let suf = chars_of(suffix);
    if suf.len() > s.len() {
        return false;
    }
    let sl = s.len();
    let off = sl - suf.len();
    let n = suf.len();
    let mut i: usize = 0;
    while i < n
        invariant
            sl == s@.len(),
            suf@ == suffix@,
            n == suf@.len(),
            off + n == s@.len(),
            i <= n,
            forall|k: int| 0 <= k < i ==> s@[off + k] == suf@[k],
        decreases n - i,
    {
        assert(off + i < sl);
        if s[off + i] != suf[i] {
            proof {
                assert(s@.skip(off as int)[i as int] != suf@[i as int]);
            }
            return false;
        }
        i = i + 1;
    }
    proof {
        assert(s@.skip(off as int) =~= suf@);
    }
    true
}

/// A requested slug parsed: the slug it names, and whether it asked for a media file.
pub struct SlugRequest {
    pub target: String,
    pub has_ext: bool,
}

/// The slug a lowercased request names, without its media extension.
pub open spec fn strip_media_ext(s: Seq<char>) -> Seq<char> {
    if has_suffix(s, ".webp"@) {
        s.take(s.len() - 5)
    } else if has_suffix(s, ".gif"@) || has_suffix(s, ".mp4"@) {
        s.take(s.len() - 4)
    } else if has_suffix(s, ".webm"@) {
        s.take(s.len() - 5)
    } else {
        s
    }
}

/// Parses a lowercased requested slug: its media extension, if any, removed and noted.
pub fn slug_request_from_lowered(lower: &str) -> (r: SlugRequest)
    ensures
        r.has_ext == names_media(lower@),
        r.target@ == strip_media_ext(lower@),
{
    let cs = chars_of(lower);
    let webp = ends_with(cs.as_slice(), ".webp");
    let gif = ends_with(cs.as_slice(), ".gif");
    let mp4 = ends_with(cs.as_slice(), ".mp4");
    let webm = ends_with(cs.as_slice(), ".webm");
    proof {
        reveal_strlit(".webp");
        reveal_strlit(".gif");
        reveal_strlit(".mp4");
        reveal_strlit(".webm");
    }
    let has_ext = webp || gif || mp4 || webm;
    let keep = if webp {
        cs.len() - 5
    } else if gif || mp4 {
        cs.len() - 4
    } else if webm {
        cs.len() - 5
    } else {
        cs.len()
    };
    let target = string_of(&cs.as_slice()[0..keep]);
    proof {
        assert(cs@.subrange(0, keep as int) == cs@.take(keep as int));
    }
    SlugRequest { target, has_ext }
}

/// Parses the slug of a `/gif/{slug}` request: lowercased, its media extension, if any,
/// removed and noted.
pub fn parse_slug_request(param: &str) -> (r: SlugRequest)
    ensures
        r.has_ext == names_media(lowercase(param@)),
        r.target@ == target_slug_of(param@),
{
    let lower = to_lower(param);
    slug_request_from_lowered(lower.as_str())
}

/// Whether the GIF with key `key` and tags `tags` is the one a request for `target` means:
/// its slug or its short key equals the target, or its lowercased key starts with it.
pub open spec fn slug_matches(key: Seq<char>, tags: Seq<Seq<char>>, target: Seq<char>) -> bool {
    slug_of(key, tags) == target || short_key_of(key) == target || is_prefix(
        target,
        lowercase(key),
    )
}

/// The first GIF of a listing that a request for `target` means.
pub open spec fn first_match(
    keys: Seq<Seq<char>>,
    tags: Seq<Seq<Seq<char>>>,
    target: Seq<char>,
    i: int,
) -> bool {
    &&& 0 <= i < keys.len()
    &&& slug_matches(keys[i], tags[i], target)
    &&& forall|k: int| 0 <= k < i ==> !slug_matches(#[trigger] keys[k], tags[k], target)
}

/// The tags of each GIF of a listing, as character sequences.
pub open spec fn tag_lists(v: Seq<Vec<String>>) -> Seq<Seq<Seq<char>>> {
    v.map_values(|t: Vec<String>| views(t@))
}

/// Whether the GIF with key `key` and tags `tags` is meant by a request for `target`.
pub fn gif_matches_slug(key: &str, tags: &[String], target: &String) -> (b: bool)
    ensures
        b == slug_matches(key@, views(tags@), target@),
{
    let slug = gif_slug(key, tags);
    if slug == *target {
        return true;
    }
    let sk = short_key(key);
    if sk == *target {
        return true;
    }
    let lower = to_lower(key);
    let lc = chars_of(lower.as_str());
    let tc = chars_of(target.as_str());
    starts_with(lc.as_slice(), tc.as_slice())
}

/// The position, in listing order, of the first GIF a request for `target` means, or `None`
/// where no GIF matches. `keys[i]` and `tags[i]` are the key and tags of the `i`th GIF.
pub fn find_gif(keys: &[String], tags: &[Vec<String>], target: &String) -> (found: Option<usize>)
    requires
        keys@.len() == tags@.len(),
    ensures
        match found {
            Some(i) => first_match(views(keys@), tag_lists(tags@), target@, i as int),
            None => forall|k: int|
                0 <= k < keys@.len() ==> !slug_matches(
                    #[trigger] views(keys@)[k],
                    tag_lists(tags@)[k],
                    target@,
                ),
        },
{
    let n = keys.len();
    let mut i: usize = 0;
    while i < n
        invariant
            n == keys@.len(),
            n == tags@.len(),
            i <= n,
            forall|k: int|
                0 <= k < i ==> !slug_matches(
                    #[trigger] views(keys@)[k],
                    tag_lists(tags@)[k],
                    target@,
                ),
        decreases n - i,
    {
        let m = gif_matches_slug(keys[i].as_str(), tags[i].as_slice(), target);
        proof {
            assert(views(keys@)[i as int] == keys@[i as int]@);
            assert(tag_lists(tags@)[i as int] == views(tags@[i as int]@));
        }
        if m {
            return Some(i);
        }
        i = i + 1;
    }
    None
}

// ---------------------------------------------------------------- laws

/// Every slug ends with the short key of its GIF, so two GIFs whose keys differ in their
/// first six characters never share a slug.
pub proof fn law_slug_ends_with_short_key(key: Seq<char>, tags: Seq<Seq<char>>)
    ensures
        has_suffix(slug_of(key, tags), short_key_of(key)),
{
    let sk = short_key_of(key);
    let slug = slug_of(key, tags);
    if slug_parts(tags).len() == 0 {
        assert(slug.skip(0) == sk);
    } else {
        let head = join(slug_parts(tags), "-"@) + "-"@;
        assert(slug == head + sk);
        assert(slug.skip(slug.len() - sk.len()) =~= sk);
    }
}

/// A GIF is found by a request for its own slug, and by one for its short key.
pub proof fn law_gif_found_by_own_slug(key: Seq<char>, tags: Seq<Seq<char>>)
    ensures
        slug_matches(key, tags, slug_of(key, tags)),
        slug_matches(key, tags, short_key_of(key)),
{
}


/// Where `s` ends with `suffix`, its last character is that of `suffix`.
proof fn lemma_suffix_last(s: Seq<char>, suffix: Seq<char>)
    requires
        has_suffix(s, suffix),
        suffix.len() > 0,
    ensures
        s.len() > 0,
        s.last() == suffix.last(),
{
    assert(s.skip(s.len() - suffix.len())[suffix.len() - 1] == s[s.len() - 1]);
}

/// A requested slug `s`, lowercased, that ends with `.webp`, `.gif`, `.mp4` or `.webm` asks
/// for the media file, and names the slug with that extension removed; any other requested
/// slug asks for the page and names itself.
pub proof fn law_media_extensions(s: Seq<char>)
    ensures
        s.len() >= 5 && s.skip(s.len() - 5) == ".webp"@ ==> names_media(s) && strip_media_ext(s)
            == s.take(s.len() - 5),
        s.len() >= 4 && s.skip(s.len() - 4) == ".gif"@ ==> names_media(s) && strip_media_ext(s)
            == s.take(s.len() - 4),
        s.len() >= 4 && s.skip(s.len() - 4) == ".mp4"@ ==> names_media(s) && strip_media_ext(s)
            == s.take(s.len() - 4),
        s.len() >= 5 && s.skip(s.len() - 5) == ".webm"@ ==> names_media(s) && strip_media_ext(s)
            == s.take(s.len() - 5),
        !(s.len() >= 5 && s.skip(s.len() - 5) == ".webp"@) && !(s.len() >= 4 && s.skip(s.len() - 4)
            == ".gif"@) && !(s.len() >= 4 && s.skip(s.len() - 4) == ".mp4"@) && !(s.len() >= 5
            && s.skip(s.len() - 5) == ".webm"@) ==> !names_media(s) && strip_media_ext(s) == s,
{
    reveal_strlit(".webp");
    reveal_strlit(".gif");
    reveal_strlit(".mp4");
    reveal_strlit(".webm");
    assert(".webp"@.last() == 'p');
    assert(".gif"@.last() == 'f');
    assert(".mp4"@.last() == '4');
    assert(".webm"@.last() == 'm');
    if has_suffix(s, ".webp"@) {
        lemma_suffix_last(s, ".webp"@);
    }
    if has_suffix(s, ".gif"@) {
        lemma_suffix_last(s, ".gif"@);
    }
    if has_suffix(s, ".mp4"@) {
        lemma_suffix_last(s, ".mp4"@);
    }
    if has_suffix(s, ".webm"@) {
        lemma_suffix_last(s, ".webm"@);
    }
}

} // verus!
