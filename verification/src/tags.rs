//! Tags and NSFW categories: which categories a GIF carries, which a viewer has enabled,
//! whether the GIF is locked for that viewer, the label of its placeholder, and the tag
//! lists read from upload forms and captions.
use vstd::prelude::*;
use crate::text::{
    CharClass, append_str, chars_of, drop_empty, join, join_strings, lowercase, lowercase_all, lowered,
    non_empty, owned_string, split_on, split_words, string_of, to_upper, trim, trim_by,
    trim_chars, trimmed, trimmed_pieces, uppercased, views, words,
};

verus! {

/// The reserved tags that mark a GIF as NSFW, each naming a category a viewer can enable.
pub open spec fn is_nsfw_category(s: Seq<char>) -> bool {
    ||| s == "suggestive"@
    ||| s == "offensive"@
    ||| s == "sexual"@
    ||| s == "nsfw"@
}

/// The generic category, which stands for "NSFW of no stated kind".
pub open spec fn generic_category() -> Seq<char> {
    "nsfw"@
}

/// The elements of `xs` that are NSFW categories, in order.
pub open spec fn keep_categories(xs: Seq<Seq<char>>) -> Seq<Seq<char>>
    decreases xs.len(),
{
    if xs.len() == 0 {
        xs
    } else {
        let r = keep_categories(xs.drop_last());
        if is_nsfw_category(xs.last()) {
            r.push(xs.last())
        } else {
            r
        }
    }
}

/// The NSFW categories of a GIF with tags `tags`: its tags, lowercased, that are categories.
pub open spec fn categories_of(tags: Seq<Seq<char>>) -> Seq<Seq<char>> {
    keep_categories(lowered(tags))
}

/// The categories named by a viewer's `nsfw_categories` query parameter.
pub open spec fn enabled_categories_of(param: Option<Seq<char>>) -> Seq<Seq<char>> {
    match param {
        Some(s) => if trim(s).len() == 0 {
            Seq::<Seq<char>>::empty()
        } else {
            keep_categories(lowered(trimmed(split_on(s, ','))))
        },
        None => Seq::<Seq<char>>::empty(),
    }
}

/// The elements of `xs` other than the generic category, in order.
pub open spec fn specific_categories(xs: Seq<Seq<char>>) -> Seq<Seq<char>>
    decreases xs.len(),
{
    if xs.len() == 0 {
        xs
    } else {
        let r = specific_categories(xs.drop_last());
        if xs.last() != generic_category() {
            r.push(xs.last())
        } else {
            r
        }
    }
}

/// The categories a viewer must have enabled to see a GIF: its specific categories, or,
/// where it has none, all of its categories.
pub open spec fn effective_categories(cats: Seq<Seq<char>>) -> Seq<Seq<char>> {
    let specific = specific_categories(cats);
    if specific.len() == 0 {
        cats
    } else {
        specific
    }
}

/// A GIF is locked when one of its effective categories is not enabled.
pub open spec fn locked(cats: Seq<Seq<char>>, enabled: Seq<Seq<char>>) -> bool {
    exists|i: int|
        0 <= i < effective_categories(cats).len() && !enabled.contains(
            #[trigger] effective_categories(cats)[i],
        )
}

/// The text drawn on the placeholder of a locked GIF.
pub open spec fn placeholder_label(cats: Seq<Seq<char>>) -> Seq<char> {
    let e = effective_categories(cats);
    if e.len() == 1 && e[0] == generic_category() {
        "NSFW"@
    } else {
        "NSFW/"@ + join(uppercased(e), "/"@)
    }
}

/// Whether `s` is one of the NSFW categories.
pub fn is_category(s: &String) -> (b: bool)
    ensures
        b == is_nsfw_category(s@),
{
    let a = owned_string("suggestive");
    let b = owned_string("offensive");
    let c = owned_string("sexual");
    let d = owned_string("nsfw");
    *s == a || *s == b || *s == c || *s == d
}

/// Whether `s` is the generic category.
pub fn is_generic(s: &String) -> (b: bool)
    ensures
        b == (s@ == generic_category()),
{
    let g = owned_string("nsfw");
    *s == g
}

/// Whether `v` holds a string equal to `s`.
pub fn contains_string(v: &[String], s: &String) -> (b: bool)
    ensures
        b == views(v@).contains(s@),
{
    let n = v.len();
    let mut i: usize = 0;
    while i < n
        invariant
            n == v@.len(),
            i <= n,
            forall|k: int| 0 <= k < i ==> views(v@)[k] != s@,
        decreases n - i,
    {
        if v[i] == *s {
            proof {
                assert(views(v@)[i as int] == s@);
            }
            return true;
        }
        i = i + 1;
    }
    false
}

/// The elements of `v` that are NSFW categories, in order.
pub fn keep_nsfw_categories(v: &[String]) -> (cats: Vec<String>)
    ensures
        views(cats@) == keep_categories(views(v@)),
{
    let n = v.len();
    let ghost xs = views(v@);
    let mut cats: Vec<String> = Vec::new();
    let mut i: usize = 0;
    while i < n
        invariant
            n == v@.len(),
            xs == views(v@),
            i <= n,
            views(cats@) == keep_categories(xs.take(i as int)),
        decreases n - i,
    {
        proof {
            assert(xs.take(i + 1).drop_last() == xs.take(i as int));
            assert(xs.take(i + 1).last() == v@[i as int]@);
        }
        if is_category(&v[i]) {
            let ghost before = cats@;
            cats.push(v[i].clone());
            proof {
                assert(views(cats@) =~= views(before).push(xs[i as int]));
            }
        }
        i = i + 1;
    }
    proof {
        assert(xs.take(n as int) == xs);
    }
    cats
}

/// The NSFW categories among a GIF's tags, lowercased, in tag order.
pub fn gif_nsfw_categories(tags: &[String]) -> (cats: Vec<String>)
    ensures
        views(cats@) == categories_of(views(tags@)),
{
    let lower = lowercase_all(tags);
    keep_nsfw_categories(lower.as_slice())
}

/// The categories a viewer enabled, from the comma separated `nsfw_categories` parameter:
/// each piece trimmed and lowercased, unknown ones dropped.
pub fn parse_enabled_categories(param: Option<&str>) -> (cats: Vec<String>)
    ensures
        views(cats@) == enabled_categories_of(
            match param {
                Some(s) => Some(s@),
                None => None,
            },
        ),
{
    match param {
        None => Vec::new(),
        Some(s) => {
            let chars = chars_of(s);
            let whole = trim_chars(chars.as_slice(), CharClass::WhiteSpace);
            if whole.len() == 0 {
                return Vec::new();
            }
            let pieces = trimmed_pieces(s, ',');
            let lower = lowercase_all(pieces.as_slice());
            keep_nsfw_categories(lower.as_slice())
        },
    }
}

/// The views of a sequence of borrowed strings.
pub open spec fn ref_views(v: Seq<&String>) -> Seq<Seq<char>> {
    v.map_values(|t: &String| t@)
}

/// The categories a viewer must have enabled to see a GIF with categories `gif_categories`:
/// those other than the generic one, or all of them where there are no others.
pub fn effective_nsfw_categories(gif_categories: &[String]) -> (eff: Vec<&String>)
    ensures
        ref_views(eff@) == effective_categories(views(gif_categories@)),
{
    let n = gif_categories.len();
    let ghost xs = views(gif_categories@);
    let mut specific: Vec<&String> = Vec::new();
    let mut i: usize = 0;
    while i < n
        invariant
            n == gif_categories@.len(),
            xs == views(gif_categories@),
            i <= n,
            ref_views(specific@) == specific_categories(xs.take(i as int)),
        decreases n - i,
    {
        let c = &gif_categories[i];
        proof {
            assert(xs.take(i + 1).drop_last() == xs.take(i as int));
            assert(xs.take(i + 1).last() == c@);
        }
        if !is_generic(c) {
            let ghost before = specific@;
            specific.push(c);
            proof {
                assert(ref_views(specific@) =~= ref_views(before).push(xs[i as int]));
            }
        }
        i = i + 1;
    }
    proof {
        assert(xs.take(n as int) == xs);
    }
    if specific.len() == 0 {
        let mut all: Vec<&String> = Vec::new();
        let mut k: usize = 0;
        while k < n
            invariant
                n == gif_categories@.len(),
                xs == views(gif_categories@),
                k <= n,
                ref_views(all@) == xs.take(k as int),
            decreases n - k,
        {
            let ghost before = all@;
            all.push(&gif_categories[k]);
            proof {
                assert(ref_views(all@) =~= ref_views(before).push(xs[k as int]));
                assert(xs.take(k + 1) == xs.take(k as int).push(xs[k as int]));
            }
            k = k + 1;
        }
        proof {
            assert(xs.take(n as int) == xs);
        }
        all
    } else {
        specific
    }
}

/// Whether a GIF with categories `gif_categories` stays hidden behind its placeholder for
/// a viewer who enabled `enabled_categories`.
pub fn is_locked(gif_categories: &[String], enabled_categories: &[String]) -> (b: bool)
    ensures
        b == locked(views(gif_categories@), views(enabled_categories@)),
{
    let effective = effective_nsfw_categories(gif_categories);
    let ghost e = effective_categories(views(gif_categories@));
    let n = effective.len();
    let mut i: usize = 0;
    while i < n
        invariant
            n == effective@.len(),
            ref_views(effective@) == e,
            e == effective_categories(views(gif_categories@)),
            i <= n,
            forall|k: int| 0 <= k < i ==> views(enabled_categories@).contains(#[trigger] e[k]),
        decreases n - i,
    {
        if !contains_string(enabled_categories, effective[i]) {
            proof {
                assert(e[i as int] == effective@[i as int]@);
            }
            return true;
        }
        proof {
            assert(e[i as int] == effective@[i as int]@);
        }
        i = i + 1;
    }
    false
}

/// `NSFW/` followed by the given (uppercased) categories joined by `/`.
pub fn category_label(uppercased_categories: &[String]) -> (label: String)
    ensures
        label@ == "NSFW/"@ + join(views(uppercased_categories@), "/"@),
{
    let joined = join_strings(uppercased_categories, "/");
    let mut label = owned_string("NSFW/");
    append_str(&mut label, joined.as_str());
    label
}

/// The label drawn on the placeholder of a locked GIF: `NSFW` where its only effective
/// category is the generic one, else `NSFW/` and its effective categories in upper case,
/// joined by `/`.
pub fn nsfw_placeholder_label(gif_categories: &[String]) -> (label: String)
    ensures
        label@ == placeholder_label(views(gif_categories@)),
{
    let effective = effective_nsfw_categories(gif_categories);
    let ghost e = effective_categories(views(gif_categories@));
    if effective.len() == 1 && is_generic(effective[0]) {
        proof {
            assert(e[0] == effective@[0]@);
        }
        return owned_string("NSFW");
    }
    proof {
        if e.len() == 1 {
            assert(e[0] == effective@[0]@);
        }
    }
    let n = effective.len();
    let mut ups: Vec<String> = Vec::new();
    let mut i: usize = 0;
    while i < n
        invariant
            n == effective@.len(),
            ref_views(effective@) == e,
            i <= n,
            views(ups@) == uppercased(e).take(i as int),
        decreases n - i,
    {
        let ghost before = ups@;
        ups.push(to_upper(effective[i].as_str()));
        proof {
            assert(e[i as int] == effective@[i as int]@);
            assert(views(ups@) =~= views(before).push(uppercased(e)[i as int]));
            assert(uppercased(e).take(i + 1) == uppercased(e).take(i as int).push(
                uppercased(e)[i as int],
            ));
        }
        i = i + 1;
    }
    proof {
        assert(uppercased(e).take(n as int) == uppercased(e));
    }
    category_label(ups.as_slice())
}

/// The words of a caption, each stripped of ASCII punctuation at both ends.
pub open spec fn stripped_words(caption: Seq<char>) -> Seq<Seq<char>> {
    words(caption).map_values(|w: Seq<char>| trim_by(w, CharClass::AsciiPunctuation))
}

/// The tags a caption contributes: its words, stripped of ASCII punctuation at both ends
/// and lowercased, the empty ones dropped.
pub open spec fn caption_tags_of(caption: Seq<char>) -> Seq<Seq<char>> {
    non_empty(lowered(stripped_words(caption)))
}

/// `tags` followed by each element of `ws` that is not already there when its turn comes.
pub open spec fn add_missing(tags: Seq<Seq<char>>, ws: Seq<Seq<char>>) -> Seq<Seq<char>>
    decreases ws.len(),
{
    if ws.len() == 0 {
        tags
    } else {
        let m = add_missing(tags, ws.drop_last());
        if m.contains(ws.last()) {
            m
        } else {
            m.push(ws.last())
        }
    }
}

/// The tag that marks a GIF as carrying a caption.
pub open spec fn caption_marker() -> Seq<char> {
    "caption"@
}

/// The tags of a GIF after its caption is merged in: the existing tags, then the caption's
/// words that are new, then the caption marker unless it is already there.
pub open spec fn merged_tags(existing: Seq<Seq<char>>, caption: Seq<char>) -> Seq<Seq<char>> {
    let m = add_missing(existing, caption_tags_of(caption));
    if m.contains(caption_marker()) {
        m
    } else {
        m.push(caption_marker())
    }
}

/// The words of a caption, each stripped of ASCII punctuation at both ends.
pub fn caption_words(caption: &str) -> (ws: Vec<String>)
    ensures
        views(ws@) == stripped_words(caption@),
{
    let chars = chars_of(caption);
    let split = split_words(chars.as_slice());
    let ghost xs = stripped_words(caption@);
    let n = split.len();
    let mut ws: Vec<String> = Vec::new();
    let mut i: usize = 0;
    while i < n
        invariant
            n == split@.len(),
            crate::text::pieces(split@) == words(caption@),
            xs == stripped_words(caption@),
            i <= n,
            views(ws@) == xs.take(i as int),
        decreases n - i,
    {
        let stripped = trim_chars(split[i].as_slice(), CharClass::AsciiPunctuation);
        let w = string_of(stripped.as_slice());
        proof {
            assert(crate::text::pieces(split@)[i as int] == split@[i as int]@);
        }
        let ghost before = ws@;
        ws.push(w);
        proof {
            assert(views(ws@) =~= views(before).push(xs[i as int]));
            assert(xs.take(i + 1) == xs.take(i as int).push(xs[i as int]));
        }
        i = i + 1;
    }
    proof {
        assert(xs.take(n as int) == xs);
    }
    ws
}

/// The words of a caption as tags: split at white space, ASCII punctuation stripped from
/// both ends of each word, lowercased, empty words dropped.
pub fn caption_word_tags(caption: &str) -> (tags: Vec<String>)
    ensures
        views(tags@) == caption_tags_of(caption@),
{
    let ws = caption_words(caption);
    let lower = lowercase_all(ws.as_slice());
    drop_empty(lower)
}

/// A copy of each string of `v`.
pub fn copy_strings(v: &[String]) -> (c: Vec<String>)
    ensures
        views(c@) == views(v@),
{
    let n = v.len();
    let mut c: Vec<String> = Vec::new();
    let mut i: usize = 0;
    while i < n
        invariant
            n == v@.len(),
            i <= n,
            views(c@) == views(v@).take(i as int),
        decreases n - i,
    {
        let ghost before = c@;
        c.push(v[i].clone());
        proof {
            assert(views(c@) =~= views(before).push(views(v@)[i as int]));
            assert(views(v@).take(i + 1) == views(v@).take(i as int).push(views(v@)[i as int]));
        }
        i = i + 1;
    }
    proof {
        assert(views(v@).take(n as int) == views(v@));
    }
    c
}

/// The tags of a GIF once the words of its caption are added: the manual tags first, in
/// their order, then each caption word not yet present, then `caption` unless present.
pub fn merge_caption_tags(existing_tags: &[String], caption: &str) -> (tags: Vec<String>)
    ensures
        views(tags@) == merged_tags(views(existing_tags@), caption@),
{
    let mut tags = copy_strings(existing_tags);
    let words = caption_word_tags(caption);
    let ghost ws = caption_tags_of(caption@);
    let n = words.len();
    let mut i: usize = 0;
    while i < n
        invariant
            n == words@.len(),
            views(words@) == ws,
            i <= n,
            views(tags@) == add_missing(views(existing_tags@), ws.take(i as int)),
        decreases n - i,
    {
        proof {
            assert(ws.take(i + 1).drop_last() == ws.take(i as int));
            assert(ws.take(i + 1).last() == words@[i as int]@);
        }
        if !contains_string(tags.as_slice(), &words[i]) {
            let ghost before = tags@;
            tags.push(words[i].clone());
            proof {
                assert(views(tags@) =~= views(before).push(ws[i as int]));
            }
        }
        i = i + 1;
    }
    proof {
        assert(ws.take(n as int) == ws);
    }
    let marker = owned_string("caption");
    if !contains_string(tags.as_slice(), &marker) {
        let ghost before = tags@;
        tags.push(marker);
        proof {
            assert(views(tags@) =~= views(before).push(caption_marker()));
        }
    }
    tags
}

// ---------------------------------------------------------------- laws

proof fn lemma_keep_categories_sound(xs: Seq<Seq<char>>)
    ensures
        forall|i: int|
            0 <= i < keep_categories(xs).len() ==> is_nsfw_category(
                #[trigger] keep_categories(xs)[i],
            ),
        forall|i: int|
            0 <= i < keep_categories(xs).len() ==> xs.contains(#[trigger] keep_categories(xs)[i]),
        keep_categories(xs).len() <= xs.len(),
    decreases xs.len(),
{
    if xs.len() > 0 {
        lemma_keep_categories_sound(xs.drop_last());
        let r = keep_categories(xs.drop_last());
        assert forall|i: int| 0 <= i < keep_categories(xs).len() implies xs.contains(
            #[trigger] keep_categories(xs)[i],
        ) by {
            if i < r.len() {
                let j = choose|j: int| 0 <= j < xs.drop_last().len() && xs.drop_last()[j] == r[i];
                assert(xs[j] == r[i]);
            } else {
                assert(xs[xs.len() - 1] == xs.last());
            }
        }
    }
}

/// Every category found among a GIF's tags is an NSFW category, and lowercases one of its
/// tags.
pub proof fn law_gif_categories_are_categories(tags: Seq<Seq<char>>)
    ensures
        forall|i: int|
            0 <= i < categories_of(tags).len() ==> is_nsfw_category(#[trigger] categories_of(tags)[i]),
        forall|i: int|
            0 <= i < categories_of(tags).len() ==> lowered(tags).contains(
                #[trigger] categories_of(tags)[i],
            ),
{
    lemma_keep_categories_sound(lowered(tags));
}

/// Every category a viewer can enable by the query parameter is an NSFW category.
pub proof fn law_enabled_categories_are_categories(param: Option<Seq<char>>)
    ensures
        forall|i: int|
            0 <= i < enabled_categories_of(param).len() ==> is_nsfw_category(
                #[trigger] enabled_categories_of(param)[i],
            ),
{
    match param {
        Some(s) => {
            if trim(s).len() != 0 {
                lemma_keep_categories_sound(lowered(trimmed(split_on(s, ','))));
            }
        },
        None => {},
    }
}

proof fn lemma_specific_sound(xs: Seq<Seq<char>>)
    ensures
        forall|i: int|
            0 <= i < specific_categories(xs).len() ==> xs.contains(
                #[trigger] specific_categories(xs)[i],
            ),
        forall|i: int|
            0 <= i < specific_categories(xs).len() ==> #[trigger] specific_categories(xs)[i]
                != generic_category(),
        specific_categories(xs).len() == 0 ==> forall|i: int|
            0 <= i < xs.len() ==> #[trigger] xs[i] == generic_category(),
        forall|i: int|
            0 <= i < xs.len() && #[trigger] xs[i] != generic_category()
                ==> specific_categories(xs).contains(xs[i]),
    decreases xs.len(),
{
    if xs.len() > 0 {
        let d = xs.drop_last();
        lemma_specific_sound(d);
        let r = specific_categories(d);
        assert forall|i: int| 0 <= i < specific_categories(xs).len() implies xs.contains(
            #[trigger] specific_categories(xs)[i],
        ) by {
            if i < r.len() {
                let j = choose|j: int| 0 <= j < d.len() && d[j] == r[i];
                assert(xs[j] == r[i]);
            } else {
                assert(xs[xs.len() - 1] == xs.last());
            }
        }
        assert forall|i: int| 0 <= i < xs.len() && #[trigger] xs[i] != generic_category()
            implies specific_categories(xs).contains(xs[i]) by {
            if i < d.len() {
                assert(d[i] == xs[i]);
                let j = choose|j: int| 0 <= j < r.len() && r[j] == xs[i];
                assert(specific_categories(xs)[j] == xs[i]);
            } else {
                assert(specific_categories(xs).last() == xs[i]);
            }
        }
        if specific_categories(xs).len() == 0 {
            assert forall|i: int| 0 <= i < xs.len() implies #[trigger] xs[i] == generic_category() by {
                if i < d.len() {
                    assert(d[i] == xs[i]);
                }
            }
        }
    }
}

/// A GIF with no NSFW categories is never locked.
pub proof fn law_no_categories_never_locked(enabled: Seq<Seq<char>>)
    ensures
        !locked(Seq::<Seq<char>>::empty(), enabled),
{
    assert(specific_categories(Seq::<Seq<char>>::empty()).len() == 0);
}

/// A viewer who enabled every category of a GIF sees it unlocked.
pub proof fn law_all_enabled_unlocks(cats: Seq<Seq<char>>, enabled: Seq<Seq<char>>)
    requires
        forall|i: int| 0 <= i < cats.len() ==> enabled.contains(#[trigger] cats[i]),
    ensures
        !locked(cats, enabled),
{
    lemma_specific_sound(cats);
    let e = effective_categories(cats);
    assert forall|i: int| 0 <= i < e.len() implies enabled.contains(#[trigger] e[i]) by {
        if specific_categories(cats).len() != 0 {
            let j = choose|j: int| 0 <= j < cats.len() && cats[j] == e[i];
            assert(enabled.contains(cats[j]));
        } else {
            assert(enabled.contains(cats[i]));
        }
    }
}

/// Enabling more categories never locks a GIF that was unlocked.
pub proof fn law_enabling_more_never_locks(
    cats: Seq<Seq<char>>,
    fewer: Seq<Seq<char>>,
    more: Seq<Seq<char>>,
)
    requires
        forall|i: int| 0 <= i < fewer.len() ==> more.contains(#[trigger] fewer[i]),
        !locked(cats, fewer),
    ensures
        !locked(cats, more),
{
    let e = effective_categories(cats);
    assert forall|i: int| 0 <= i < e.len() implies more.contains(#[trigger] e[i]) by {
        assert(fewer.contains(e[i]));
        let j = choose|j: int| 0 <= j < fewer.len() && fewer[j] == e[i];
        assert(more.contains(fewer[j]));
    }
}

/// Next to a specific category, the generic tag adds no requirement: such a GIF is locked
/// exactly when one of its specific categories is not enabled.
pub proof fn law_generic_adds_no_requirement(cats: Seq<Seq<char>>, enabled: Seq<Seq<char>>)
    requires
        exists|i: int| 0 <= i < cats.len() && #[trigger] cats[i] != generic_category(),
    ensures
        locked(cats, enabled) == (exists|i: int|
            0 <= i < cats.len() && #[trigger] cats[i] != generic_category() && !enabled.contains(
                cats[i],
            )),
{
    lemma_specific_sound(cats);
    let sp = specific_categories(cats);
    let k = choose|i: int| 0 <= i < cats.len() && #[trigger] cats[i] != generic_category();
    assert(sp.contains(cats[k]));
    assert(sp.len() != 0);
    if locked(cats, enabled) {
        let i = choose|i: int| 0 <= i < sp.len() && !enabled.contains(#[trigger] sp[i]);
        let j = choose|j: int| 0 <= j < cats.len() && cats[j] == sp[i];
        assert(cats[j] != generic_category() && !enabled.contains(cats[j]));
    }
    if exists|i: int|
        0 <= i < cats.len() && #[trigger] cats[i] != generic_category() && !enabled.contains(
            cats[i],
        ) {
        let i = choose|i: int|
            0 <= i < cats.len() && #[trigger] cats[i] != generic_category() && !enabled.contains(
                cats[i],
            );
        let j = choose|j: int| 0 <= j < sp.len() && sp[j] == cats[i];
        assert(!enabled.contains(sp[j]));
    }
}

/// A GIF whose only categories are the generic one is unlocked exactly when the generic
/// category is enabled.
pub proof fn law_generic_only_needs_generic(cats: Seq<Seq<char>>, enabled: Seq<Seq<char>>)
    requires
        cats.len() > 0,
        forall|i: int| 0 <= i < cats.len() ==> #[trigger] cats[i] == generic_category(),
    ensures
        locked(cats, enabled) == !enabled.contains(generic_category()),
{
    lemma_specific_sound(cats);
    let sp = specific_categories(cats);
    if sp.len() != 0 {
        assert(sp[0] != generic_category());
        let j = choose|j: int| 0 <= j < cats.len() && cats[j] == sp[0];
        assert(false);
    }
    assert(effective_categories(cats)[0] == generic_category());
}

/// Every element of `xs` that is an NSFW category is kept.
proof fn lemma_keep_categories_complete(xs: Seq<Seq<char>>, j: int)
    requires
        0 <= j < xs.len(),
        is_nsfw_category(xs[j]),
    ensures
        keep_categories(xs).contains(xs[j]),
    decreases xs.len(),
{
    let d = xs.drop_last();
    let r = keep_categories(d);
    if j == xs.len() - 1 {
        assert(keep_categories(xs) == r.push(xs.last()));
        assert(keep_categories(xs)[r.len() as int] == xs[j]);
    } else {
        assert(d[j] == xs[j]);
        lemma_keep_categories_complete(d, j);
        let k = choose|k: int| 0 <= k < r.len() && r[k] == xs[j];
        assert(keep_categories(xs)[k] == xs[j]);
    }
}

/// A GIF with tags `tags` has NSFW categories and is locked for a viewer who enabled
/// `enabled` exactly when one of its tags, lowercased, is a specific category (not the
/// generic one) that the viewer has not enabled, or when the generic category is the only
/// category its tags name and the viewer has not enabled it.
pub proof fn law_tags_locked(tags: Seq<Seq<char>>, enabled: Seq<Seq<char>>)
    ensures
        (categories_of(tags).len() > 0 && locked(categories_of(tags), enabled)) == ((exists|i: int|
            0 <= i < tags.len() && is_nsfw_category(#[trigger] lowercase(tags[i])) && lowercase(
                tags[i],
            ) != generic_category() && !enabled.contains(lowercase(tags[i])))
            || ((exists|i: int|
            0 <= i < tags.len() && #[trigger] lowercase(tags[i]) == generic_category()) && (forall|
            i: int,
        |
            0 <= i < tags.len() && is_nsfw_category(#[trigger] lowercase(tags[i])) ==> lowercase(
                tags[i],
            ) == generic_category()) && !enabled.contains(generic_category()))),
{
    let lt = lowered(tags);
    let cats = categories_of(tags);
    let g = generic_category();
    lemma_keep_categories_sound(lt);
    assert forall|i: int|
        0 <= i < tags.len() && is_nsfw_category(#[trigger] lowercase(tags[i])) implies cats.contains(
        lowercase(tags[i]),
    ) by {
        assert(lt[i] == lowercase(tags[i]));
        lemma_keep_categories_complete(lt, i);
    }
    let specific_unenabled = exists|i: int|
        0 <= i < tags.len() && is_nsfw_category(#[trigger] lowercase(tags[i])) && lowercase(tags[i])
            != g && !enabled.contains(lowercase(tags[i]));
    let some_generic = exists|i: int| 0 <= i < tags.len() && #[trigger] lowercase(tags[i]) == g;
    let only_generic = forall|i: int|
        0 <= i < tags.len() && is_nsfw_category(#[trigger] lowercase(tags[i])) ==> lowercase(tags[i])
            == g;
    if exists|k: int| 0 <= k < cats.len() && #[trigger] cats[k] != g {
        law_generic_adds_no_requirement(cats, enabled);
        let k = choose|k: int| 0 <= k < cats.len() && #[trigger] cats[k] != g;
        assert(lt.contains(cats[k]));
        let j = choose|j: int| 0 <= j < lt.len() && lt[j] == cats[k];
        assert(lowercase(tags[j]) == cats[k]);
        assert(is_nsfw_category(cats[k]));
        assert(!only_generic);
        if exists|k2: int| 0 <= k2 < cats.len() && #[trigger] cats[k2] != g && !enabled.contains(cats[k2]) {
            let k2 = choose|k2: int|
                0 <= k2 < cats.len() && #[trigger] cats[k2] != g && !enabled.contains(cats[k2]);
            assert(lt.contains(cats[k2]));
            let j2 = choose|j2: int| 0 <= j2 < lt.len() && lt[j2] == cats[k2];
            assert(lowercase(tags[j2]) == cats[k2]);
            assert(is_nsfw_category(cats[k2]));
            assert(specific_unenabled);
        }
        if specific_unenabled {
            let i = choose|i: int|
                0 <= i < tags.len() && is_nsfw_category(#[trigger] lowercase(tags[i])) && lowercase(
                    tags[i],
                ) != g && !enabled.contains(lowercase(tags[i]));
            assert(cats.contains(lowercase(tags[i])));
            let k3 = choose|k3: int| 0 <= k3 < cats.len() && cats[k3] == lowercase(tags[i]);
            assert(cats[k3] != g && !enabled.contains(cats[k3]));
        }
    } else if cats.len() > 0 {
        assert forall|k: int| 0 <= k < cats.len() implies #[trigger] cats[k] == g by {}
        law_generic_only_needs_generic(cats, enabled);
        if specific_unenabled {
            let i = choose|i: int|
                0 <= i < tags.len() && is_nsfw_category(#[trigger] lowercase(tags[i])) && lowercase(
                    tags[i],
                ) != g && !enabled.contains(lowercase(tags[i]));
            assert(cats.contains(lowercase(tags[i])));
            let k3 = choose|k3: int| 0 <= k3 < cats.len() && cats[k3] == lowercase(tags[i]);
            assert(cats[k3] == g);
            assert(false);
        }
        assert(lt.contains(cats[0]));
        let j = choose|j: int| 0 <= j < lt.len() && lt[j] == cats[0];
        assert(lowercase(tags[j]) == g);
        assert(some_generic);
        assert forall|i: int|
            0 <= i < tags.len() && is_nsfw_category(#[trigger] lowercase(tags[i])) implies lowercase(
            tags[i],
        ) == g by {
            assert(cats.contains(lowercase(tags[i])));
            let k3 = choose|k3: int| 0 <= k3 < cats.len() && cats[k3] == lowercase(tags[i]);
            assert(cats[k3] == g);
        }
        assert(only_generic);
    } else {
        if specific_unenabled {
            let i = choose|i: int|
                0 <= i < tags.len() && is_nsfw_category(#[trigger] lowercase(tags[i])) && lowercase(
                    tags[i],
                ) != g && !enabled.contains(lowercase(tags[i]));
            assert(cats.contains(lowercase(tags[i])));
            assert(false);
        }
        if some_generic {
            let i = choose|i: int| 0 <= i < tags.len() && #[trigger] lowercase(tags[i]) == g;
            assert(is_nsfw_category(lowercase(tags[i])));
            assert(cats.contains(lowercase(tags[i])));
            assert(false);
        }
    }
}

proof fn lemma_add_missing_prefix(tags: Seq<Seq<char>>, ws: Seq<Seq<char>>)
    ensures
        add_missing(tags, ws).len() >= tags.len(),
        add_missing(tags, ws).take(tags.len() as int) == tags,
        forall|i: int| 0 <= i < tags.len() ==> add_missing(tags, ws).contains(#[trigger] tags[i]),
        forall|i: int| 0 <= i < ws.len() ==> add_missing(tags, ws).contains(#[trigger] ws[i]),
        forall|x: Seq<char>|
            #[trigger] add_missing(tags, ws).contains(x) ==> tags.contains(x) || ws.contains(x),
    decreases ws.len(),
{
    if ws.len() > 0 {
        let d = ws.drop_last();
        lemma_add_missing_prefix(tags, d);
        let m = add_missing(tags, d);
        let r = add_missing(tags, ws);
        if !m.contains(ws.last()) {
            assert(r.take(tags.len() as int) == m.take(tags.len() as int));
            assert(r.last() == ws.last());
            assert forall|i: int| 0 <= i < tags.len() implies r.contains(#[trigger] tags[i]) by {
                let j = choose|j: int| 0 <= j < m.len() && m[j] == tags[i];
                assert(r[j] == tags[i]);
            }
        }
        assert forall|i: int| 0 <= i < ws.len() implies r.contains(#[trigger] ws[i]) by {
            if i < d.len() {
                assert(d[i] == ws[i]);
                let j = choose|j: int| 0 <= j < m.len() && m[j] == ws[i];
                assert(r[j] == ws[i]);
            } else {
                if !m.contains(ws.last()) {
                    assert(r[r.len() - 1] == ws[i]);
                }
            }
        }
        assert forall|x: Seq<char>| #[trigger] r.contains(x) implies tags.contains(x) || ws.contains(
            x,
        ) by {
            if m.contains(x) {
                if d.contains(x) {
                    let j = choose|j: int| 0 <= j < d.len() && d[j] == x;
                    assert(ws[j] == x);
                }
            } else {
                assert(x == ws.last());
                assert(ws[ws.len() - 1] == x);
            }
        }
    }
}

proof fn lemma_add_missing_present(tags: Seq<Seq<char>>, ws: Seq<Seq<char>>)
    requires
        forall|i: int| 0 <= i < ws.len() ==> tags.contains(#[trigger] ws[i]),
    ensures
        add_missing(tags, ws) == tags,
    decreases ws.len(),
{
    if ws.len() > 0 {
        let d = ws.drop_last();
        assert forall|i: int| 0 <= i < d.len() implies tags.contains(#[trigger] d[i]) by {
            assert(d[i] == ws[i]);
        }
        lemma_add_missing_present(tags, d);
        assert(tags.contains(ws[ws.len() - 1]));
    }
}

/// Merging a caption keeps the manual tags first and in order, and the result holds every
/// word of the caption and the caption marker.
pub proof fn law_merge_keeps_manual_tags(existing: Seq<Seq<char>>, caption: Seq<char>)
    ensures
        merged_tags(existing, caption).len() >= existing.len(),
        merged_tags(existing, caption).take(existing.len() as int) == existing,
        merged_tags(existing, caption).contains(caption_marker()),
        forall|i: int|
            0 <= i < caption_tags_of(caption).len() ==> merged_tags(existing, caption).contains(
                #[trigger] caption_tags_of(caption)[i],
            ),
{
    let ws = caption_tags_of(caption);
    lemma_add_missing_prefix(existing, ws);
    let m = add_missing(existing, ws);
    let r = merged_tags(existing, caption);
    if !m.contains(caption_marker()) {
        assert(r.take(existing.len() as int) == m.take(existing.len() as int));
        assert(r[r.len() - 1] == caption_marker());
        assert forall|i: int| 0 <= i < ws.len() implies r.contains(#[trigger] ws[i]) by {
            let j = choose|j: int| 0 <= j < m.len() && m[j] == ws[i];
            assert(r[j] == ws[i]);
        }
    }
}

/// Merging the same caption twice gives what merging it once gave.
pub proof fn law_merge_idempotent(existing: Seq<Seq<char>>, caption: Seq<char>)
    ensures
        merged_tags(merged_tags(existing, caption), caption) == merged_tags(existing, caption),
{
    let once = merged_tags(existing, caption);
    law_merge_keeps_manual_tags(existing, caption);
    let ws = caption_tags_of(caption);
    lemma_add_missing_present(once, ws);
}

/// No tag appears twice in `xs`.
pub open spec fn no_duplicates(xs: Seq<Seq<char>>) -> bool {
    forall|i: int, j: int| 0 <= i < j < xs.len() ==> xs[i] != xs[j]
}

proof fn lemma_add_missing_distinct(tags: Seq<Seq<char>>, ws: Seq<Seq<char>>)
    requires
        no_duplicates(tags),
    ensures
        no_duplicates(add_missing(tags, ws)),
    decreases ws.len(),
{
    if ws.len() > 0 {
        let d = ws.drop_last();
        lemma_add_missing_distinct(tags, d);
        let m = add_missing(tags, d);
        if !m.contains(ws.last()) {
            let r = m.push(ws.last());
            assert forall|i: int, j: int| 0 <= i < j < r.len() implies r[i] != r[j] by {
                if j == r.len() - 1 {
                    assert(m[i] == r[i]);
                }
            }
        }
    }
}

/// Merging a caption into tags without repeats yields tags without repeats.
pub proof fn law_merge_adds_no_duplicates(existing: Seq<Seq<char>>, caption: Seq<char>)
    requires
        no_duplicates(existing),
    ensures
        no_duplicates(merged_tags(existing, caption)),
{
    let ws = caption_tags_of(caption);
    lemma_add_missing_distinct(existing, ws);
    let m = add_missing(existing, ws);
    if !m.contains(caption_marker()) {
        let r = m.push(caption_marker());
        assert forall|i: int, j: int| 0 <= i < j < r.len() implies r[i] != r[j] by {
            if j == r.len() - 1 {
                assert(m[i] == r[i]);
            }
        }
    }
}

} // verus!
