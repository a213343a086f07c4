//! The HTML page of a single GIF: how a request for it is answered (page, redirect or not
//! found), the escaped tag text, and filling the page template.
use vstd::prelude::*;
use crate::text::{
    append_str, chars_of, owned_string, join, join_strings, lowercase, lowercase_all, lowered,
    push_char, to_lower, views,
};
use crate::tags::{categories_of, gif_nsfw_categories};
use crate::search::{contains_chars, is_infix};

verus! {

/// `base`, a slash, then `key`: where a stored GIF is served from.
pub open spec fn object_url_of(base: Seq<char>, key: Seq<char>) -> Seq<char> {
    base + "/"@ + key
}

/// The public URL of the stored GIF with key `key`, under the bucket URL `base`.
pub fn object_url(base: &str, key: &str) -> (url: String)
    ensures
        url@ == object_url_of(base@, key@),
{
    let mut url = owned_string(base);
    append_str(&mut url, "/");
    append_str(&mut url, key);
    url
}

// ---------------------------------------------------------------- replacing text

/// `s` with every occurrence of the non-empty `pat`, taken from left to right without
/// overlap, replaced by `rep`, as `str::replace` does.
pub open spec fn replace_all(s: Seq<char>, pat: Seq<char>, rep: Seq<char>) -> Seq<char>
    decreases s.len(),
{
    if pat.len() == 0 || s.len() == 0 {
        s
    } else if pat.len() <= s.len() && s.take(pat.len() as int) == pat {
        rep + replace_all(s.skip(pat.len() as int), pat, rep)
    } else {
        seq![s[0]] + replace_all(s.skip(1), pat, rep)
    }
}

/// Whether `pat` occurs in `s` at position `k`.
fn matches_at(s: &[char], pat: &[char], k: usize) -> (b: bool)
    requires
        k <= s@.len(),
    ensures
        b == (pat@.len() <= s@.len() - k && s@.skip(k as int).take(pat@.len() as int) == pat@),
{
    let sl = s.len();
    let n = pat.len();
    if n > sl - k {
        return false;
    }
    let mut i: usize = 0;
    while i < n
        invariant
            sl == s@.len(),
            n == pat@.len(),
            k + n <= sl,
            i <= n,
            forall|m: int| 0 <= m < i ==> s@[k + m] == pat@[m],
        decreases n - i,
    {
        assert(k + i < sl);
        if s[k + i] != pat[i] {
            proof {
                assert(s@.skip(k as int).take(n as int)[i as int] != pat@[i as int]);
            }
            return false;
        }
        i = i + 1;
    }
    proof {
        assert(s@.skip(k as int).take(n as int) =~= pat@);
    }
    true
}

/// `s` with every occurrence of `pat` replaced by `rep`.
pub fn replace_text(s: &str, pat: &str, rep: &str) -> (r: String)
    requires
        pat@.len() > 0,
    ensures
        r@ == replace_all(s@, pat@, rep@),
{
    let cs = chars_of(s);
    let ps = chars_of(pat);
    let n = cs.len();
    let mut out = String::new();
    let mut i: usize = 0;
    proof {
        assert(cs@.skip(0) == cs@);
    }
    while i < n
        invariant
            cs@ == s@,
            ps@ == pat@,
            pat@.len() > 0,
            n == s@.len(),
            i <= n,
            out@ + replace_all(s@.skip(i as int), pat@, rep@) == replace_all(s@, pat@, rep@),
        decreases n - i,
    {
        let rest = Ghost(s@.skip(i as int));
        if matches_at(cs.as_slice(), ps.as_slice(), i) {
            proof {
                assert(rest@.skip(pat@.len() as int) == s@.skip(i + pat@.len()));
                assert(out@ + rep@ + replace_all(s@.skip(i + pat@.len()), pat@, rep@) == out@ + (
                rep@ + replace_all(rest@.skip(pat@.len() as int), pat@, rep@)));
            }
            append_str(&mut out, rep);
            i = i + ps.len();
        } else {
            proof {
                assert(rest@.skip(1) == s@.skip(i + 1));
                assert(rest@[0] == s@[i as int]);
                assert(out@.push(s@[i as int]) + replace_all(s@.skip(i + 1), pat@, rep@) == out@ + (
                seq![rest@[0]] + replace_all(rest@.skip(1), pat@, rep@)));
            }
            push_char(&mut out, cs[i]);
            i = i + 1;
        }
    }
    proof {
        assert(s@.skip(n as int).len() == 0);
        assert(out@ + Seq::<char>::empty() == out@);
    }
    out
}

// ---------------------------------------------------------------- escaping

/// The HTML escape of one character.
pub open spec fn escape_char(c: char) -> Seq<char> {
    if c == '&' {
        "&amp;"@
    } else if c == '<' {
        "&lt;"@
    } else if c == '>' {
        "&gt;"@
    } else if c == '"' {
        "&quot;"@
    } else if c == '\'' {
        "&#39;"@
    } else {
        seq![c]
    }
}

/// `s` with `&`, `<`, `>`, `"` and `'` written as HTML character references.
pub open spec fn escape_html(s: Seq<char>) -> Seq<char>
    decreases s.len(),
{
    if s.len() == 0 {
        s
    } else {
        escape_html(s.drop_last()) + escape_char(s.last())
    }
}

/// `s` escaped for HTML text and attribute values.
pub fn escape_html_text(s: &str) -> (e: String)
    ensures
        e@ == escape_html(s@),
{
    let cs = chars_of(s);
    let n = cs.len();
    let mut e = String::new();
    let mut i: usize = 0;
    while i < n
        invariant
            cs@ == s@,
            n == s@.len(),
            i <= n,
            e@ == escape_html(s@.take(i as int)),
        decreases n - i,
    {
        let c = cs[i];
        proof {
            assert(s@.take(i + 1).drop_last() == s@.take(i as int));
            assert(s@.take(i + 1).last() == c);
        }
        if c == '&' {
            append_str(&mut e, "&amp;");
        } else if c == '<' {
            append_str(&mut e, "&lt;");
        } else if c == '>' {
            append_str(&mut e, "&gt;");
        } else if c == '"' {
            append_str(&mut e, "&quot;");
        } else if c == '\'' {
            append_str(&mut e, "&#39;");
        } else {
            push_char(&mut e, c);
        }
        i = i + 1;
    }
    proof {
        assert(s@.take(n as int) == s@);
    }
    e
}

/// Each string of `xs` escaped for HTML.
pub open spec fn escaped_all(xs: Seq<Seq<char>>) -> Seq<Seq<char>> {
    xs.map_values(|t: Seq<char>| escape_html(t))
}

/// The tags of a GIF page: its tags escaped, joined by `, `, or `GIF` where it has none.
pub open spec fn tags_text_of(tags: Seq<Seq<char>>) -> Seq<char> {
    if tags.len() == 0 {
        "GIF"@
    } else {
        join(escaped_all(tags), ", "@)
    }
}

/// A tag badge around each of `xs`.
pub open spec fn spans(xs: Seq<Seq<char>>) -> Seq<char>
    decreases xs.len(),
{
    if xs.len() == 0 {
        Seq::<char>::empty()
    } else {
        spans(xs.drop_last()) + "<span class=\"tag\">"@ + xs.last() + "</span>"@
    }
}

/// The tag badges of a GIF page: a span per tag, escaped and lowercased; one `untagged`
/// span where it has none.
pub open spec fn tags_html_of(tags: Seq<Seq<char>>) -> Seq<char> {
    if tags.len() == 0 {
        "<span class=\"tag\">untagged</span>"@
    } else {
        spans(lowered(escaped_all(tags)))
    }
}

/// The style that dims an NSFW GIF on its page.
pub open spec fn filter_style_of(tags: Seq<Seq<char>>) -> Seq<char> {
    if categories_of(tags).len() > 0 {
        "filter: brightness(0.85);"@
    } else {
        ""@
    }
}

/// The text the page template's placeholders are filled with.
pub struct PageParts {
    pub tags_text: String,
    pub tags_html: String,
    pub filter_style: String,
}

/// A tag badge around each of `xs`.
pub fn tag_spans(xs: &[String]) -> (html: String)
    ensures
        html@ == spans(views(xs@)),
{
    let ghost vs = views(xs@);
    let n = xs.len();
    let mut html = String::new();
    let mut i: usize = 0;
    while i < n
        invariant
            n == xs@.len(),
            vs == views(xs@),
            i <= n,
            html@ == spans(vs.take(i as int)),
        decreases n - i,
    {
        proof {
            assert(vs.take(i + 1).drop_last() == vs.take(i as int));
            assert(vs.take(i + 1).last() == xs@[i as int]@);
        }
        append_str(&mut html, "<span class=\"tag\">");
        append_str(&mut html, xs[i].as_str());
        append_str(&mut html, "</span>");
        i = i + 1;
    }
    proof {
        assert(vs.take(n as int) == vs);
    }
    html
}

/// The tag text, tag badges and image style of the page of a GIF with tags `tags`.
pub fn page_parts(tags: &[String]) -> (p: PageParts)
    ensures
        p.tags_text@ == tags_text_of(views(tags@)),
        p.tags_html@ == tags_html_of(views(tags@)),
        p.filter_style@ == filter_style_of(views(tags@)),
{
    let n = tags.len();
    let mut escaped: Vec<String> = Vec::new();
    let mut i: usize = 0;
    while i < n
        invariant
            n == tags@.len(),
            i <= n,
            views(escaped@) == escaped_all(views(tags@)).take(i as int),
        decreases n - i,
    {
        let ghost before = escaped@;
        escaped.push(escape_html_text(tags[i].as_str()));
        proof {
            let es = escaped_all(views(tags@));
            assert(views(escaped@) =~= views(before).push(es[i as int]));
            assert(es.take(i + 1) == es.take(i as int).push(es[i as int]));
        }
        i = i + 1;
    }
    proof {
        assert(escaped_all(views(tags@)).take(n as int) == escaped_all(views(tags@)));
    }
    let tags_text = if n == 0 {
        owned_string("GIF")
    } else {
        join_strings(escaped.as_slice(), ", ")
    };
    let tags_html = if n == 0 {
        owned_string("<span class=\"tag\">untagged</span>")
    } else {
        let lower = lowercase_all(escaped.as_slice());
        tag_spans(lower.as_slice())
    };
    let cats = gif_nsfw_categories(tags);
    let filter_style = if cats.len() > 0 {
        owned_string("filter: brightness(0.85);")
    } else {
        owned_string("")
    };
    PageParts { tags_text, tags_html, filter_style }
}

/// The page template with its placeholders filled, in the order `{tags_text}`, `{slug}`,
/// `{raw_url}`, `{filter_style}`, `{tags_html}`.
pub open spec fn rendered_page(
    template: Seq<char>,
    parts_text: Seq<char>,
    slug: Seq<char>,
    raw_url: Seq<char>,
    style: Seq<char>,
    parts_html: Seq<char>,
) -> Seq<char> {
    let a = replace_all(template, "{tags_text}"@, parts_text);
    let b = replace_all(a, "{slug}"@, slug);
    let c = replace_all(b, "{raw_url}"@, raw_url);
    let d = replace_all(c, "{filter_style}"@, style);
    replace_all(d, "{tags_html}"@, parts_html)
}

/// The page of a GIF: the template with its placeholders filled.
pub fn render_page(template: &str, parts: &PageParts, slug: &str, raw_url: &str) -> (html: String)
    ensures
        html@ == rendered_page(
            template@,
            parts.tags_text@,
            slug@,
            raw_url@,
            parts.filter_style@,
            parts.tags_html@,
        ),
{
    proof {
        reveal_strlit("{tags_text}");
        reveal_strlit("{slug}");
        reveal_strlit("{raw_url}");
        reveal_strlit("{filter_style}");
        reveal_strlit("{tags_html}");
    }
    let a = replace_text(template, "{tags_text}", parts.tags_text.as_str());
    let b = replace_text(a.as_str(), "{slug}", slug);
    let c = replace_text(b.as_str(), "{raw_url}", raw_url);
    let d = replace_text(c.as_str(), "{filter_style}", parts.filter_style.as_str());
    replace_text(d.as_str(), "{tags_html}", parts.tags_html.as_str())
}

/// The about page with the contact address filled in.
pub fn render_about(template: &str, email: &str) -> (html: String)
    ensures
        html@ == replace_all(template@, "{{CONTACT_EMAIL}}"@, email@),
{
    proof {
        reveal_strlit("{{CONTACT_EMAIL}}");
    }
    replace_text(template, "{{CONTACT_EMAIL}}", email)
}

// ---------------------------------------------------------------- answering a page request

/// How a request for a GIF page is answered.
pub enum PageResponse {
    /// The not-found page.
    NotFound,
    /// A redirect, permanent or temporary, to `location`.
    Redirect { permanent: bool, location: String },
    /// The GIF's page.
    Render,
}

/// The path of the page of the GIF with slug `slug`.
pub open spec fn page_path_of(slug: Seq<char>) -> Seq<char> {
    "/gif/"@ + slug
}

/// The answer to a page request, as the contracts speak of it.
pub enum PageAnswer {
    NotFound,
    Redirect { permanent: bool, location: Seq<char> },
    Render,
}

/// How a request for a GIF page is answered once its GIF is found, given its `Accept` and
/// `User-Agent` headers lowercased. A hidden GIF is not found except by an administrator. A
/// request for the media file is sent to the page where a browser asks for HTML (unless it
/// is Discord's crawler), else to the file itself. A page requested under another name than
/// its slug is redirected to its slug.
pub open spec fn page_answer_lowered(
    has_ext: bool,
    hidden: bool,
    is_admin: bool,
    accept_lower: Seq<char>,
    user_agent_lower: Seq<char>,
    target: Seq<char>,
    slug: Seq<char>,
    raw_url: Seq<char>,
) -> PageAnswer {
    if hidden && !is_admin {
        PageAnswer::NotFound
    } else if has_ext {
        if is_infix("html"@, accept_lower) && !is_infix("discord"@, user_agent_lower) {
            PageAnswer::Redirect { permanent: true, location: page_path_of(slug) }
        } else {
            PageAnswer::Redirect { permanent: false, location: raw_url }
        }
    } else if target != slug {
        PageAnswer::Redirect { permanent: true, location: page_path_of(slug) }
    } else {
        PageAnswer::Render
    }
}

/// How a request for a GIF page is answered once its GIF is found.
pub open spec fn page_answer(
    has_ext: bool,
    hidden: bool,
    is_admin: bool,
    accept: Seq<char>,
    user_agent: Seq<char>,
    target: Seq<char>,
    slug: Seq<char>,
    raw_url: Seq<char>,
) -> PageAnswer {
    page_answer_lowered(
        has_ext,
        hidden,
        is_admin,
        lowercase(accept),
        lowercase(user_agent),
        target,
        slug,
        raw_url,
    )
}

/// What an answer says, in the terms of the contracts.
pub open spec fn answer_of(r: PageResponse) -> PageAnswer {
    match r {
        PageResponse::NotFound => PageAnswer::NotFound,
        PageResponse::Redirect { permanent, location } => PageAnswer::Redirect {
            permanent,
            location: location@,
        },
        PageResponse::Render => PageAnswer::Render,
    }
}

/// How a request for a GIF page is answered once its GIF is found, given its `Accept` and
/// `User-Agent` headers lowercased.
pub fn page_response_lowered(
    has_ext: bool,
    hidden: bool,
    is_admin: bool,
    accept_lower: &str,
    user_agent_lower: &str,
    target: &String,
    slug: &String,
    raw_url: &str,
) -> (r: PageResponse)
    ensures
        answer_of(r) == page_answer_lowered(
            has_ext,
            hidden,
            is_admin,
            accept_lower@,
            user_agent_lower@,
            target@,
            slug@,
            raw_url@,
        ),
{
    if hidden && !is_admin {
        return PageResponse::NotFound;
    }
    if has_ext {
        let ua_chars = chars_of(user_agent_lower);
        let acc_chars = chars_of(accept_lower);
        let html = chars_of("html");
        let discord = chars_of("discord");
        let is_discord = contains_chars(ua_chars.as_slice(), discord.as_slice());
        if contains_chars(acc_chars.as_slice(), html.as_slice()) && !is_discord {
            let mut location = owned_string("/gif/");
            append_str(&mut location, slug.as_str());
            return PageResponse::Redirect { permanent: true, location };
        }
        return PageResponse::Redirect { permanent: false, location: owned_string(raw_url) };
    }
    if *target != *slug {
        let mut location = owned_string("/gif/");
        append_str(&mut location, slug.as_str());
        return PageResponse::Redirect { permanent: true, location };
    }
    PageResponse::Render
}

/// How a request for a GIF page is answered once its GIF is found.
pub fn page_response(
    has_ext: bool,
    hidden: bool,
    is_admin: bool,
    accept: &str,
    user_agent: &str,
    target: &String,
    slug: &String,
    raw_url: &str,
) -> (r: PageResponse)
    ensures
        answer_of(r) == page_answer(
            has_ext,
            hidden,
            is_admin,
            accept@,
            user_agent@,
            target@,
            slug@,
            raw_url@,
        ),
{
    let accept_lower = to_lower(accept);
    let user_agent_lower = to_lower(user_agent);
    page_response_lowered(
        has_ext,
        hidden,
        is_admin,
        accept_lower.as_str(),
        user_agent_lower.as_str(),
        target,
        slug,
        raw_url,
    )
}

// ---------------------------------------------------------------- laws

/// Escaped text holds none of the characters that open markup or end an attribute value.
pub proof fn law_escaped_text_has_no_markup(s: Seq<char>)
    ensures
        !escape_html(s).contains('<'),
        !escape_html(s).contains('>'),
        !escape_html(s).contains('"'),
        !escape_html(s).contains('\''),
    decreases s.len(),
{
    reveal_strlit("&amp;");
    reveal_strlit("&lt;");
    reveal_strlit("&gt;");
    reveal_strlit("&quot;");
    reveal_strlit("&#39;");
    if s.len() > 0 {
        law_escaped_text_has_no_markup(s.drop_last());
        let prev = escape_html(s.drop_last());
        let tail = escape_char(s.last());
        assert(!tail.contains('<') && !tail.contains('>') && !tail.contains('"') && !tail.contains(
            '\'',
        ));
        let e = escape_html(s);
        assert(e == prev + tail);
        assert forall|c: char| #[trigger] e.contains(c) implies prev.contains(c) || tail.contains(c) by {
            let i = choose|i: int| 0 <= i < e.len() && e[i] == c;
            if i < prev.len() {
                assert(prev[i] == c);
            } else {
                assert(tail[i - prev.len()] == c);
            }
        }
    }
}

proof fn lemma_replace_char_concat(a: Seq<char>, b: Seq<char>, c: char, r: Seq<char>)
    ensures
        replace_all(a + b, seq![c], r) == replace_all(a, seq![c], r) + replace_all(b, seq![c], r),
    decreases a.len(),
{
    let p = seq![c];
    if a.len() == 0 {
        assert(a + b == b);
    } else {
        lemma_replace_char_concat(a.skip(1), b, c, r);
        assert((a + b).skip(1) == a.skip(1) + b);
        assert((a + b).take(1) == a.take(1));
        assert((a + b)[0] == a[0]);
        if a.take(1) == p {
            assert(a.skip(1) == a.skip(p.len() as int));
        } else {
            assert(seq![a[0]] == seq![(a + b)[0]]);
        }
    }
}

proof fn lemma_replace_char_absent(s: Seq<char>, c: char, r: Seq<char>)
    requires
        !s.contains(c),
    ensures
        replace_all(s, seq![c], r) == s,
    decreases s.len(),
{
    if s.len() > 0 {
        assert(s[0] != c);
        assert(s.take(1) != seq![c]) by {
            assert(s.take(1)[0] == s[0]);
        }
        assert forall|i: int| 0 <= i < s.skip(1).len() implies s.skip(1)[i] != c by {
            assert(s.skip(1)[i] == s[i + 1]);
        }
        lemma_replace_char_absent(s.skip(1), c, r);
        assert(seq![s[0]] + s.skip(1) == s);
    }
}

proof fn lemma_replace_one_char(x: char, c: char, r: Seq<char>)
    ensures
        replace_all(seq![x], seq![c], r) == if x == c {
            r
        } else {
            seq![x]
        },
{
    let s = seq![x];
    assert(s.take(1) == s);
    assert(s.skip(1) == Seq::<char>::empty());
    assert(replace_all(Seq::<char>::empty(), seq![c], r) == Seq::<char>::empty());
    assert(seq![c].len() == 1);
    if x == c {
        assert(s.take(seq![c].len() as int) == seq![c]);
        assert(replace_all(s, seq![c], r) == r + replace_all(s.skip(1), seq![c], r));
    } else {
        assert(s.take(seq![c].len() as int) != seq![c]) by {
            assert(s.take(1)[0] != seq![c][0]);
        }
        assert(replace_all(s, seq![c], r) == seq![s[0]] + replace_all(s.skip(1), seq![c], r));
    }
    if x != c {
        assert(s != seq![c]) by {
            assert(s[0] != seq![c][0]);
        }
        assert(seq![s[0]] == s);
    }
    assert(r + Seq::<char>::empty() == r);
}

/// The five replacements, `&` first, in the order a template engine applies them.
pub open spec fn escape_by_replacing(s: Seq<char>) -> Seq<char> {
    let a = replace_all(s, "&"@, "&amp;"@);
    let b = replace_all(a, "<"@, "&lt;"@);
    let c = replace_all(b, ">"@, "&gt;"@);
    let d = replace_all(c, "\""@, "&quot;"@);
    replace_all(d, "'"@, "&#39;"@)
}

proof fn lemma_escape_one(x: char)
    ensures
        escape_by_replacing(seq![x]) == escape_char(x),
{
    reveal_strlit("&");
    reveal_strlit("<");
    reveal_strlit(">");
    reveal_strlit("\"");
    reveal_strlit("'");
    reveal_strlit("&amp;");
    reveal_strlit("&lt;");
    reveal_strlit("&gt;");
    reveal_strlit("&quot;");
    reveal_strlit("&#39;");
    assert("&"@ == seq!['&']);
    assert("<"@ == seq!['<']);
    assert(">"@ == seq!['>']);
    assert("\""@ == seq!['"']);
    assert("'"@ == seq!['\'']);
    lemma_replace_one_char(x, '&', "&amp;"@);
    let a = replace_all(seq![x], "&"@, "&amp;"@);
    if x == '&' {
        lemma_replace_char_absent(a, '<', "&lt;"@);
        lemma_replace_char_absent(a, '>', "&gt;"@);
        lemma_replace_char_absent(a, '"', "&quot;"@);
        lemma_replace_char_absent(a, '\'', "&#39;"@);
    } else {
        lemma_replace_one_char(x, '<', "&lt;"@);
        let b = replace_all(a, "<"@, "&lt;"@);
        if x == '<' {
            lemma_replace_char_absent(b, '>', "&gt;"@);
            lemma_replace_char_absent(b, '"', "&quot;"@);
            lemma_replace_char_absent(b, '\'', "&#39;"@);
        } else {
            lemma_replace_one_char(x, '>', "&gt;"@);
            let c = replace_all(b, ">"@, "&gt;"@);
            if x == '>' {
                lemma_replace_char_absent(c, '"', "&quot;"@);
                lemma_replace_char_absent(c, '\'', "&#39;"@);
            } else {
                lemma_replace_one_char(x, '"', "&quot;"@);
                let d = replace_all(c, "\""@, "&quot;"@);
                if x == '"' {
                    lemma_replace_char_absent(d, '\'', "&#39;"@);
                } else {
                    lemma_replace_one_char(x, '\'', "&#39;"@);
                }
            }
        }
    }
}

/// Escaping a character at a time gives what replacing `&`, `<`, `>`, `"` and `'` in turn,
/// `&` first, gives.
pub proof fn law_escape_is_replacing_in_turn(s: Seq<char>)
    ensures
        escape_html(s) == escape_by_replacing(s),
    decreases s.len(),
{
    reveal_strlit("&");
    reveal_strlit("<");
    reveal_strlit(">");
    reveal_strlit("\"");
    reveal_strlit("'");
    assert("&"@ == seq!['&']);
    assert("<"@ == seq!['<']);
    assert(">"@ == seq!['>']);
    assert("\""@ == seq!['"']);
    assert("'"@ == seq!['\'']);
    if s.len() == 0 {
        assert(replace_all(s, "&"@, "&amp;"@) == s);
    } else {
        let d = s.drop_last();
        let x = s.last();
        law_escape_is_replacing_in_turn(d);
        lemma_escape_one(x);
        assert(s == d + seq![x]);
        lemma_replace_char_concat(d, seq![x], '&', "&amp;"@);
        let a1 = replace_all(d, "&"@, "&amp;"@);
        let a2 = replace_all(seq![x], "&"@, "&amp;"@);
        lemma_replace_char_concat(a1, a2, '<', "&lt;"@);
        let b1 = replace_all(a1, "<"@, "&lt;"@);
        let b2 = replace_all(a2, "<"@, "&lt;"@);
        lemma_replace_char_concat(b1, b2, '>', "&gt;"@);
        let c1 = replace_all(b1, ">"@, "&gt;"@);
        let c2 = replace_all(b2, ">"@, "&gt;"@);
        lemma_replace_char_concat(c1, c2, '"', "&quot;"@);
        let d1 = replace_all(c1, "\""@, "&quot;"@);
        let d2 = replace_all(c2, "\""@, "&quot;"@);
        lemma_replace_char_concat(d1, d2, '\'', "&#39;"@);
    }
}


/// How a found GIF's page request is answered, for every request: a hidden GIF is not found
/// except by an administrator; otherwise a request for the media file is sent to the file
/// itself, temporarily, unless its `Accept` header mentions `html` and its `User-Agent` is not
/// Discord's, in which case it is sent for good to the GIF's page; a page requested under a
/// name other than its slug is sent for good to its slug's page; and the page is rendered
/// only when requested under its own slug.
pub proof fn law_page_answers(
    has_ext: bool,
    hidden: bool,
    is_admin: bool,
    accept_lower: Seq<char>,
    user_agent_lower: Seq<char>,
    target: Seq<char>,
    slug: Seq<char>,
    raw_url: Seq<char>,
)
    ensures
        ({
            let a = page_answer_lowered(
                has_ext,
                hidden,
                is_admin,
                accept_lower,
                user_agent_lower,
                target,
                slug,
                raw_url,
            );
            &&& (a == PageAnswer::NotFound) == (hidden && !is_admin)
            &&& !(hidden && !is_admin) && has_ext && !is_infix("html"@, accept_lower) ==> a
                == (PageAnswer::Redirect { permanent: false, location: raw_url })
            &&& !(hidden && !is_admin) && has_ext && is_infix("discord"@, user_agent_lower) ==> a
                == (PageAnswer::Redirect { permanent: false, location: raw_url })
            &&& !(hidden && !is_admin) && has_ext && is_infix("html"@, accept_lower) && !is_infix(
                "discord"@,
                user_agent_lower,
            ) ==> a == (PageAnswer::Redirect { permanent: true, location: "/gif/"@ + slug })
            &&& !(hidden && !is_admin) && !has_ext && target != slug ==> a
                == (PageAnswer::Redirect { permanent: true, location: "/gif/"@ + slug })
            &&& (a == PageAnswer::Render) == (!(hidden && !is_admin) && !has_ext && target == slug)
        }),
{
}

/// The answer depends on the `Accept` and `User-Agent` headers only through their lowercased
/// forms: headers that differ in case alone are answered alike.
pub proof fn law_page_answer_ignores_header_case(
    has_ext: bool,
    hidden: bool,
    is_admin: bool,
    accept: Seq<char>,
    accept2: Seq<char>,
    user_agent: Seq<char>,
    user_agent2: Seq<char>,
    target: Seq<char>,
    slug: Seq<char>,
    raw_url: Seq<char>,
)
    requires
        lowercase(accept) == lowercase(accept2),
        lowercase(user_agent) == lowercase(user_agent2),
    ensures
        page_answer(has_ext, hidden, is_admin, accept, user_agent, target, slug, raw_url)
            == page_answer(has_ext, hidden, is_admin, accept2, user_agent2, target, slug, raw_url),
{
}

} // verus!
