//! Tag search: edit distance between strings, and which GIFs a search query keeps.
use vstd::prelude::*;
use crate::text::{
    CharClass, chars_of, lowercase, lowercase_all, lowered, split_words, to_lower, trim, trim_chars,
    views, words,
};

verus! {

pub open spec fn min3(x: nat, y: nat, z: nat) -> nat {
    if x <= y && x <= z {
        x
    } else if y <= z {
        y
    } else {
        z
    }
}

/// The Levenshtein distance between two character sequences: the least number of
/// single-character insertions, deletions and substitutions that turn one into the other.
pub open spec fn lev(a: Seq<char>, b: Seq<char>) -> nat
    decreases a.len() + b.len(),
{
    if a.len() == 0 {
        b.len()
    } else if b.len() == 0 {
        a.len()
    } else {
        let sub: nat = if a.last() == b.last() {
            0
        } else {
            1
        };
        min3(
            lev(a.drop_last(), b.drop_last()) + sub,
            lev(a.drop_last(), b) + 1,
            lev(a, b.drop_last()) + 1,
        )
    }
}

/// The number of bytes of the UTF-8 encoding of `s`, which `str::len` returns.
pub open spec fn byte_len(s: Seq<char>) -> nat {
    vstd::utf8::encode_utf8(s).len()
}

/// What `levenshtein` computes: the edit distance of two non-empty strings; where one of them
/// is empty, the length in bytes of the other.
pub open spec fn levenshtein_of(a: Seq<char>, b: Seq<char>) -> nat {
    if a.len() == 0 {
        byte_len(b)
    } else if b.len() == 0 {
        byte_len(a)
    } else {
        lev(a, b)
    }
}

proof fn lemma_lev_bounded(a: Seq<char>, b: Seq<char>)
    ensures
        lev(a, b) <= if a.len() >= b.len() {
            a.len()
        } else {
            b.len()
        },
    decreases a.len() + b.len(),
{
    if a.len() > 0 && b.len() > 0 {
        lemma_lev_bounded(a.drop_last(), b.drop_last());
        lemma_lev_bounded(a.drop_last(), b);
        lemma_lev_bounded(a, b.drop_last());
    }
}

/// Dropping the last character of one side changes the distance by at most one.
proof fn lemma_lev_step(a: Seq<char>, b: Seq<char>)
    ensures
        a.len() > 0 ==> lev(a.drop_last(), b) <= lev(a, b) + 1,
        b.len() > 0 ==> lev(a, b.drop_last()) <= lev(a, b) + 1,
    decreases a.len() + b.len(),
{
    if a.len() > 0 && b.len() > 0 {
        lemma_lev_step(a.drop_last(), b);
        lemma_lev_step(a, b.drop_last());
        lemma_lev_step(a.drop_last(), b.drop_last());
        let da = a.drop_last();
        let db = b.drop_last();
        if da.len() > 0 {
            assert(lev(da, b) <= lev(da, db) + 1);
        }
        if db.len() > 0 {
            assert(lev(a, db) <= lev(da, db) + 1);
        }
    }
}

/// Where the last characters agree, the distance is that of the two shorter prefixes.
proof fn lemma_lev_same_last(a: Seq<char>, b: Seq<char>)
    requires
        a.len() > 0,
        b.len() > 0,
        a.last() == b.last(),
    ensures
        lev(a, b) == lev(a.drop_last(), b.drop_last()),
{
    lemma_lev_step(a, b.drop_last());
    lemma_lev_step(a.drop_last(), b);
}

/// The distance between `a` and `b` (counted in bytes where one of them is empty).
pub fn levenshtein(a: &str, b: &str) -> (d: usize)
    ensures
        a@.len() == 0 ==> d == byte_len(b@) as usize,
        b@.len() == 0 && a@.len() != 0 ==> d == byte_len(a@) as usize,
        a@.len() != 0 && b@.len() != 0 ==> d == lev(a@, b@),
        levenshtein_of(a@, b@) <= usize::MAX ==> d == levenshtein_of(a@, b@),
{
    if a.is_empty() {
        return b.len();
    }
    if b.is_empty() {
        return a.len();
    }
    let a_chars = chars_of(a);
    let b_chars = chars_of(b);
    let n = a_chars.len();
    let m = b_chars.len();
    // Row `i` holds the distances between the prefixes of `a` and the first `i` characters of `b`.
    let mut prev: Vec<usize> = Vec::new();
    prev.push(0);
    let mut j: usize = 0;
    while j < n
        invariant
            n == a@.len(),
            a_chars@ == a@,
            j <= n,
            prev@.len() == j + 1,
            forall|k: int| 0 <= k <= j ==> prev@[k] == k,
        decreases n - j,
    {
        prev.push(j + 1);
        j = j + 1;
    }
    proof {
        assert forall|k: int| 0 <= k <= n implies #[trigger] prev@[k] == lev(a@.take(k), b@.take(0)) by {
            assert(b@.take(0).len() == 0);
        }
    }
    let mut i: usize = 0;
    while i < m
        invariant
            n == a@.len(),
            m == b@.len(),
            a_chars@ == a@,
            b_chars@ == b@,
            i <= m,
            prev@.len() == n + 1,
            forall|k: int| 0 <= k <= n ==> #[trigger] prev@[k] == lev(a@.take(k), b@.take(i as int)),
        decreases m - i,
    {
        let bc = b_chars[i];
        let ghost bi = b@.take(i as int);
        let ghost bi1 = b@.take(i + 1);
        proof {
            assert(bi1.drop_last() == bi);
            assert(bi1.last() == bc);
            assert(a@.take(0).len() == 0);
        }
        let mut cur: Vec<usize> = Vec::new();
        cur.push(i + 1);
        let mut j: usize = 0;
        while j < n
            invariant
                n == a@.len(),
                m == b@.len(),
                a_chars@ == a@,
                i < m,
                bi == b@.take(i as int),
                bi1 == b@.take(i + 1),
                bi1.drop_last() == bi,
                bi1.last() == bc,
                j <= n,
                prev@.len() == n + 1,
                cur@.len() == j + 1,
                forall|k: int| 0 <= k <= n ==> #[trigger] prev@[k] == lev(a@.take(k), bi),
                forall|k: int| 0 <= k <= j ==> #[trigger] cur@[k] == lev(a@.take(k), bi1),
            decreases n - j,
        {
            let ac = a_chars[j];
            let ghost aj = a@.take(j as int);
            let ghost aj1 = a@.take(j + 1);
            proof {
                assert(aj1.drop_last() == aj);
                assert(aj1.last() == ac);
                lemma_lev_bounded(aj, bi);
                lemma_lev_bounded(aj1, bi);
                lemma_lev_bounded(aj, bi1);
            }
            let v: usize;
            if bc == ac {
                v = prev[j];
                proof {
                    lemma_lev_same_last(aj1, bi1);
                }
            } else {
                // The least of the three neighbours, plus one for the edit.
                let mut best = prev[j];
                if cur[j] < best {
                    best = cur[j];
                }
                if prev[j + 1] < best {
                    best = prev[j + 1];
                }
                v = best + 1;
            }
            cur.push(v);
            j = j + 1;
        }
        prev = cur;
        i = i + 1;
    }
    proof {
        assert(a@.take(n as int) == a@);
        assert(b@.take(m as int) == b@);
    }
    prev[n]
}

// ---------------------------------------------------------------- matching a query

/// `p` is a prefix of `s`.
pub open spec fn is_prefix(p: Seq<char>, s: Seq<char>) -> bool {
    p.len() <= s.len() && s.take(p.len() as int) == p
}

/// `p` occurs in `s` at some position.
pub open spec fn is_infix(p: Seq<char>, s: Seq<char>) -> bool {
    exists|k: int| 0 <= k && k + p.len() <= s.len() && #[trigger] s.subrange(k, k + p.len()) == p
}

pub open spec fn abs_diff(x: nat, y: nat) -> nat {
    if x >= y {
        (x - y) as nat
    } else {
        (y - x) as nat
    }
}

/// Whether a lowercased tag `t` matches a search term: equal to it, starting with it,
/// holding it (for terms of three bytes or more), or within one edit of it (terms of four
/// bytes or more and lengths at most one apart) or two edits (terms of seven bytes or more
/// and lengths two apart).
pub open spec fn lowered_tag_matches(t: Seq<char>, term: Seq<char>) -> bool {
    let bytes = byte_len(term) as usize;
    let diff = abs_diff(t.len(), term.len());
    if t == term || is_prefix(term, t) {
        true
    } else if bytes >= 3 && is_infix(term, t) {
        true
    } else if bytes >= 4 && diff <= 1 {
        levenshtein_of(t, term) <= 1
    } else if bytes >= 7 && diff <= 2 {
        levenshtein_of(t, term) <= 2
    } else {
        false
    }
}

/// Whether tag `t` matches search term `term`.
pub open spec fn tag_matches(t: Seq<char>, term: Seq<char>) -> bool {
    lowered_tag_matches(lowercase(t), term)
}

/// Whether a GIF with tags `tags` is kept by a search for `terms`: it has tags, and each
/// term matches one of them.
pub open spec fn gif_kept(tags: Seq<Seq<char>>, terms: Seq<Seq<char>>) -> bool {
    &&& tags.len() > 0
    &&& forall|k: int| 0 <= k < terms.len() ==> term_found(tags, #[trigger] terms[k])
}

/// Whether one of `tags` matches `term`.
pub open spec fn term_found(tags: Seq<Seq<char>>, term: Seq<char>) -> bool {
    exists|i: int| 0 <= i < tags.len() && tag_matches(tags[i], term)
}

/// The terms of a search query, or `None` where there is no query or it is blank and so
/// filters nothing.
pub open spec fn search_terms_of(q: Option<Seq<char>>) -> Option<Seq<Seq<char>>> {
    match q {
        Some(s) => if trim(s).len() == 0 {
            None
        } else {
            Some(lowered(words(s)))
        },
        None => None,
    }
}

/// Whether `p` is a prefix of `s`.
pub fn starts_with(s: &[char], p: &[char]) -> (b: bool)
    ensures
        b == is_prefix(p@, s@),
{
    if p.len() > s.len() {
        return false;
    }
    let n = p.len();
    let mut i: usize = 0;
    while i < n
        invariant
            n == p@.len(),
            n <= s@.len(),
            i <= n,
            forall|k: int| 0 <= k < i ==> s@[k] == p@[k],
        decreases n - i,
    {
        if s[i] != p[i] {
            proof {
                assert(s@.take(n as int)[i as int] != p@[i as int]);
            }
            return false;
        }
        i = i + 1;
    }
    proof {
        assert(s@.take(n as int) =~= p@);
    }
    true
}

/// Whether `p` occurs in `s` starting at `k`.
fn occurs_at(s: &[char], p: &[char], k: usize) -> (b: bool)
    requires
        k + p@.len() <= s@.len(),
    ensures
        b == (s@.subrange(k as int, k + p@.len()) == p@),
{
    let n = p.len();
    let sl = s.len();
    let mut i: usize = 0;
    while i < n
        invariant
            n == p@.len(),
            sl == s@.len(),
            k + n <= s@.len(),
            i <= n,
            forall|m: int| 0 <= m < i ==> s@[k + m] == p@[m],
        decreases n - i,
    {
        assert(k + i < sl);
        if s[k + i] != p[i] {
            proof {
                assert(s@.subrange(k as int, k + n)[i as int] != p@[i as int]);
            }
            return false;
        }
        i = i + 1;
    }
    proof {
        assert(s@.subrange(k as int, k + n) =~= p@);
    }
    true
}

/// Whether `p` occurs in `s`.
pub fn contains_chars(s: &[char], p: &[char]) -> (b: bool)
    ensures
        b == is_infix(p@, s@),
{
    if p.len() > s.len() {
        return false;
    }
    let last = s.len() - p.len();
    let mut k: usize = 0;
    loop
        invariant
            last == s@.len() - p@.len(),
            p@.len() <= s@.len(),
            k <= last,
            forall|m: int| 0 <= m < k ==> #[trigger] s@.subrange(m, m + p@.len()) != p@,
        decreases last - k,
    {
        if occurs_at(s, p, k) {
            return true;
        }
        if k == last {
            proof {
                assert forall|m: int| 0 <= m && m + p@.len() <= s@.len() implies #[trigger] s@.subrange(
                    m,
                    m + p@.len(),
                ) != p@ by {
                    if m < k {
                    }
                }
            }
            return false;
        }
        k = k + 1;
    }
}

/// Whether a lowercased tag `t_lower` matches the search term `term`.
pub fn lowered_tag_matches_term(t_lower: &str, term: &str) -> (b: bool)
    ensures
        b == lowered_tag_matches(t_lower@, term@),
{
    let t = chars_of(t_lower);
    let w = chars_of(term);
    let term_bytes = term.len();
    if crate::text::owned_string(t_lower) == crate::text::owned_string(term) || starts_with(t.as_slice(), w.as_slice()) {
        return true;
    }
    if term_bytes >= 3 && contains_chars(t.as_slice(), w.as_slice()) {
        return true;
    }
    let t_len = t.len();
    let term_len = w.len();
    let diff = if t_len >= term_len {
        t_len - term_len
    } else {
        term_len - t_len
    };
    if term_bytes >= 4 && diff <= 1 {
        let d = levenshtein(t_lower, term);
        proof {
            lemma_levenshtein_small(t_lower@, term@);
        }
        return d <= 1;
    } else if term_bytes >= 7 && diff <= 2 {
        let d = levenshtein(t_lower, term);
        proof {
            lemma_levenshtein_small(t_lower@, term@);
        }
        return d <= 2;
    }
    false
}

/// Whether tag `tag` matches the (lowercased) search term `term`.
pub fn tag_matches_term(tag: &str, term: &str) -> (b: bool)
    ensures
        b == tag_matches(tag@, term@),
{
    let t_lower = to_lower(tag);
    lowered_tag_matches_term(t_lower.as_str(), term)
}

proof fn lemma_levenshtein_small(a: Seq<char>, b: Seq<char>)
    requires
        b.len() > 0,
        a.len() <= usize::MAX,
        b.len() <= usize::MAX,
    ensures
        a.len() > 0 ==> levenshtein_of(a, b) <= usize::MAX,
{
    if a.len() > 0 {
        lemma_lev_bounded(a, b);
    }
}

/// Whether one of `tags` matches `term`.
fn any_tag_matches(tags: &[String], term: &String) -> (b: bool)
    ensures
        b == term_found(views(tags@), term@),
{
    let n = tags.len();
    let mut i: usize = 0;
    while i < n
        invariant
            n == tags@.len(),
            i <= n,
            forall|m: int| 0 <= m < i ==> !tag_matches(#[trigger] views(tags@)[m], term@),
        decreases n - i,
    {
        if tag_matches_term(tags[i].as_str(), term.as_str()) {
            proof {
                assert(tag_matches(views(tags@)[i as int], term@));
            }
            return true;
        }
        i = i + 1;
    }
    proof {
        assert(views(tags@).len() == n);
    }
    false
}

/// Whether a GIF with tags `tags` is kept by a search for `terms`.
pub fn gif_matches_terms(tags: &[String], terms: &[String]) -> (b: bool)
    ensures
        b == gif_kept(views(tags@), views(terms@)),
{
    if tags.len() == 0 {
        return false;
    }
    let nt = terms.len();
    let mut k: usize = 0;
    while k < nt
        invariant
            nt == terms@.len(),
            tags@.len() > 0,
            k <= nt,
            forall|q: int| 0 <= q < k ==> term_found(views(tags@), #[trigger] views(terms@)[q]),
        decreases nt - k,
    {
        if !any_tag_matches(tags, &terms[k]) {
            proof {
                assert(views(terms@)[k as int] == terms@[k as int]@);
            }
            return false;
        }
        proof {
            assert(views(terms@)[k as int] == terms@[k as int]@);
        }
        k = k + 1;
    }
    proof {
        assert(views(tags@).len() == tags@.len());
        assert(views(terms@).len() == terms@.len());
    }
    true
}

/// The terms of a search query, lowercased, or `None` where the query is absent or blank.
pub fn search_terms(q: Option<&str>) -> (terms: Option<Vec<String>>)
    ensures
        match terms {
            Some(t) => search_terms_of(
                match q {
                    Some(s) => Some(s@),
                    None => None,
                },
            ) == Some(views(t@)),
            None => search_terms_of(
                match q {
                    Some(s) => Some(s@),
                    None => None,
                },
            ) is None,
        },
{
    match q {
        None => None,
        Some(s) => {
            let chars = chars_of(s);
            let trimmed = trim_chars(chars.as_slice(), CharClass::WhiteSpace);
            if trimmed.len() == 0 {
                return None;
            }
            let ws = split_words(chars.as_slice());
            let n = ws.len();
            let mut word_strings: Vec<String> = Vec::new();
            let mut i: usize = 0;
            while i < n
                invariant
                    n == ws@.len(),
                    crate::text::pieces(ws@) == words(s@),
                    i <= n,
                    views(word_strings@) == words(s@).take(i as int),
                decreases n - i,
            {
                let w = crate::text::string_of(ws[i].as_slice());
                proof {
                    assert(crate::text::pieces(ws@)[i as int] == ws@[i as int]@);
                }
                let ghost before = word_strings@;
                word_strings.push(w);
                proof {
                    assert(views(word_strings@) =~= views(before).push(words(s@)[i as int]));
                    assert(words(s@).take(i + 1) == words(s@).take(i as int).push(words(s@)[i as int]));
                }
                i = i + 1;
            }
            proof {
                assert(words(s@).take(n as int) == words(s@));
            }
            let terms = lowercase_all(word_strings.as_slice());
            Some(terms)
        },
    }
}

// ---------------------------------------------------------------- laws

proof fn lemma_lev_symmetric(a: Seq<char>, b: Seq<char>)
    ensures
        lev(a, b) == lev(b, a),
    decreases a.len() + b.len(),
{
    if a.len() > 0 && b.len() > 0 {
        lemma_lev_symmetric(a.drop_last(), b.drop_last());
        lemma_lev_symmetric(a.drop_last(), b);
        lemma_lev_symmetric(a, b.drop_last());
    }
}

/// The distance does not depend on the order of its arguments.
pub proof fn law_levenshtein_symmetric(a: Seq<char>, b: Seq<char>)
    ensures
        levenshtein_of(a, b) == levenshtein_of(b, a),
{
    lemma_lev_symmetric(a, b);
}

proof fn lemma_lev_zero_iff_equal(a: Seq<char>, b: Seq<char>)
    ensures
        (lev(a, b) == 0) == (a == b),
    decreases a.len() + b.len(),
{
    if a.len() > 0 && b.len() > 0 {
        lemma_lev_zero_iff_equal(a.drop_last(), b.drop_last());
        if a == b {
            assert(a.drop_last() == b.drop_last());
        }
        if lev(a, b) == 0 {
            assert(a.last() == b.last());
            assert(a.drop_last() == b.drop_last());
            assert(a == a.drop_last().push(a.last()));
            assert(b == b.drop_last().push(b.last()));
        }
    } else if a.len() == 0 && b.len() == 0 {
        assert(a == b);
    }
}

/// A string is at distance zero from itself and only from itself.
pub proof fn law_levenshtein_zero_iff_equal(a: Seq<char>, b: Seq<char>)
    ensures
        (levenshtein_of(a, b) == 0) == (a == b),
{
    lemma_lev_zero_iff_equal(a, b);
    if a.len() == 0 {
        if b.len() > 0 {
            assert(byte_len(b) > 0) by {
                vstd::utf8::encode_utf8_first_scalar(b);
            }
        } else {
            assert(a == b);
        }
    } else if b.len() == 0 {
        assert(byte_len(a) > 0) by {
            vstd::utf8::encode_utf8_first_scalar(a);
        }
    }
}

/// Two non-empty strings are no further apart than the longer of them is long.
pub proof fn law_levenshtein_at_most_longer(a: Seq<char>, b: Seq<char>)
    requires
        a.len() > 0,
        b.len() > 0,
    ensures
        levenshtein_of(a, b) <= if a.len() >= b.len() {
            a.len()
        } else {
            b.len()
        },
{
    lemma_lev_bounded(a, b);
}

/// A search for one of a GIF's tags, lowercased, finds that GIF.
pub proof fn law_tag_finds_its_gif(tags: Seq<Seq<char>>, i: int)
    requires
        0 <= i < tags.len(),
    ensures
        gif_kept(tags, seq![lowercase(tags[i])]),
{
    assert(tag_matches(tags[i], lowercase(tags[i])));
    assert(term_found(tags, lowercase(tags[i])));
}


/// How a tag meets a search term, for every tag `t` and term `w`, with `l` the tag lowercased:
/// a tag equal to the term or starting with it matches; a tag holding a term of three bytes
/// or more matches; a tag within one edit of a term of four bytes or more, their lengths at
/// most one apart, matches, and so does one within two edits of a term of seven bytes or
/// more, their lengths two apart. A term of fewer than three bytes matches only a tag equal
/// to it or starting with it, and a tag whose length is more than two away from the term's
/// matches only by equality, prefix or containment.
pub proof fn law_tag_matching(t: Seq<char>, w: Seq<char>)
    ensures
        lowercase(t) == w ==> tag_matches(t, w),
        is_prefix(w, lowercase(t)) ==> tag_matches(t, w),
        byte_len(w) <= usize::MAX && byte_len(w) >= 3 && is_infix(w, lowercase(t)) ==> tag_matches(
            t,
            w,
        ),
        byte_len(w) <= usize::MAX && byte_len(w) >= 4 && lowercase(t).len() > 0 && w.len() > 0
            && abs_diff(lowercase(t).len(), w.len()) <= 1 && lev(lowercase(t), w) <= 1
            ==> tag_matches(t, w),
        byte_len(w) <= usize::MAX && byte_len(w) >= 7 && lowercase(t).len() > 0 && w.len() > 0
            && abs_diff(lowercase(t).len(), w.len()) == 2 && lev(lowercase(t), w) <= 2
            ==> tag_matches(t, w),
        byte_len(w) < 3 ==> (tag_matches(t, w) <==> (lowercase(t) == w || is_prefix(
            w,
            lowercase(t),
        ))),
        byte_len(w) <= usize::MAX && abs_diff(lowercase(t).len(), w.len()) > 2 ==> (tag_matches(
            t,
            w,
        ) <==> (lowercase(t) == w || is_prefix(w, lowercase(t)) || (byte_len(w) >= 3 && is_infix(
            w,
            lowercase(t),
        )))),
{
}

} // verus!
