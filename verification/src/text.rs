//! Character classes and the string operations that the tag and search logic is built from.
//!
//! Strings are modelled by their `Seq<char>` views. Splitting, trimming and truncating are
//! done here over `Vec<char>` and proved against the spec functions below; case mapping is
//! Unicode's and goes through `str::to_lowercase` / `str::to_uppercase`.
use vstd::prelude::*;

verus! {

/// The Unicode `White_Space` property (PropList.txt), the class that `char::is_whitespace`,
/// `str::trim` and `str::split_whitespace` use.
pub open spec fn is_white_space(c: char) -> bool {
    let u = c as u32;
    ||| 0x09 <= u <= 0x0D
    ||| u == 0x20
    ||| u == 0x85
    ||| u == 0xA0
    ||| u == 0x1680
    ||| 0x2000 <= u <= 0x200A
    ||| u == 0x2028
    ||| u == 0x2029
    ||| u == 0x202F
    ||| u == 0x205F
    ||| u == 0x3000
}

/// ASCII punctuation: `!"#$%&'()*+,-./:;<=>?@[\]^_`{|}~`.
pub open spec fn is_ascii_punctuation(c: char) -> bool {
    let u = c as u32;
    ||| 0x21 <= u <= 0x2F
    ||| 0x3A <= u <= 0x40
    ||| 0x5B <= u <= 0x60
    ||| 0x7B <= u <= 0x7E
}

/// ASCII letters and digits.
pub open spec fn is_ascii_alphanumeric(c: char) -> bool {
    let u = c as u32;
    ||| 0x30 <= u <= 0x39
    ||| 0x41 <= u <= 0x5A
    ||| 0x61 <= u <= 0x7A
}

pub fn white_space(c: char) -> (b: bool)
    ensures
        b == is_white_space(c),
{
    let u: u32 = c as u32;
    (0x09 <= u && u <= 0x0D) || u == 0x20 || u == 0x85 || u == 0xA0 || u == 0x1680 || (0x2000
        <= u && u <= 0x200A) || u == 0x2028 || u == 0x2029 || u == 0x202F || u == 0x205F || u
        == 0x3000
}

pub fn ascii_punctuation(c: char) -> (b: bool)
    ensures
        b == is_ascii_punctuation(c),
{
    let u: u32 = c as u32;
    (0x21 <= u && u <= 0x2F) || (0x3A <= u && u <= 0x40) || (0x5B <= u && u <= 0x60) || (0x7B
        <= u && u <= 0x7E)
}

pub fn ascii_alphanumeric(c: char) -> (b: bool)
    ensures
        b == is_ascii_alphanumeric(c),
{
    let u: u32 = c as u32;
    (0x30 <= u && u <= 0x39) || (0x41 <= u && u <= 0x5A) || (0x61 <= u && u <= 0x7A)
}

/// Unicode lowercase mapping of a whole string, as `str::to_lowercase` computes it.
pub uninterp spec fn lowercase(s: Seq<char>) -> Seq<char>;

/// Unicode uppercase mapping of a whole string, as `str::to_uppercase` computes it.
pub uninterp spec fn uppercase(s: Seq<char>) -> Seq<char>;

/// Calls `str::to_lowercase`. The result depends on the argument alone; Unicode's case
/// tables are not restated here, so the contract names the result `lowercase(s@)`.
#[verifier::external_body]
pub(crate) fn to_lower(s: &str) -> (r: String)
    ensures
        r@ == lowercase(s@),
{
    s.to_lowercase()
}

/// Calls `str::to_uppercase`; its result is named `uppercase(s@)` as for `to_lower`.
#[verifier::external_body]
pub(crate) fn to_upper(s: &str) -> (r: String)
    ensures
        r@ == uppercase(s@),
{
    s.to_uppercase()
}

/// Calls `String::push`, which appends one `char`.
#[verifier::external_body]
pub(crate) fn push_char(s: &mut String, c: char)
    ensures
        final(s)@ == old(s)@.push(c),
{
    s.push(c)
}

/// The characters of a string.
pub fn chars_of(s: &str) -> (v: Vec<char>)
    ensures
        v@ == s@,
{
    let mut v: Vec<char> = Vec::new();
    for c in it: s.chars()
        invariant
            it.seq() == s@,
            v@ == s@.take(it.index() as int),
    {
        v.push(c);
        proof {
            assert(s@.take(it.index() + 1) == s@.take(it.index() as int).push(c));
        }
    }
    proof {
        assert(s@.take(s@.len() as int) == s@);
    }
    v
}

/// The string made of the given characters.
pub fn string_of(v: &[char]) -> (s: String)
    ensures
        s@ == v@,
{
    let mut s = String::new();
    let n = v.len();
    let mut i: usize = 0;
    while i < n
        invariant
            n == v@.len(),
            i <= n,
            s@ == v@.take(i as int),
        decreases n - i,
    {
        push_char(&mut s, v[i]);
        proof {
            assert(v@.take(i + 1) == v@.take(i as int).push(v@[i as int]));
        }
        i = i + 1;
    }
    proof {
        assert(v@.take(n as int) == v@);
    }
    s
}

/// An owned copy of `s`.
pub fn owned_string(s: &str) -> (o: String)
    ensures
        o@ == s@,
{
    <String as vstd::string::StringExecFns>::from_str(s)
}

/// The views of a sequence of strings.
pub open spec fn views(v: Seq<String>) -> Seq<Seq<char>> {
    v.map_values(|t: String| t@)
}

// ---------------------------------------------------------------- trimming

/// A class of characters that can be trimmed from the ends of a string.
#[derive(Clone, Copy, PartialEq, Eq, Debug)]
pub enum CharClass {
    WhiteSpace,
    AsciiPunctuation,
}

pub open spec fn in_class(k: CharClass, c: char) -> bool {
    match k {
        CharClass::WhiteSpace => is_white_space(c),
        CharClass::AsciiPunctuation => is_ascii_punctuation(c),
    }
}

pub fn class_contains(k: CharClass, c: char) -> (b: bool)
    ensures
        b == in_class(k, c),
{
    match k {
        CharClass::WhiteSpace => white_space(c),
        CharClass::AsciiPunctuation => ascii_punctuation(c),
    }
}

/// `s` without its leading characters of class `k`.
pub open spec fn trim_start_by(s: Seq<char>, k: CharClass) -> Seq<char>
    decreases s.len(),
{
    if s.len() > 0 && in_class(k, s[0]) {
        trim_start_by(s.drop_first(), k)
    } else {
        s
    }
}

/// `s` without its trailing characters of class `k`.
pub open spec fn trim_end_by(s: Seq<char>, k: CharClass) -> Seq<char>
    decreases s.len(),
{
    if s.len() > 0 && in_class(k, s.last()) {
        trim_end_by(s.drop_last(), k)
    } else {
        s
    }
}

/// `s` without leading and trailing characters of class `k`
/// (`str::trim_matches` with that class as the pattern).
pub open spec fn trim_by(s: Seq<char>, k: CharClass) -> Seq<char> {
    trim_end_by(trim_start_by(s, k), k)
}

/// `s` without leading and trailing white space, as `str::trim` gives it.
pub open spec fn trim(s: Seq<char>) -> Seq<char> {
    trim_by(s, CharClass::WhiteSpace)
}

proof fn lemma_trim_start_at(s: Seq<char>, k: CharClass, i: int)
    requires
        0 <= i <= s.len(),
        forall|m: int| 0 <= m < i ==> in_class(k, #[trigger] s[m]),
        i < s.len() ==> !in_class(k, s[i]),
    ensures
        trim_start_by(s, k) == s.skip(i),
    decreases i,
{
    if i == 0 {
        assert(s.skip(0) == s);
    } else {
        assert forall|m: int| 0 <= m < i - 1 implies in_class(k, #[trigger] s.drop_first()[m]) by {
            assert(s.drop_first()[m] == s[m + 1]);
        }
        lemma_trim_start_at(s.drop_first(), k, i - 1);
        assert(s.drop_first().skip(i - 1) == s.skip(i));
    }
}

proof fn lemma_trim_end_at(s: Seq<char>, k: CharClass, j: int)
    requires
        0 <= j <= s.len(),
        forall|m: int| j <= m < s.len() ==> in_class(k, #[trigger] s[m]),
        j > 0 ==> !in_class(k, s[j - 1]),
    ensures
        trim_end_by(s, k) == s.take(j),
    decreases s.len() - j,
{
    if j == s.len() {
        assert(s.take(j) == s);
    } else {
        assert forall|m: int| j <= m < s.drop_last().len() implies in_class(
            k,
            #[trigger] s.drop_last()[m],
        ) by {
            assert(s.drop_last()[m] == s[m]);
        }
        lemma_trim_end_at(s.drop_last(), k, j);
        assert(s.drop_last().take(j) == s.take(j));
    }
}

/// `s` with leading and trailing characters of class `k` removed.
pub fn trim_chars(s: &[char], k: CharClass) -> (t: Vec<char>)
    ensures
        t@ == trim_by(s@, k),
{
    let n = s.len();
    let mut i: usize = 0;
    while i < n && class_contains(k, s[i])
        invariant
            n == s@.len(),
            i <= n,
            forall|m: int| 0 <= m < i ==> in_class(k, #[trigger] s@[m]),
        decreases n - i,
    {
        i = i + 1;
    }
    proof {
        lemma_trim_start_at(s@, k, i as int);
    }
    let ghost mid = s@.skip(i as int);
    let mut j: usize = n;
    while j > i && class_contains(k, s[j - 1])
        invariant
            n == s@.len(),
            i <= j <= n,
            mid == s@.skip(i as int),
            forall|m: int| j <= m < n ==> in_class(k, #[trigger] s@[m]),
        decreases j,
    {
        j = j - 1;
    }
    proof {
        assert forall|m: int| (j - i) <= m < mid.len() implies in_class(k, #[trigger] mid[m]) by {
            assert(mid[m] == s@[m + i]);
        }
        if j > i {
            assert(mid[j - i - 1] == s@[j - 1]);
        }
        lemma_trim_end_at(mid, k, j - i);
        assert(mid.take(j - i) == s@.subrange(i as int, j as int));
    }
    let mut t: Vec<char> = Vec::new();
    let mut m: usize = i;
    while m < j
        invariant
            n == s@.len(),
            i <= m <= j <= n,
            t@ == s@.subrange(i as int, m as int),
        decreases j - m,
    {
        t.push(s[m]);
        proof {
            assert(s@.subrange(i as int, m + 1) == s@.subrange(i as int, m as int).push(s@[m as int]));
        }
        m = m + 1;
    }
    t
}

// ---------------------------------------------------------------- splitting

/// The pieces of `s` between occurrences of `sep`, as `str::split(sep)` yields them:
/// always at least one piece, empty pieces kept.
pub open spec fn split_on(s: Seq<char>, sep: char) -> Seq<Seq<char>>
    decreases s.len(),
{
    if s.len() == 0 {
        seq![Seq::<char>::empty()]
    } else {
        let parts = split_on(s.drop_last(), sep);
        if s.last() == sep {
            parts.push(Seq::<char>::empty())
        } else {
            parts.update(parts.len() - 1, parts.last().push(s.last()))
        }
    }
}

pub proof fn lemma_split_on_len(s: Seq<char>, sep: char)
    ensures
        split_on(s, sep).len() >= 1,
    decreases s.len(),
{
    if s.len() > 0 {
        lemma_split_on_len(s.drop_last(), sep);
    }
}

/// A vector of character vectors seen as a sequence of character sequences.
pub open spec fn pieces(v: Seq<Vec<char>>) -> Seq<Seq<char>> {
    v.map_values(|p: Vec<char>| p@)
}

/// The pieces of `s` between occurrences of `sep`.
pub fn split_chars(s: &[char], sep: char) -> (parts: Vec<Vec<char>>)
    ensures
        pieces(parts@) == split_on(s@, sep),
{
    let n = s.len();
    let mut parts: Vec<Vec<char>> = Vec::new();
    let mut cur: Vec<char> = Vec::new();
    let mut i: usize = 0;
    proof {
        assert(s@.take(0) == Seq::<char>::empty());
        assert(pieces(parts@).push(cur@) == split_on(s@.take(0), sep));
    }
    while i < n
        invariant
            n == s@.len(),
            i <= n,
            pieces(parts@).push(cur@) == split_on(s@.take(i as int), sep),
        decreases n - i,
    {
        let c = s[i];
        let ghost prev = s@.take(i as int);
        proof {
            assert(s@.take(i + 1).drop_last() == prev);
            assert(s@.take(i + 1).last() == c);
            lemma_split_on_len(prev, sep);
        }
        let ghost old_parts_v = parts@;
        if c == sep {
            let done = cur;
            let ghost done_view = done@;
            parts.push(done);
            cur = Vec::new();
            proof {
                assert(pieces(parts@) =~= pieces(old_parts_v).push(done_view));
                assert(pieces(parts@) == split_on(prev, sep));
            }
        } else {
            cur.push(c);
            proof {
                let old_parts = split_on(prev, sep);
                assert(pieces(parts@).push(cur@) == old_parts.update(
                    old_parts.len() - 1,
                    old_parts.last().push(c),
                ));
            }
        }
        i = i + 1;
    }
    let ghost before = parts@;
    let ghost last = cur@;
    parts.push(cur);
    proof {
        assert(pieces(parts@) =~= pieces(before).push(last));
        assert(s@.take(n as int) == s@);
    }
    parts
}

/// The maximal runs of non-white-space characters of `s`, as `str::split_whitespace`
/// yields them.
pub open spec fn words(s: Seq<char>) -> Seq<Seq<char>>
    decreases s.len(),
{
    if s.len() == 0 {
        Seq::<Seq<char>>::empty()
    } else {
        let w = words(s.drop_last());
        if is_white_space(s.last()) {
            w
        } else if s.len() == 1 || is_white_space(s[s.len() - 2]) {
            w.push(seq![s.last()])
        } else {
            w.update(w.len() - 1, w.last().push(s.last()))
        }
    }
}

proof fn lemma_words_nonempty(s: Seq<char>)
    requires
        s.len() > 0,
        !is_white_space(s.last()),
    ensures
        words(s).len() > 0,
    decreases s.len(),
{
    if s.len() > 1 && !is_white_space(s[s.len() - 2]) {
        assert(s.drop_last().last() == s[s.len() - 2]);
        lemma_words_nonempty(s.drop_last());
    }
}

/// The words of `s`, split at white space.
pub fn split_words(s: &[char]) -> (ws: Vec<Vec<char>>)
    ensures
        pieces(ws@) == words(s@),
{
    let n = s.len();
    let mut ws: Vec<Vec<char>> = Vec::new();
    let mut cur: Vec<char> = Vec::new();
    let mut in_word = false;
    let mut i: usize = 0;
    while i < n
        invariant
            n == s@.len(),
            i <= n,
            in_word == (i > 0 && !is_white_space(s@[i - 1])),
            in_word ==> pieces(ws@).push(cur@) == words(s@.take(i as int)),
            !in_word ==> pieces(ws@) == words(s@.take(i as int)),
        decreases n - i,
    {
        let c = s[i];
        let ghost prev = s@.take(i as int);
        proof {
            assert(s@.take(i + 1).drop_last() == prev);
            assert(s@.take(i + 1).last() == c);
            if i > 0 {
                assert(s@.take(i + 1)[i - 1] == s@[i - 1]);
            }
        }
        if white_space(c) {
            if in_word {
                let ghost before = ws@;
                let done = cur;
                let ghost done_view = done@;
                ws.push(done);
                cur = Vec::new();
                proof {
                    assert(pieces(ws@) =~= pieces(before).push(done_view));
                }
            }
            in_word = false;
        } else {
            if in_word {
                proof {
                    assert(prev.last() == s@[i - 1]);
                    lemma_words_nonempty(prev);
                }
                cur.push(c);
            } else {
                cur = Vec::new();
                cur.push(c);
                proof {
                    assert(cur@ == seq![c]);
                }
            }
            in_word = true;
        }
        i = i + 1;
    }
    if in_word {
        let ghost before = ws@;
        let ghost last = cur@;
        ws.push(cur);
        proof {
            assert(pieces(ws@) =~= pieces(before).push(last));
        }
    }
    proof {
        assert(s@.take(n as int) == s@);
    }
    ws
}

/// At most the first `n` characters of `s`.
pub fn take_chars(s: &str, n: usize) -> (t: String)
    ensures
        t@ == s@.take(if n < s@.len() { n as int } else { s@.len() as int }),
{
    let v = chars_of(s);
    let m = if n < v.len() {
        n
    } else {
        v.len()
    };
    let mut t = String::new();
    let mut i: usize = 0;
    while i < m
        invariant
            v@ == s@,
            m <= v@.len(),
            i <= m,
            t@ == s@.take(i as int),
        decreases m - i,
    {
        push_char(&mut t, v[i]);
        proof {
            assert(s@.take(i + 1) == s@.take(i as int).push(s@[i as int]));
        }
        i = i + 1;
    }
    t
}

// ---------------------------------------------------------------- lists of strings

/// Appends the characters of `t` to `s`.
pub fn append_str(s: &mut String, t: &str)
    ensures
        final(s)@ == old(s)@ + t@,
{
    let cs = chars_of(t);
    let n = cs.len();
    let mut i: usize = 0;
    while i < n
        invariant
            cs@ == t@,
            n == t@.len(),
            i <= n,
            s@ == old(s)@ + t@.take(i as int),
        decreases n - i,
    {
        push_char(s, cs[i]);
        proof {
            assert(t@.take(i + 1) == t@.take(i as int).push(t@[i as int]));
        }
        i = i + 1;
    }
    proof {
        assert(t@.take(n as int) == t@);
    }
}

/// Each string of `xs` lowercased.
pub open spec fn lowered(xs: Seq<Seq<char>>) -> Seq<Seq<char>> {
    xs.map_values(|t: Seq<char>| lowercase(t))
}

/// Each string of `xs` uppercased.
pub open spec fn uppercased(xs: Seq<Seq<char>>) -> Seq<Seq<char>> {
    xs.map_values(|t: Seq<char>| uppercase(t))
}

/// Each string of `xs` trimmed of white space.
pub open spec fn trimmed(xs: Seq<Seq<char>>) -> Seq<Seq<char>> {
    xs.map_values(|t: Seq<char>| trim(t))
}

/// The non-empty elements of `xs`, in order.
pub open spec fn non_empty(xs: Seq<Seq<char>>) -> Seq<Seq<char>>
    decreases xs.len(),
{
    if xs.len() == 0 {
        xs
    } else {
        let r = non_empty(xs.drop_last());
        if xs.last().len() > 0 {
            r.push(xs.last())
        } else {
            r
        }
    }
}

/// `parts` joined with `sep` between neighbours.
pub open spec fn join(parts: Seq<Seq<char>>, sep: Seq<char>) -> Seq<char>
    decreases parts.len(),
{
    if parts.len() == 0 {
        Seq::<char>::empty()
    } else if parts.len() == 1 {
        parts[0]
    } else {
        join(parts.drop_last(), sep) + sep + parts.last()
    }
}

/// Each string of `v` lowercased.
pub fn lowercase_all(v: &[String]) -> (r: Vec<String>)
    ensures
        views(r@) == lowered(views(v@)),
{
    let n = v.len();
    let mut r: Vec<String> = Vec::new();
    let mut i: usize = 0;
    while i < n
        invariant
            n == v@.len(),
            i <= n,
            views(r@) == lowered(views(v@)).take(i as int),
        decreases n - i,
    {
        let ghost before = r@;
        r.push(to_lower(v[i].as_str()));
        proof {
            let l = lowered(views(v@));
            assert(views(r@) =~= views(before).push(l[i as int]));
            assert(l.take(i + 1) == l.take(i as int).push(l[i as int]));
        }
        i = i + 1;
    }
    proof {
        assert(lowered(views(v@)).take(n as int) == lowered(views(v@)));
    }
    r
}

/// The non-empty strings of `v`, in order.
pub fn drop_empty(v: Vec<String>) -> (r: Vec<String>)
    ensures
        views(r@) == non_empty(views(v@)),
{
    let ghost orig = v@;
    let total = v.len();
    let mut rest = v;
    let mut r: Vec<String> = Vec::new();
    let mut done: usize = 0;
    proof {
        assert(views(orig).take(0) == Seq::<Seq<char>>::empty());
        assert(rest@ == orig.skip(0));
    }
    while rest.len() > 0
        invariant
            total == orig.len(),
            done <= orig.len(),
            rest@ == orig.skip(done as int),
            views(r@) == non_empty(views(orig).take(done as int)),
        decreases rest@.len(),
    {
        let x = rest.remove(0);
        proof {
            assert(x == orig[done as int]);
            assert(rest@ == orig.skip(done + 1));
            assert(views(orig).take(done + 1).drop_last() == views(orig).take(done as int));
            assert(views(orig).take(done + 1).last() == x@);
        }
        if !x.as_str().is_empty() {
            let ghost before = r@;
            r.push(x);
            proof {
                assert(views(r@) =~= views(before).push(views(orig)[done as int]));
            }
        }
        done = done + 1;
    }
    proof {
        assert(views(orig).take(done as int) == views(orig));
    }
    r
}

/// The pieces of `text` between occurrences of `sep`, each trimmed of white space.
pub fn trimmed_pieces(text: &str, sep: char) -> (r: Vec<String>)
    ensures
        views(r@) == trimmed(split_on(text@, sep)),
{
    let cs = chars_of(text);
    let parts = split_chars(cs.as_slice(), sep);
    let ghost xs = trimmed(split_on(text@, sep));
    let n = parts.len();
    let mut r: Vec<String> = Vec::new();
    let mut i: usize = 0;
    while i < n
        invariant
            n == parts@.len(),
            pieces(parts@) == split_on(text@, sep),
            xs == trimmed(split_on(text@, sep)),
            i <= n,
            views(r@) == xs.take(i as int),
        decreases n - i,
    {
        let piece = trim_chars(parts[i].as_slice(), CharClass::WhiteSpace);
        let s = string_of(piece.as_slice());
        proof {
            assert(pieces(parts@)[i as int] == parts@[i as int]@);
        }
        let ghost before = r@;
        r.push(s);
        proof {
            assert(views(r@) =~= views(before).push(xs[i as int]));
            assert(xs.take(i + 1) == xs.take(i as int).push(xs[i as int]));
        }
        i = i + 1;
    }
    proof {
        assert(xs.take(n as int) == xs);
    }
    r
}

/// `parts` joined with `sep` between neighbours.
pub fn join_strings(parts: &[String], sep: &str) -> (s: String)
    ensures
        s@ == join(views(parts@), sep@),
{
    let ghost ps = views(parts@);
    let mut s = String::new();
    let n = parts.len();
    let mut k: usize = 0;
    while k < n
        invariant
            n == parts@.len(),
            ps == views(parts@),
            k <= n,
            s@ == join(ps.take(k as int), sep@),
        decreases n - k,
    {
        proof {
            assert(ps.take(k + 1).drop_last() == ps.take(k as int));
            assert(ps.take(k + 1).last() == parts@[k as int]@);
            if k == 0 {
                assert(ps.take(1) == seq![parts@[0]@]);
            }
        }
        if k > 0 {
            append_str(&mut s, sep);
        }
        append_str(&mut s, parts[k].as_str());
        k = k + 1;
    }
    proof {
        assert(ps.take(n as int) == ps);
    }
    s
}

} // verus!
