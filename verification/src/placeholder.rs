//! The blurred placeholder shown in place of a locked GIF: the hash of its key, the colour
//! pair that hash picks, and the `data:` URL that carries the rendered SVG.
use vstd::prelude::*;
use crate::text::{append_str, owned_string};
use base64::Engine;

verus! {

/// The string hash of a key: over its characters `c`, `h = 31 * h + c` in wrapping
/// 32-bit arithmetic, from `h = 0`.
pub open spec fn hash_of(s: Seq<char>) -> i32
    decreases s.len(),
{
    if s.len() == 0 {
        0
    } else {
        (31 * hash_of(s.drop_last()) + s.last() as u32) as i32
    }
}

proof fn lemma_hash_step(h: i32, c: u32)
    requires
        c <= 0x10FFFF,
    ensures
        vstd::wrapping::i32_specs::wrapping_add(
            c as i32,
            vstd::wrapping::i32_specs::wrapping_sub(h << 5, h),
        ) == (31 * h + c as int) as i32,
{
    assert(vstd::wrapping::i32_specs::wrapping_add(
        c as i32,
        vstd::wrapping::i32_specs::wrapping_sub(h << 5, h),
    ) == (31 * h + c as int) as i32) by (bit_vector)
        requires
            c <= 0x10FFFF,
    ;
}

/// The string hash of `s`.
pub fn hash_string(s: &str) -> (hash: i32)
    ensures
        hash == hash_of(s@),
{
    let mut hash: i32 = 0;
    for c in it: s.chars()
        invariant
            it.seq() == s@,
            hash == hash_of(s@.take(it.index() as int)),
    {
        proof {
            vstd::utf8::char_is_scalar(c);
            lemma_hash_step(hash, c as u32);
            assert(s@.take(it.index() + 1).drop_last() == s@.take(it.index() as int));
            assert(s@.take(it.index() + 1).last() == c);
        }
        let code: u32 = c as u32;
        hash = (code as i32).wrapping_add((hash << 5).wrapping_sub(hash));
    }
    proof {
        assert(s@.take(s@.len() as int) == s@);
    }
    hash
}

/// The hash that names a GIF's placeholder: the absolute value of its key's hash, wrapping
/// to `i32::MIN` for `i32::MIN` as `i32::abs` does when overflow checks are off.
pub open spec fn placeholder_hash_of(key: Seq<char>) -> i32 {
    let h = hash_of(key);
    if h == i32::MIN {
        i32::MIN
    } else if h < 0 {
        -h as i32
    } else {
        h
    }
}

/// The placeholder hash of `key`.
pub fn placeholder_hash(key: &str) -> (h: i32)
    ensures
        h == placeholder_hash_of(key@),
{
    let h = hash_string(key);
    if h == i32::MIN {
        h
    } else if h < 0 {
        -h
    } else {
        h
    }
}

/// Which of the eight colour pairs a key's placeholder uses: the magnitude of its hash
/// modulo eight.
pub open spec fn palette_index_of(key: Seq<char>) -> int {
    let h = hash_of(key) as int;
    (if h < 0 {
        -h
    } else {
        h
    }) % 8
}

/// The colour pairs of placeholders.
pub open spec fn palette(i: int) -> (Seq<char>, Seq<char>) {
    if i == 0 {
        ("#ff0080"@, "#7928ca"@)
    } else if i == 1 {
        ("#00dfd8"@, "#007cf0"@)
    } else if i == 2 {
        ("#ff4d4d"@, "#f9cb28"@)
    } else if i == 3 {
        ("#ff4b2b"@, "#ff416c"@)
    } else if i == 4 {
        ("#8e2de2"@, "#4a00e0"@)
    } else if i == 5 {
        ("#f12711"@, "#f5af19"@)
    } else if i == 6 {
        ("#12c2e9"@, "#c471ed"@)
    } else {
        ("#f857a6"@, "#ff5858"@)
    }
}

/// The two colours of the placeholder of the GIF with key `key`.
pub fn placeholder_colors(key: &str) -> (colors: (String, String))
    ensures
        colors.0@ == palette(palette_index_of(key@)).0,
        colors.1@ == palette(palette_index_of(key@)).1,
{
    let h = placeholder_hash(key);
    // `i32::MIN` has no positive counterpart; its magnitude 2^31 is a multiple of eight.
    let idx: u32 = if h == i32::MIN {
        0
    } else {
        (h as u32) % 8
    };
    match idx {
        0 => (owned_string("#ff0080"), owned_string("#7928ca")),
        1 => (owned_string("#00dfd8"), owned_string("#007cf0")),
        2 => (owned_string("#ff4d4d"), owned_string("#f9cb28")),
        3 => (owned_string("#ff4b2b"), owned_string("#ff416c")),
        4 => (owned_string("#8e2de2"), owned_string("#4a00e0")),
        5 => (owned_string("#f12711"), owned_string("#f5af19")),
        6 => (owned_string("#12c2e9"), owned_string("#c471ed")),
        _ => (owned_string("#f857a6"), owned_string("#ff5858")),
    }
}

/// The standard (RFC 4648, padded) base64 encoding of a byte sequence, as the `base64`
/// crate's `STANDARD` engine produces it.
pub uninterp spec fn base64_standard(bytes: Seq<u8>) -> Seq<char>;

/// The length of a padded base64 encoding of `n` bytes.
pub open spec fn padded_len(n: nat) -> nat {
    4 * (n / 3) + if n % 3 == 0 {
        0nat
    } else {
        4nat
    }
}

/// Calls `base64::engine::general_purpose::STANDARD.encode`. Its output is named
/// `base64_standard(bytes@)`; the contract also states its length, which the crate's
/// `encoded_len` computes. The call panics when that length overflows `usize`, which the
/// `requires` leaves out.
#[verifier::external_body]
fn base64_encode(bytes: &[u8]) -> (s: String)
    requires
        padded_len(bytes@.len()) <= usize::MAX,
    ensures
        s@ == base64_standard(bytes@),
        s@.len() == padded_len(bytes@.len()),
{
    base64::engine::general_purpose::STANDARD.encode(bytes)
}

/// Whether the base64 encoding of `n` bytes has a length that fits in `usize`.
pub fn base64_len_fits(n: usize) -> (b: bool)
    ensures
        b == (padded_len(n as nat) <= usize::MAX),
{
    let chunks = n / 3;
    let rem = n % 3;
    if chunks > usize::MAX / 4 {
        return false;
    }
    let full = chunks * 4;
    if rem == 0 {
        true
    } else {
        full <= usize::MAX - 4
    }
}

/// The `data:` URL of an SVG document, base64 encoded.
pub open spec fn svg_data_url(svg: Seq<char>) -> Seq<char> {
    "data:image/svg+xml;base64,"@ + base64_standard(vstd::utf8::encode_utf8(svg))
}

/// The URL a locked GIF is listed with: its placeholder SVG as a base64 `data:` URL.
pub fn placeholder_data_url(svg: &str) -> (url: String)
    requires
        padded_len(vstd::utf8::encode_utf8(svg@).len()) <= usize::MAX,
    ensures
        url@ == svg_data_url(svg@),
{
    let bytes = svg.as_bytes();
    let b64 = base64_encode(bytes);
    let mut url = owned_string("data:image/svg+xml;base64,");
    append_str(&mut url, b64.as_str());
    url
}

} // verus!
