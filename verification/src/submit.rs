//! Uploads, suggestions and moderation: who may do what, the limits on how often, and the
//! fields read from the submitted forms.
use vstd::prelude::*;
use crate::text::{
    append_str, chars_of, drop_empty, owned_string, lowercase_all, lowered, non_empty, pieces,
    split_chars, split_on, string_of, take_chars, trim, trim_chars, trimmed, trimmed_pieces, views,
    CharClass,
};
use crate::tags::contains_string;
use crate::limits::{RateWindow, admits, after};
use crate::media::{allowed_content_type, is_allowed_content_type};

verus! {

/// One hour, in nanoseconds: the length of every rate-limit window.
pub const ONE_HOUR_NANOS: u64 = 3_600_000_000_000u64;

/// Uploads and suggestions accepted per hour, over all clients.
pub const GLOBAL_UPLOADS_PER_HOUR: usize = 50usize;

/// Suggestions accepted per hour from one address.
pub const SUGGESTIONS_PER_ADDRESS_PER_HOUR: usize = 5usize;

/// Troll reports logged per hour from one address.
pub const TROLL_REPORTS_PER_ADDRESS_PER_HOUR: usize = 10usize;

/// Suggestions that may wait for approval at once.
pub const SUGGESTION_QUEUE_CAPACITY: usize = 50usize;

// ---------------------------------------------------------------- who is asking

/// Whether a request carries the administrator's key in its `auth_token` cookie.
pub fn is_admin(token: Option<&str>, master_key: &str) -> (b: bool)
    ensures
        b == match token {
            Some(t) => t@ == master_key@,
            None => false,
        },
{
    match token {
        Some(t) => owned_string(t) == owned_string(master_key),
        None => false,
    }
}

/// The address a suggestion is counted against: Cloudflare's `cf-connecting-ip` header,
/// else the first entry of `x-forwarded-for`, trimmed, else `unknown`.
pub open spec fn client_address_of(cf: Option<Seq<char>>, forwarded: Option<Seq<char>>) -> Seq<char> {
    match cf {
        Some(c) => c,
        None => match forwarded {
            Some(f) => trim(split_on(f, ',')[0]),
            None => "unknown"@,
        },
    }
}

/// The address a suggestion is counted against.
pub fn client_address(cf: Option<&str>, forwarded: Option<&str>) -> (a: String)
    ensures
        a@ == client_address_of(
            match cf {
                Some(c) => Some(c@),
                None => None,
            },
            match forwarded {
                Some(f) => Some(f@),
                None => None,
            },
        ),
{
    match cf {
        Some(c) => owned_string(c),
        None => match forwarded {
            Some(f) => {
                let cs = chars_of(f);
                let parts = split_chars(cs.as_slice(), ',');
                proof {
                    crate::text::lemma_split_on_len(f@, ',');
                    assert(pieces(parts@)[0] == parts@[0]@);
                }
                let first = trim_chars(parts[0].as_slice(), CharClass::WhiteSpace);
                string_of(first.as_slice())
            },
            None => owned_string("unknown"),
        },
    }
}

/// The rate-limit key of troll reports from `ip`.
pub fn troll_key(ip: &str) -> (k: String)
    ensures
        k@ == "troll:"@ + ip@,
{
    let mut k = owned_string("troll:");
    append_str(&mut k, ip);
    k
}

// ---------------------------------------------------------------- how often

/// Whether an upload at `now` fits the global hourly limit; it is recorded when it does.
pub fn admit_upload(global: &mut RateWindow, now: u64) -> (ok: bool)
    ensures
        ok == admits(old(global)@, now, ONE_HOUR_NANOS, GLOBAL_UPLOADS_PER_HOUR as nat),
        final(global)@ == after(old(global)@, now, ONE_HOUR_NANOS, GLOBAL_UPLOADS_PER_HOUR as nat),
{
    global.try_record(now, ONE_HOUR_NANOS, GLOBAL_UPLOADS_PER_HOUR)
}

/// Why a suggestion was refused before its form was read.
#[derive(Clone, Copy, PartialEq, Eq, Debug)]
pub enum SuggestionRefusal {
    /// The address sent five suggestions within the hour.
    TooManyFromAddress,
    /// Fifty uploads and suggestions arrived within the hour.
    TooBusy,
}

/// Whether a suggestion at `now` fits the limits: first that of its address, then the global
/// one. Each window records the request when it accepts it; a suggestion refused for its
/// address does not reach the global window.
pub fn admit_suggestion(per_address: &mut RateWindow, global: &mut RateWindow, now: u64) -> (r: Result<(), SuggestionRefusal>)
    ensures
        !admits(old(per_address)@, now, ONE_HOUR_NANOS, SUGGESTIONS_PER_ADDRESS_PER_HOUR as nat)
            ==> r == Err::<(), SuggestionRefusal>(SuggestionRefusal::TooManyFromAddress)
            && final(global)@ == old(global)@,
        admits(old(per_address)@, now, ONE_HOUR_NANOS, SUGGESTIONS_PER_ADDRESS_PER_HOUR as nat)
            ==> final(global)@ == after(
            old(global)@,
            now,
            ONE_HOUR_NANOS,
            GLOBAL_UPLOADS_PER_HOUR as nat,
        ) && (r is Ok <==> admits(
            old(global)@,
            now,
            ONE_HOUR_NANOS,
            GLOBAL_UPLOADS_PER_HOUR as nat,
        )) && (r is Err ==> r == Err::<(), SuggestionRefusal>(SuggestionRefusal::TooBusy)),
        final(per_address)@ == after(
            old(per_address)@,
            now,
            ONE_HOUR_NANOS,
            SUGGESTIONS_PER_ADDRESS_PER_HOUR as nat,
        ),
{
    if !per_address.try_record(now, ONE_HOUR_NANOS, SUGGESTIONS_PER_ADDRESS_PER_HOUR) {
        return Err(SuggestionRefusal::TooManyFromAddress);
    }
    if !global.try_record(now, ONE_HOUR_NANOS, GLOBAL_UPLOADS_PER_HOUR) {
        return Err(SuggestionRefusal::TooBusy);
    }
    Ok(())
}

/// Whether a troll report at `now` from an address is logged; it is recorded when it is.
pub fn admit_troll_report(per_address: &mut RateWindow, now: u64) -> (ok: bool)
    ensures
        ok == admits(old(per_address)@, now, ONE_HOUR_NANOS, TROLL_REPORTS_PER_ADDRESS_PER_HOUR as nat),
        final(per_address)@ == after(
            old(per_address)@,
            now,
            ONE_HOUR_NANOS,
            TROLL_REPORTS_PER_ADDRESS_PER_HOUR as nat,
        ),
{
    per_address.try_record(now, ONE_HOUR_NANOS, TROLL_REPORTS_PER_ADDRESS_PER_HOUR)
}

/// Whether the approval queue, holding `waiting` suggestions, is full.
pub fn suggestion_queue_full(waiting: usize) -> (full: bool)
    ensures
        full == (waiting >= SUGGESTION_QUEUE_CAPACITY),
{
    waiting >= SUGGESTION_QUEUE_CAPACITY
}

// ---------------------------------------------------------------- what was sent

/// The pieces of a comma separated list, trimmed (and lowercased where `lower`), the empty
/// ones dropped.
pub open spec fn tag_list_of(text: Seq<char>, lower: bool) -> Seq<Seq<char>> {
    let pieces = trimmed(split_on(text, ','));
    non_empty(if lower {
        lowered(pieces)
    } else {
        pieces
    })
}

/// The tags of a comma separated list, trimmed (and lowercased where `lower`), empty ones
/// dropped.
pub fn parse_tag_list(text: &str, lower: bool) -> (tags: Vec<String>)
    ensures
        views(tags@) == tag_list_of(text@, lower),
{
    let pieces = trimmed_pieces(text, ',');
    if lower {
        drop_empty(lowercase_all(pieces.as_slice()))
    } else {
        drop_empty(pieces)
    }
}

/// The tags of an upload form: comma separated, trimmed, lowercased, empty ones dropped.
pub fn parse_upload_tags(text: &str) -> (tags: Vec<String>)
    ensures
        views(tags@) == tag_list_of(text@, true),
{
    parse_tag_list(text, true)
}

/// The tags an administrator sets on a GIF: comma separated, trimmed, empty ones dropped;
/// their case is kept.
pub fn parse_manual_tags(text: &str) -> (tags: Vec<String>)
    ensures
        views(tags@) == tag_list_of(text@, false),
{
    parse_tag_list(text, false)
}

/// At most the first `n` elements of `xs`.
pub open spec fn at_most<A>(xs: Seq<A>, n: nat) -> Seq<A> {
    xs.take(if xs.len() < n {
        xs.len() as int
    } else {
        n as int
    })
}

/// The tags of a suggestion: as for an upload, each cut to thirty characters, and at most
/// the first ten of them.
pub open spec fn suggestion_tags_of(text: Seq<char>) -> Seq<Seq<char>> {
    at_most(tag_list_of(text, true).map_values(|t: Seq<char>| at_most(t, 30)), 10)
}

/// The tags of a suggestion form.
pub fn parse_suggestion_tags(text: &str) -> (tags: Vec<String>)
    ensures
        views(tags@) == suggestion_tags_of(text@),
{
    let all = parse_tag_list(text, true);
    let ghost cut = tag_list_of(text@, true).map_values(|t: Seq<char>| at_most(t, 30));
    let n = if all.len() < 10 {
        all.len()
    } else {
        10
    };
    let mut tags: Vec<String> = Vec::new();
    let mut i: usize = 0;
    while i < n
        invariant
            views(all@) == tag_list_of(text@, true),
            cut == tag_list_of(text@, true).map_values(|t: Seq<char>| at_most(t, 30)),
            n <= all@.len(),
            i <= n,
            views(tags@) == cut.take(i as int),
        decreases n - i,
    {
        let t = take_chars(all[i].as_str(), 30);
        proof {
            assert(views(all@)[i as int] == all@[i as int]@);
        }
        let ghost before = tags@;
        tags.push(t);
        proof {
            assert(views(tags@) =~= views(before).push(cut[i as int]));
            assert(cut.take(i + 1) == cut.take(i as int).push(cut[i as int]));
        }
        i = i + 1;
    }
    tags
}

/// The name a suggestion is sent under: at most its first forty characters.
pub fn sender_name(text: &str) -> (name: String)
    ensures
        name@ == at_most(text@, 40),
{
    take_chars(text, 40)
}

/// The logged text of a troll report: at most its first three hundred characters.
pub fn troll_payload(text: &str) -> (payload: String)
    ensures
        payload@ == at_most(text@, 300),
{
    take_chars(text, 300)
}

/// Why a submitted file was refused.
#[derive(Clone, Copy, PartialEq, Eq, Debug)]
pub enum SubmissionError {
    /// The form held no file.
    NoFile,
    /// The file is neither an accepted image nor an accepted video.
    InvalidType,
    /// A suggestion came without the sender's name.
    NameRequired,
}

/// Whether an upload form can be stored: it must hold a file of an accepted type.
pub fn check_upload(has_file: bool, content_type: &str) -> (r: Result<(), SubmissionError>)
    ensures
        r == if !has_file {
            Err(SubmissionError::NoFile)
        } else if !allowed_content_type(content_type@) {
            Err(SubmissionError::InvalidType)
        } else {
            Ok::<(), SubmissionError>(())
        },
{
    if !has_file {
        return Err(SubmissionError::NoFile);
    }
    if !is_allowed_content_type(content_type) {
        return Err(SubmissionError::InvalidType);
    }
    Ok(())
}

/// Whether a suggestion form can be queued: it must hold a file of an accepted type, and the
/// name of its sender.
pub fn check_suggestion(has_file: bool, content_type: &str, sent_by: &str) -> (r: Result<(), SubmissionError>)
    ensures
        r == if !has_file {
            Err(SubmissionError::NoFile)
        } else if !allowed_content_type(content_type@) {
            Err(SubmissionError::InvalidType)
        } else if sent_by@.len() == 0 {
            Err(SubmissionError::NameRequired)
        } else {
            Ok::<(), SubmissionError>(())
        },
{
    if !has_file {
        return Err(SubmissionError::NoFile);
    }
    if !is_allowed_content_type(content_type) {
        return Err(SubmissionError::InvalidType);
    }
    if sent_by.is_empty() {
        return Err(SubmissionError::NameRequired);
    }
    Ok(())
}

/// Whether one of a GIF's tags is `hidden`, in any case: such a GIF is shown to
/// administrators only.
pub open spec fn hidden_of(tags: Seq<Seq<char>>) -> bool {
    lowered(tags).contains("hidden"@)
}

/// Whether a GIF with tags `tags` is hidden.
pub fn is_hidden(tags: &[String]) -> (b: bool)
    ensures
        b == hidden_of(views(tags@)),
{
    let lower = lowercase_all(tags);
    contains_string(lower.as_slice(), &owned_string("hidden"))
}

} // verus!
