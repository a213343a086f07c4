//! The tag database and the suggestion queue: string-keyed tables, and the moderation steps
//! that move entries between them.
use vstd::prelude::*;
use crate::text::{owned_string, views};
use crate::submit::{parse_manual_tags, tag_list_of};

verus! {

/// No key occurs twice.
pub open spec fn keys_distinct<V>(s: Seq<(String, V)>) -> bool {
    forall|i: int, j: int| 0 <= i < j < s.len() ==> s[i].0@ != s[j].0@
}

/// The table an entry list stands for: each entry in turn sets its key to its value, so a
/// later entry for a key wins.
pub open spec fn map_of<V>(s: Seq<(String, V)>) -> Map<Seq<char>, V>
    decreases s.len(),
{
    if s.len() == 0 {
        Map::empty()
    } else {
        map_of(s.drop_last()).insert(s.last().0@, s.last().1)
    }
}

proof fn lemma_map_of_keys<V>(s: Seq<(String, V)>, k: Seq<char>)
    ensures
        map_of(s).contains_key(k) <==> exists|i: int| 0 <= i < s.len() && #[trigger] s[i].0@ == k,
    decreases s.len(),
{
    if s.len() > 0 {
        lemma_map_of_keys(s.drop_last(), k);
        if exists|i: int| 0 <= i < s.len() && #[trigger] s[i].0@ == k {
            let i = choose|i: int| 0 <= i < s.len() && #[trigger] s[i].0@ == k;
            if i < s.len() - 1 {
                assert(s.drop_last()[i].0@ == k);
            }
        }
        if exists|i: int| 0 <= i < s.drop_last().len() && #[trigger] s.drop_last()[i].0@ == k {
            let i = choose|i: int| 0 <= i < s.drop_last().len() && #[trigger] s.drop_last()[i].0@ == k;
            assert(s[i].0@ == k);
        }
    }
}

proof fn lemma_map_of_value<V>(s: Seq<(String, V)>, i: int)
    requires
        keys_distinct(s),
        0 <= i < s.len(),
    ensures
        map_of(s).contains_key(s[i].0@),
        map_of(s)[s[i].0@] == s[i].1,
    decreases s.len(),
{
    if i < s.len() - 1 {
        let d = s.drop_last();
        assert(keys_distinct(d));
        lemma_map_of_value(d, i);
        assert(d[i] == s[i]);
        assert(s.last().0@ != s[i].0@);
    }
}

proof fn lemma_map_of_update<V>(s: Seq<(String, V)>, i: int, e: (String, V))
    requires
        keys_distinct(s),
        0 <= i < s.len(),
        e.0@ == s[i].0@,
    ensures
        keys_distinct(s.update(i, e)),
        map_of(s.update(i, e)) == map_of(s).insert(e.0@, e.1),
    decreases s.len(),
{
    let u = s.update(i, e);
    assert forall|a: int, b: int| 0 <= a < b < u.len() implies u[a].0@ != u[b].0@ by {
        assert(s[a].0@ != s[b].0@);
    }
    let d = s.drop_last();
    if i == s.len() - 1 {
        assert(u.drop_last() == d);
        assert(map_of(s).insert(e.0@, e.1) =~= map_of(d).insert(e.0@, e.1));
    } else {
        assert(keys_distinct(d));
        lemma_map_of_update(d, i, e);
        assert(u.drop_last() == d.update(i, e));
        assert(s.last().0@ != s[i].0@);
        assert(map_of(u) =~= map_of(s).insert(e.0@, e.1));
    }
}

proof fn lemma_map_of_remove<V>(s: Seq<(String, V)>, i: int)
    requires
        keys_distinct(s),
        0 <= i < s.len(),
    ensures
        keys_distinct(s.remove(i)),
        map_of(s.remove(i)) == map_of(s).remove(s[i].0@),
    decreases s.len(),
{
    let r = s.remove(i);
    assert forall|a: int, b: int| 0 <= a < b < r.len() implies r[a].0@ != r[b].0@ by {
        let a2 = if a < i {
            a
        } else {
            a + 1
        };
        let b2 = if b < i {
            b
        } else {
            b + 1
        };
        assert(r[a] == s[a2]);
        assert(r[b] == s[b2]);
    }
    let d = s.drop_last();
    let k = s[i].0@;
    if i == s.len() - 1 {
        assert(r == d);
        assert forall|j: int| 0 <= j < d.len() implies #[trigger] d[j].0@ != k by {
            assert(s[j].0@ != s[i].0@);
        }
        lemma_map_of_keys(d, k);
        assert(map_of(s).remove(k) =~= map_of(d));
    } else {
        assert(keys_distinct(d));
        lemma_map_of_remove(d, i);
        assert(r.drop_last() == d.remove(i));
        assert(r.last() == s.last());
        assert(s.last().0@ != k);
        assert(map_of(r) =~= map_of(s).remove(k));
    }
}

proof fn lemma_map_of_len<V>(s: Seq<(String, V)>)
    requires
        keys_distinct(s),
    ensures
        map_of(s).dom().finite(),
        map_of(s).dom().len() == s.len(),
    decreases s.len(),
{
    if s.len() > 0 {
        let d = s.drop_last();
        assert(keys_distinct(d));
        lemma_map_of_len(d);
        assert forall|j: int| 0 <= j < d.len() implies #[trigger] d[j].0@ != s.last().0@ by {
            assert(s[j].0@ != s[s.len() - 1].0@);
        }
        lemma_map_of_keys(d, s.last().0@);
    }
}

/// A table of values keyed by strings.
pub struct KeyedStore<V> {
    entries: Vec<(String, V)>,
}

impl<V> View for KeyedStore<V> {
    type V = Map<Seq<char>, V>;

    closed spec fn view(&self) -> Map<Seq<char>, V> {
        map_of(self.entries@)
    }
}

impl<V> KeyedStore<V> {
    /// The table keeps each key once.
    pub closed spec fn wf(&self) -> bool {
        keys_distinct(self.entries@)
    }

    /// An empty table.
    pub fn new() -> (s: Self)
        ensures
            s.wf(),
            s@ == Map::<Seq<char>, V>::empty(),
    {
        KeyedStore { entries: Vec::new() }
    }

    /// The position of `key`, if present.
    fn find(&self, key: &String) -> (pos: Option<usize>)
        requires
            self.wf(),
        ensures
            match pos {
                Some(i) => i < self.entries@.len() && self.entries@[i as int].0@ == key@,
                None => forall|j: int|
                    0 <= j < self.entries@.len() ==> #[trigger] self.entries@[j].0@ != key@,
            },
    {
        let n = self.entries.len();
        let mut i: usize = 0;
        while i < n
            invariant
                n == self.entries@.len(),
                i <= n,
                forall|j: int| 0 <= j < i ==> #[trigger] self.entries@[j].0@ != key@,
            decreases n - i,
        {
            if self.entries[i].0 == *key {
                return Some(i);
            }
            i = i + 1;
        }
        None
    }

    /// How many keys the table holds.
    pub fn len(&self) -> (n: usize)
        requires
            self.wf(),
        ensures
            self@.dom().finite(),
            n == self@.dom().len(),
    {
        proof {
            lemma_map_of_len(self.entries@);
        }
        self.entries.len()
    }

    /// The value of `key`, if present.
    pub fn get(&self, key: &str) -> (v: Option<&V>)
        requires
            self.wf(),
        ensures
            match v {
                Some(x) => self@.contains_key(key@) && *x == self@[key@],
                None => !self@.contains_key(key@),
            },
    {
        let k = owned_string(key);
        match self.find(&k) {
            Some(i) => {
                proof {
                    lemma_map_of_value(self.entries@, i as int);
                }
                Some(&self.entries[i].1)
            },
            None => {
                proof {
                    lemma_map_of_keys(self.entries@, key@);
                }
                None
            },
        }
    }

    /// Sets `key` to `value`, replacing any value it had.
    pub fn insert(&mut self, key: String, value: V)
        requires
            old(self).wf(),
        ensures
            final(self).wf(),
            final(self)@ == old(self)@.insert(key@, value),
    {
        match self.find(&key) {
            Some(i) => {
                proof {
                    lemma_map_of_update(self.entries@, i as int, (key, value));
                }
                self.entries.set(i, (key, value));
            },
            None => {
                let ghost before = self.entries@;
                self.entries.push((key, value));
                proof {
                    assert(self.entries@.drop_last() == before);
                    assert forall|a: int, b: int|
                        0 <= a < b < self.entries@.len() implies self.entries@[a].0@
                        != self.entries@[b].0@ by {
                        if b == before.len() {
                            assert(before[a].0@ != key@);
                        }
                    }
                }
            },
        }
    }

    /// Removes `key`, giving back its value where it was present.
    pub fn remove(&mut self, key: &str) -> (v: Option<V>)
        requires
            old(self).wf(),
        ensures
            final(self).wf(),
            final(self)@ == old(self)@.remove(key@),
            match v {
                Some(x) => old(self)@.contains_key(key@) && x == old(self)@[key@],
                None => !old(self)@.contains_key(key@),
            },
    {
        let k = owned_string(key);
        match self.find(&k) {
            Some(i) => {
                proof {
                    lemma_map_of_value(self.entries@, i as int);
                    lemma_map_of_remove(self.entries@, i as int);
                }
                let (_, v) = self.entries.remove(i);
                Some(v)
            },
            None => {
                proof {
                    lemma_map_of_keys(self.entries@, key@);
                    assert(map_of(self.entries@).remove(key@) =~= map_of(self.entries@));
                }
                None
            },
        }
    }

    /// The table of a list of entries, later entries for a key replacing earlier ones.
    pub fn from_entries(entries: Vec<(String, V)>) -> (s: Self)
        ensures
            s.wf(),
            s@ == map_of(entries@),
    {
        let ghost orig = entries@;
        let total = entries.len();
        let mut rest = entries;
        let mut s = KeyedStore::new();
        let mut done: usize = 0;
        proof {
            assert(orig.take(0) == Seq::<(String, V)>::empty());
            assert(rest@ == orig.skip(0));
        }
        while rest.len() > 0
            invariant
                total == orig.len(),
                done <= orig.len(),
                rest@ == orig.skip(done as int),
                s.wf(),
                s@ == map_of(orig.take(done as int)),
            decreases rest@.len(),
        {
            let (k, v) = rest.remove(0);
            proof {
                assert((k, v) == orig[done as int]);
                assert(rest@ == orig.skip(done + 1));
                assert(orig.take(done + 1).drop_last() == orig.take(done as int));
                assert(orig.take(done + 1).last() == (k, v));
            }
            s.insert(k, v);
            done = done + 1;
        }
        proof {
            assert(orig.take(done as int) == orig);
        }
        s
    }

    /// The entries of the table, each key once.
    pub fn into_entries(self) -> (entries: Vec<(String, V)>)
        requires
            self.wf(),
        ensures
            keys_distinct(entries@),
            map_of(entries@) == self@,
    {
        self.entries
    }
}

// ---------------------------------------------------------------- the tables

/// A GIF suggested by a visitor, waiting for approval.
pub struct Suggestion {
    pub tags: Vec<String>,
    pub sent_by: String,
    pub date: i64,
}

/// The tags of each stored GIF, by key.
pub type TagTable = KeyedStore<Vec<String>>;

/// The suggestions waiting for approval, by the key of their stored file.
pub type SuggestionQueue = KeyedStore<Suggestion>;

/// Records the tags of a GIF, as an upload or an administrator's edit does.
pub fn set_tags(db: &mut TagTable, key: String, tags: Vec<String>)
    requires
        old(db).wf(),
    ensures
        final(db).wf(),
        final(db)@ == old(db)@.insert(key@, tags),
{
    db.insert(key, tags);
}

/// Sets a GIF's tags from an administrator's comma separated list.
pub fn update_tags(db: &mut TagTable, key: String, text: &str)
    requires
        old(db).wf(),
    ensures
        final(db).wf(),
        final(db)@.dom() == old(db)@.dom().insert(key@),
        views(final(db)@[key@]@) == tag_list_of(text@, false),
        forall|k: Seq<char>| k != key@ ==> #[trigger] final(db)@.contains_key(k) ==> final(db)@[k]
            == old(db)@[k],
{
    let tags = parse_manual_tags(text);
    let ghost kv = key@;
    db.insert(key, tags);
    proof {
        assert(final(db)@.dom() =~= old(db)@.dom().insert(kv));
    }
}

/// Forgets a deleted GIF's tags.
pub fn delete_tags(db: &mut TagTable, key: &str)
    requires
        old(db).wf(),
    ensures
        final(db).wf(),
        final(db)@ == old(db)@.remove(key@),
{
    let _ = db.remove(key);
}

/// Approves a waiting suggestion: it leaves the queue and its GIF enters the library with the
/// suggested tags. Returns whether such a suggestion was waiting; where none was, nothing
/// changes.
pub fn approve_suggestion(queue: &mut SuggestionQueue, db: &mut TagTable, key: &str) -> (found: bool)
    requires
        old(queue).wf(),
        old(db).wf(),
    ensures
        final(queue).wf(),
        final(db).wf(),
        found == old(queue)@.contains_key(key@),
        final(queue)@ == old(queue)@.remove(key@),
        found ==> final(db)@ == old(db)@.insert(key@, old(queue)@[key@].tags),
        !found ==> final(db)@ == old(db)@,
{
    match queue.remove(key) {
        Some(s) => {
            db.insert(owned_string(key), s.tags);
            true
        },
        None => false,
    }
}

/// Rejects a waiting suggestion: it leaves the queue. Returns whether it was waiting, in
/// which case its stored file is to be deleted.
pub fn reject_suggestion(queue: &mut SuggestionQueue, key: &str) -> (found: bool)
    requires
        old(queue).wf(),
    ensures
        final(queue).wf(),
        found == old(queue)@.contains_key(key@),
        final(queue)@ == old(queue)@.remove(key@),
{
    queue.remove(key).is_some()
}

/// Queues a suggestion for approval.
pub fn queue_suggestion(queue: &mut SuggestionQueue, key: String, s: Suggestion)
    requires
        old(queue).wf(),
    ensures
        final(queue).wf(),
        final(queue)@ == old(queue)@.insert(key@, s),
{
    queue.insert(key, s);
}

// ---------------------------------------------------------------- laws

/// What a table gives back for a key is what was last set for it; other keys keep theirs.
pub proof fn law_read_after_write<V>(before: Map<Seq<char>, V>, k: Seq<char>, v: V, other: Seq<char>)
    requires
        other != k,
    ensures
        before.insert(k, v).contains_key(k),
        before.insert(k, v)[k] == v,
        before.insert(k, v).contains_key(other) == before.contains_key(other),
        before.contains_key(other) ==> before.insert(k, v)[other] == before[other],
{
}

/// A removed key is gone, and other keys keep their values.
pub proof fn law_removed_key_is_gone<V>(before: Map<Seq<char>, V>, k: Seq<char>, other: Seq<char>)
    requires
        other != k,
    ensures
        !before.remove(k).contains_key(k),
        before.remove(k).contains_key(other) == before.contains_key(other),
        before.contains_key(other) ==> before.remove(k)[other] == before[other],
{
}

/// Approving a suggestion twice in a row changes nothing the second time: it is no longer
/// waiting.
pub proof fn law_approve_once(queue: Map<Seq<char>, Suggestion>, k: Seq<char>)
    ensures
        !queue.remove(k).contains_key(k),
        queue.remove(k).remove(k) == queue.remove(k),
{
    assert(queue.remove(k).remove(k) =~= queue.remove(k));
}

} // verus!
