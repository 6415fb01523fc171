//! Structured string-keyed payloads.
//!
//! Task inputs, trigger event data and approval details are loosely
//! structured records.  They are modeled as association lists with unique
//! keys; [`lookup`] is the specification-level reading of such a list.

use vstd::prelude::*;

verus! {

/// What a key maps to in an association list: the value of the first entry
/// with that key, if any.
pub open spec fn lookup(fields: Seq<(String, String)>, key: Seq<char>) -> Option<Seq<char>>
    decreases fields.len(),
{
    if fields.len() == 0 {
        None
    } else if fields[0].0@ == key {
        Some(fields[0].1@)
    } else {
        lookup(fields.drop_first(), key)
    }
}

/// No two entries share a key.
pub open spec fn keys_unique(fields: Seq<(String, String)>) -> bool {
    forall|i: int, j: int| 0 <= i < j < fields.len() ==> fields[i].0@ != fields[j].0@
}

/// A loosely structured record: string fields under unique string keys.
#[derive(Debug, Clone)]
pub struct Payload {
    pub fields: Vec<(String, String)>,
}

/// A key that is present maps to the value of its entry.
proof fn lemma_lookup_present(fields: Seq<(String, String)>, i: int)
    requires
        keys_unique(fields),
        0 <= i < fields.len(),
    ensures
        lookup(fields, fields[i].0@) == Some(fields[i].1@),
    decreases fields.len(),
{
    if i > 0 {
        lemma_lookup_present(fields.drop_first(), i - 1);
    }
}

/// A key that no entry carries is absent.
proof fn lemma_lookup_absent(fields: Seq<(String, String)>, key: Seq<char>)
    requires
        forall|i: int| 0 <= i < fields.len() ==> fields[i].0@ != key,
    ensures
        lookup(fields, key) is None,
    decreases fields.len(),
{
    if fields.len() > 0 {
        lemma_lookup_absent(fields.drop_first(), key);
    }
}

/// Appending an entry with a fresh key changes only that key's image.
proof fn lemma_lookup_push(fields: Seq<(String, String)>, entry: (String, String), key: Seq<char>)
    ensures
        lookup(fields, key) is Some ==> lookup(fields.push(entry), key) == lookup(fields, key),
        lookup(fields, key) is None ==> lookup(fields.push(entry), key) == (if entry.0@ == key {
            Some(entry.1@)
        } else {
            None
        }),
    decreases fields.len(),
{
    let pushed = fields.push(entry);
    if fields.len() == 0 {
        assert(pushed[0] == entry);
        assert(pushed.drop_first() =~= Seq::<(String, String)>::empty());
        if entry.0@ == key {
            assert(lookup(pushed, key) == Some(entry.1@));
        } else {
            assert(lookup(pushed, key) == lookup(pushed.drop_first(), key));
        }
    } else {
        assert(pushed[0] == fields[0]);
        assert(pushed.drop_first() =~= fields.drop_first().push(entry));
        lemma_lookup_push(fields.drop_first(), entry, key);
        if fields[0].0@ == key {
            assert(lookup(pushed, key) == Some(fields[0].1@));
            assert(lookup(fields, key) == Some(fields[0].1@));
        } else {
            assert(lookup(pushed, key) == lookup(fields.drop_first().push(entry), key));
            assert(lookup(fields, key) == lookup(fields.drop_first(), key));
        }
    }
}

impl Payload {
    /// Unique keys: the well-formedness every constructor establishes.
    pub open spec fn wf(&self) -> bool {
        keys_unique(self.fields@)
    }

    /// What this payload maps the given key to.
    pub open spec fn spec_get(&self, key: Seq<char>) -> Option<Seq<char>> {
        lookup(self.fields@, key)
    }

    /// The empty payload.
    pub fn new() -> (r: Payload)
        ensures
            r.wf(),
            forall|k: Seq<char>| r.spec_get(k) is None,
    {
        let r = Payload { fields: Vec::new() };
        r
    }

    /// The value under a key, if any.
    pub fn get(&self, key: &str) -> (r: Option<String>)
        ensures
            match r {
                Some(v) => self.spec_get(key@) == Some(v@),
                None => self.spec_get(key@) is None,
            },
    {
        let n = self.fields.len();
        let mut i: usize = 0;
        while i < n
            invariant
                n == self.fields@.len(),
                0 <= i <= n,
                forall|j: int| 0 <= j < i ==> self.fields@[j].0@ != key@,
            decreases n - i,
        {
            if crate::strutil::str_eq(self.fields[i].0.as_str(), key) {
                proof {
                    lemma_lookup_prefix_hit(self.fields@, i as int, key@);
                }
                return Some(self.fields[i].1.clone());
            }
            i += 1;
        }
        proof {
            lemma_lookup_absent(self.fields@, key@);
        }
        None
    }

    /// Whether the key is present.
    pub fn has(&self, key: &str) -> (r: bool)
        ensures
            r == (self.spec_get(key@) is Some),
    {
        self.get(key).is_some()
    }

    /// Adds an entry, replacing the entry under the same key if one exists.
    pub fn set(&mut self, key: String, value: String)
        requires
            old(self).wf(),
        ensures
            final(self).wf(),
            final(self).spec_get(key@) == Some(value@),
            forall|k: Seq<char>| k != key@ ==> final(self).spec_get(k) == old(self).spec_get(k),
    {
        let n = self.fields.len();
        let mut i: usize = 0;
        while i < n
            invariant
                self.fields@ == old(self).fields@,
                keys_unique(self.fields@),
                n == self.fields@.len(),
                0 <= i <= n,
                forall|j: int| 0 <= j < i ==> self.fields@[j].0@ != key@,
            decreases n - i,
        {
            if crate::strutil::str_eq(self.fields[i].0.as_str(), key.as_str()) {
                let ghost before = self.fields@;
                self.fields.set(i, (key, value));
                proof {
                    lemma_set_entry(before, self.fields@, i as int);
                }
                return;
            }
            i += 1;
        }
        let ghost before = self.fields@;
        let ghost kv: (Seq<char>, Seq<char>) = (key@, value@);
        self.fields.push((key, value));
        proof {
            let entry = self.fields@[n as int];
            assert(entry.0@ == kv.0 && entry.1@ == kv.1);
            assert forall|k: Seq<char>| k != key@ implies lookup(self.fields@, k) == lookup(
                before,
                k,
            ) by {
                lemma_lookup_push(before, entry, k);
            }
            lemma_lookup_absent(before, key@);
            lemma_lookup_push(before, entry, key@);
            assert forall|p: int, q: int|
                0 <= p < q < self.fields@.len() implies self.fields@[p].0@
                != self.fields@[q].0@ by {
                if q == n as int {
                    assert(self.fields@[p] == before[p]);
                } else {
                    assert(self.fields@[p] == before[p]);
                    assert(self.fields@[q] == before[q]);
                }
            }
        }
    }

    /// A copy carrying the same fields.
    pub fn duplicate(&self) -> (r: Payload)
        ensures
            r.fields@ == self.fields@,
    {
        let mut fields: Vec<(String, String)> = Vec::new();
        let n = self.fields.len();
        let mut i: usize = 0;
        while i < n
            invariant
                n == self.fields@.len(),
                0 <= i <= n,
                fields@ == self.fields@.subrange(0, i as int),
            decreases n - i,
        {
            let entry = (self.fields[i].0.clone(), self.fields[i].1.clone());
            fields.push(entry);
            proof {
                assert(fields@ =~= self.fields@.subrange(0, i + 1));
            }
            i += 1;
        }
        proof {
            assert(fields@ =~= self.fields@);
        }
        Payload { fields }
    }

    /// The merge of a template payload with an event payload: event fields
    /// take precedence on key conflicts.
    pub fn merged(template: &Payload, event: &Payload) -> (r: Payload)
        requires
            template.wf(),
            event.wf(),
        ensures
            r.wf(),
            forall|k: Seq<char>|
                r.spec_get(k) == if event.spec_get(k) is Some {
                    event.spec_get(k)
                } else {
                    template.spec_get(k)
                },
    {
        let mut r = Payload { fields: Vec::new() };
        let n = template.fields.len();
        let mut i: usize = 0;
        while i < n
            invariant
                n == template.fields@.len(),
                0 <= i <= n,
                r.fields@ == template.fields@.subrange(0, i as int),
            decreases n - i,
        {
            let entry = (template.fields[i].0.clone(), template.fields[i].1.clone());
            r.fields.push(entry);
            proof {
                assert(r.fields@ =~= template.fields@.subrange(0, i + 1));
            }
            i += 1;
        }
        proof {
            assert(template.fields@.subrange(0, n as int) =~= template.fields@);
            assert(r.fields@ == template.fields@);
        }
        // Event fields override: setting them last gives them precedence.
        let m = event.fields.len();
        let mut j: usize = 0;
        while j < m
            invariant
                m == event.fields@.len(),
                event.wf(),
                r.wf(),
                0 <= j <= m,
                forall|k: Seq<char>|
                    #[trigger] lookup(r.fields@, k) == if lookup(
                        event.fields@.subrange(0, j as int),
                        k,
                    ) is Some {
                        lookup(event.fields@.subrange(0, j as int), k)
                    } else {
                        lookup(template.fields@, k)
                    },
            decreases m - j,
        {
            let key = event.fields[j].0.clone();
            let value = event.fields[j].1.clone();
            let ghost pre_fields = r.fields@;
            let ghost rpre: Payload = r;
            r.set(key, value);
            proof {
                assert forall|k: Seq<char>| #[trigger]
                    lookup(r.fields@, k) == (if lookup(
                        event.fields@.subrange(0, j + 1),
                        k,
                    ) is Some {
                        lookup(event.fields@.subrange(0, j + 1), k)
                    } else {
                        lookup(template.fields@, k)
                    }) by {
                    assert(r.spec_get(k) == lookup(r.fields@, k));
                    assert(rpre.spec_get(k) == lookup(pre_fields, k));
                    lemma_lookup_last_of_prefix(event.fields@, j as int, k);
                    if k == event.fields@[j as int].0@ {
                        assert(forall|p: int|
                            0 <= p < j ==> event.fields@.subrange(0, j as int)[p].0@ != k);
                        lemma_lookup_absent(event.fields@.subrange(0, j as int), k);
                    }
                }
            }
            j += 1;
        }
        proof {
            assert(event.fields@.subrange(0, m as int) =~= event.fields@);
        }
        r
    }
}

/// Finding a key at position `i` after missing it everywhere earlier pins
/// the lookup result.
proof fn lemma_lookup_prefix_hit(fields: Seq<(String, String)>, i: int, key: Seq<char>)
    requires
        0 <= i < fields.len(),
        fields[i].0@ == key,
        forall|j: int| 0 <= j < i ==> fields[j].0@ != key,
    ensures
        lookup(fields, key) == Some(fields[i].1@),
    decreases i,
{
    if i > 0 {
        lemma_lookup_prefix_hit(fields.drop_first(), i - 1, key);
    }
}

/// Replacing the entry at a position (key unchanged elsewhere) updates only
/// that key's image, and keeps keys unique when the new key equals the old.
proof fn lemma_set_entry(before: Seq<(String, String)>, after: Seq<(String, String)>, i: int)
    requires
        keys_unique(before),
        0 <= i < before.len(),
        after.len() == before.len(),
        forall|j: int| 0 <= j < before.len() && j != i ==> after[j] == before[j],
        after[i].0@ == before[i].0@,
    ensures
        keys_unique(after),
        lookup(after, after[i].0@) == Some(after[i].1@),
        forall|k: Seq<char>| k != after[i].0@ ==> lookup(after, k) == lookup(before, k),
{
    assert(keys_unique(after));
    lemma_lookup_present(after, i);
    assert forall|k: Seq<char>| k != after[i].0@ implies lookup(after, k) == lookup(
        before,
        k,
    ) by {
        lemma_lookup_agrees(before, after, i, k);
    }
}

/// Two lists that differ only in the value at one position agree on the
/// lookup of every other key.
proof fn lemma_lookup_agrees(
    before: Seq<(String, String)>,
    after: Seq<(String, String)>,
    i: int,
    k: Seq<char>,
)
    requires
        0 <= i < before.len(),
        after.len() == before.len(),
        forall|j: int| 0 <= j < before.len() && j != i ==> after[j] == before[j],
        after[i].0@ == before[i].0@,
        k != after[i].0@,
    ensures
        lookup(after, k) == lookup(before, k),
    decreases before.len(),
{
    if before.len() > 0 {
        if i == 0 {
            assert(after.drop_first() =~= before.drop_first());
        } else {
            lemma_lookup_agrees(before.drop_first(), after.drop_first(), i - 1, k);
        }
    }
}

/// The lookup in a one-longer prefix: the old prefix's result if it hits,
/// else the new entry if its key matches.
proof fn lemma_lookup_last_of_prefix(fields: Seq<(String, String)>, i: int, k: Seq<char>)
    requires
        0 <= i < fields.len(),
    ensures
        lookup(fields.subrange(0, i + 1), k) == if lookup(fields.subrange(0, i), k) is Some {
            lookup(fields.subrange(0, i), k)
        } else if fields[i].0@ == k {
            Some(fields[i].1@)
        } else {
            None
        },
{
    assert(fields.subrange(0, i + 1) =~= fields.subrange(0, i).push(fields[i]));
    lemma_lookup_push(fields.subrange(0, i), fields[i], k);
}

} // verus!
