use vstd::prelude::*;

use crate::error::RvError;
use crate::storage::{Storage, StorageEntry};

verus! {

/// What a sequence of records holds: a later record for a key replaces an
/// earlier one.
pub open spec fn records_map(s: Seq<StorageEntry>) -> Map<Seq<char>, Seq<u8>>
    decreases s.len(),
{
    if s.len() == 0 {
        Map::empty()
    } else {
        records_map(s.drop_last()).insert(s.last().key@, s.last().value@)
    }
}

/// A key present in the records is the key of one of them.
proof fn lemma_records_key(s: Seq<StorageEntry>, k: Seq<char>)
    requires
        records_map(s).contains_key(k),
    ensures
        exists|i: int| 0 <= i < s.len() && (#[trigger] s[i]).key@ == k,
    decreases s.len(),
{
    if s.last().key@ != k {
        lemma_records_key(s.drop_last(), k);
        let i = choose|i: int| 0 <= i < s.drop_last().len() && (#[trigger] s.drop_last()[i]).key@ == k;
        assert(s[i] == s.drop_last()[i]);
    } else {
        assert(s[s.len() - 1].key@ == k);
    }
}

/// Records after position `i` that do not hold key `k` leave its value as the
/// first `i` records give it.
proof fn lemma_records_suffix(s: Seq<StorageEntry>, i: int, k: Seq<char>)
    requires
        0 <= i <= s.len(),
        forall|j: int| i <= j < s.len() ==> (#[trigger] s[j]).key@ != k,
    ensures
        records_map(s).contains_key(k) == records_map(s.take(i)).contains_key(k),
        records_map(s).contains_key(k) ==> records_map(s)[k] == records_map(s.take(i))[k],
    decreases s.len() - i,
{
    if i < s.len() {
        let t = s.drop_last();
        assert forall|j: int| i <= j < t.len() implies (#[trigger] t[j]).key@ != k by {
            assert(t[j] == s[j]);
        }
        lemma_records_suffix(t, i, k);
        assert(t.take(i) =~= s.take(i));
        assert(s[s.len() - 1].key@ != k);
    } else {
        assert(s.take(i) =~= s);
    }
}

/// Relies on `str::strip_prefix`: the rest of `s` after `prefix`, where `s`
/// starts with it.
#[verifier::external_body]
fn strip_prefix(s: &str, prefix: &str) -> (r: Option<String>)
    ensures
        r is Some <==> prefix@.is_prefix_of(s@),
        r is Some ==> s@ == prefix@ + r->Some_0@,
{
    s.strip_prefix(prefix).map(|rest| rest.to_string())
}

/// Relies on `str::split_once` with `/`: where `s` holds a `/`, the part
/// before the first one, which holds none.
#[verifier::external_body]
pub(crate) fn split_once_slash(s: &str) -> (r: Option<String>)
    ensures
        r is None <==> !s@.contains('/'),
        r is Some ==> (r->Some_0@ + seq!['/']).is_prefix_of(s@) && !r->Some_0@.contains('/'),
{
    s.split_once('/').map(|(dir, _)| dir.to_string())
}

fn has_name(names: &Vec<String>, name: &String) -> (r: bool) {
    let mut i: usize = 0;
    while i < names.len()
        invariant
            i <= names@.len(),
        decreases names@.len() - i,
    {
        if names[i] == *name {
            return true;
        }
        i = i + 1;
    }
    false
}

fn copy_bytes(v: &Vec<u8>) -> (r: Vec<u8>)
    ensures
        r@ == v@,
{
    let mut out: Vec<u8> = Vec::new();
    let mut i: usize = 0;
    while i < v.len()
        invariant
            i <= v@.len(),
            out@ == v@.take(i as int),
        decreases v@.len() - i,
    {
        out.push(v[i]);
        proof {
            assert(out@ =~= v@.take(i + 1));
        }
        i = i + 1;
    }
    proof {
        assert(v@.take(v@.len() as int) =~= v@);
    }
    out
}

fn same_key(a: &String, b: &str) -> (r: bool)
    ensures
        r == (a@ == b@),
{
    let b = String::from_str(b);
    *a == b
}

fn copy_entry(e: &StorageEntry) -> (r: StorageEntry)
    ensures
        r.key@ == e.key@,
        r.value@ == e.value@,
{
    StorageEntry { key: e.key.clone(), value: copy_bytes(&e.value) }
}

/// A store held in memory, for tests and for embedding.
pub struct MemoryStorage {
    pub entries: Vec<StorageEntry>,
}

impl MemoryStorage {
    pub fn new() -> (r: MemoryStorage)
        ensures
            r.contents() == Map::<Seq<char>, Seq<u8>>::empty(),
    {
        MemoryStorage { entries: Vec::new() }
    }

    /// Number of records held, counting a replaced key once.
    pub fn len(&self) -> (r: usize)
        ensures
            r == self.entries@.len(),
    {
        self.entries.len()
    }

    fn remove_key(&mut self, key: &str)
        ensures
            final(self).contents() == old(self).contents().remove(key@),
    {
        let mut kept: Vec<StorageEntry> = Vec::new();
        let mut i: usize = 0;
        while i < self.entries.len()
            invariant
                i <= self.entries@.len(),
                self.entries == old(self).entries,
                records_map(kept@) == records_map(self.entries@.take(i as int)).remove(key@),
            decreases self.entries@.len() - i,
        {
            let e = &self.entries[i];
            proof {
                assert(self.entries@.take(i + 1).drop_last() =~= self.entries@.take(i as int));
            }
            proof {
                assert(self.entries@.take(i + 1).last() == self.entries@[i as int]);
            }
            if !same_key(&e.key, key) {
                let c = copy_entry(e);
                let ghost before = kept@;
                kept.push(c);
                proof {
                    assert(kept@.drop_last() =~= before);
                }
                assert(records_map(kept@) =~= records_map(self.entries@.take(i + 1)).remove(key@));
            } else {
                assert(records_map(kept@) =~= records_map(self.entries@.take(i + 1)).remove(key@));
            }
            i = i + 1;
        }
        proof {
            assert(self.entries@.take(self.entries@.len() as int) =~= self.entries@);
        }
        self.entries = kept;
    }
}

impl Storage for MemoryStorage {
    open spec fn contents(&self) -> Map<Seq<char>, Seq<u8>> {
        records_map(self.entries@)
    }

    /// Lists the children of `prefix`: the rest of each key below it up to
    /// and including its first `/`, each name once.
    fn list(&self, prefix: &str) -> (r: Result<Vec<String>, RvError>) {
        let mut names: Vec<String> = Vec::new();
        let mut i: usize = 0;
        while i < self.entries.len()
            invariant
                i <= self.entries@.len(),
                forall|j: int|
                    0 <= j < i && prefix@.is_prefix_of(#[trigger] self.entries@[j].key@)
                        && !self.entries@[j].key@.skip(prefix@.len() as int).contains('/') ==> exists|m: int|
                        0 <= m < names@.len() && prefix@ + names@[m]@ == self.entries@[j].key@,
            decreases self.entries@.len() - i,
        {
            match strip_prefix(self.entries[i].key.as_str(), prefix) {
                Some(rest) => {
                    let ghost before = names@;
                    proof {
                        assert(self.entries@[i as int].key@.skip(prefix@.len() as int) =~= rest@);
                    }
                    match split_once_slash(rest.as_str()) {
                        None => {
                            names.push(rest);
                        },
                        Some(head) => {
                            let mut dir = head;
                            dir.append("/");
                            if !has_name(&names, &dir) {
                                names.push(dir);
                            }
                        },
                    }
                    proof {
                        assert forall|j: int|
                            0 <= j < i + 1 && prefix@.is_prefix_of(#[trigger] self.entries@[j].key@)
                                && !self.entries@[j].key@.skip(prefix@.len() as int).contains(
                                '/',
                            ) implies exists|m: int|
                            0 <= m < names@.len() && prefix@ + names@[m]@ == self.entries@[j].key@ by {
                            if j < i {
                                let m = choose|m: int|
                                    0 <= m < before.len() && prefix@ + before[m]@ == self.entries@[j].key@;
                                assert(names@[m] == before[m]);
                            } else {
                                assert(prefix@ + names@[names@.len() - 1]@ == self.entries@[j].key@);
                            }
                        }
                    }
                },
                None => {},
            }
            i = i + 1;
        }
        let r: Result<Vec<String>, RvError> = Ok(names);
        proof {
            let names = r->Ok_0;
            assert forall|s: Seq<char>|
                #![trigger self.contents().contains_key(prefix@ + s)]
                self.contents().contains_key(prefix@ + s) && !s.contains('/') implies exists|i: int|
                0 <= i < names.len() && #[trigger] names[i]@ == s by {
                lemma_records_key(self.entries@, prefix@ + s);
                let j = choose|j: int| 0 <= j < self.entries@.len() && (#[trigger] self.entries@[j]).key@ == prefix@
                    + s;
                assert(prefix@.is_prefix_of(prefix@ + s)) by {
                    assert((prefix@ + s).subrange(0, prefix@.len() as int) =~= prefix@);
                }
                assert((prefix@ + s).skip(prefix@.len() as int) =~= s);
                let m = choose|m: int| 0 <= m < names@.len() && prefix@ + names@[m]@ == self.entries@[j].key@;
                assert(names@[m]@ =~= s) by {
                    assert((prefix@ + names@[m]@).subrange(prefix@.len() as int, (prefix@ + s).len() as int)
                        =~= names@[m]@);
                    assert((prefix@ + s).subrange(prefix@.len() as int, (prefix@ + s).len() as int) =~= s);
                }
                assert(0 <= m < names.len() && names[m]@ == s);
            }
        }
        r
    }

    fn get(&self, key: &str) -> (r: Result<Option<StorageEntry>, RvError>) {
        let mut i: usize = self.entries.len();
        while i > 0
            invariant
                i <= self.entries@.len(),
                forall|j: int| i <= j < self.entries@.len() ==> (#[trigger] self.entries@[j]).key@ != key@,
            decreases i,
        {
            if same_key(&self.entries[i - 1].key, key) {
                proof {
                    let s = self.entries@;
                    lemma_records_suffix(s, i as int, key@);
                    assert(s.take(i as int).drop_last() =~= s.take(i - 1));
                    assert(s.take(i as int).last() == s[i - 1]);
                }
                return Ok(Some(copy_entry(&self.entries[i - 1])));
            }
            i = i - 1;
        }
        proof {
            lemma_records_suffix(self.entries@, 0, key@);
            assert(self.entries@.take(0) =~= Seq::<StorageEntry>::empty());
        }
        Ok(None)
    }

    fn put(&mut self, entry: &StorageEntry) -> (r: Result<(), RvError>) {
        self.remove_key(entry.key.as_str());
        let c = copy_entry(entry);
        let ghost mid = self.entries@;
        self.entries.push(c);
        proof {
            assert(self.entries@.drop_last() =~= mid);
            assert(records_map(self.entries@) =~= old(self).contents().insert(entry.key@, entry.value@));
        }
        Ok(())
    }

    fn delete(&mut self, key: &str) -> (r: Result<(), RvError>) {
        self.remove_key(key);
        Ok(())
    }
}

} // verus!
