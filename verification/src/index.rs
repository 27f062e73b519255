//! The tag index: which tags each file has.
use vstd::prelude::*;
use crate::stringset::StringSet;
use crate::pathkey::{path_key, path_key_spec};

verus! {

/// A tag: a string of the user's choice.
pub type YxTag = String;

/// The tags of one file.
#[derive(Debug)]
pub struct YxFileRecord {
    pub tags: StringSet,
}

impl View for YxFileRecord {
    type V = Set<Seq<char>>;

    open spec fn view(&self) -> Set<Seq<char>> {
        self.tags@
    }
}

impl YxFileRecord {
    /// The tag set holds no repeats.
    pub open spec fn wf(&self) -> bool {
        self.tags.wf()
    }

    /// The record of a file with the one tag `tag`.
    pub fn new(tag: YxTag) -> (r: YxFileRecord)
        ensures
            r.wf(),
            r@ == set![tag@],
    {
        let mut tags = StringSet::new();
        tags.insert(tag);
        let r = YxFileRecord { tags };
        assert(r@ =~= set![tag@]);
        r
    }

    /// A copy of the record.
    pub fn copy(&self) -> (r: YxFileRecord)
        ensures
            r@ == self@,
            r.wf() == self.wf(),
    {
        YxFileRecord { tags: self.tags.copy() }
    }
}

/// One entry of the index: a path and the tags of the file there.
pub type YxIndexKV = (String, YxFileRecord);

/// The index: a map from paths (relative to the index file) to the tags of
/// the file at each path. The entries are kept in a vector, each path once;
/// two spellings of a path with the same components are one path.
#[derive(Debug)]
pub struct YxIndex {
    pub entries: Vec<YxIndexKV>,
}

/// The key of an entry: its path by components, so that two ways of
/// writing the same path are one key.
pub open spec fn entry_key(e: YxIndexKV) -> Seq<char> {
    path_key_spec(e.0@)
}

/// The keys of a sequence of entries.
pub open spec fn entry_keys(entries: Seq<YxIndexKV>) -> Seq<Seq<char>> {
    entries.map_values(|e: YxIndexKV| entry_key(e))
}

/// The map that a sequence of entries with distinct paths stands for.
pub open spec fn entries_map(entries: Seq<YxIndexKV>) -> Map<Seq<char>, Set<Seq<char>>> {
    Map::new(
        |k: Seq<char>| entry_keys(entries).contains(k),
        |k: Seq<char>| entries[entry_keys(entries).index_of(k)].1@,
    )
}

/// No path occurs twice among the entries (by its components), and every
/// record is well formed.
pub open spec fn entries_wf(entries: Seq<YxIndexKV>) -> bool {
    &&& entry_keys(entries).no_duplicates()
    &&& forall|i: int| 0 <= i < entries.len() ==> (#[trigger] entries[i]).1.wf()
}

impl View for YxIndex {
    type V = Map<Seq<char>, Set<Seq<char>>>;

    open spec fn view(&self) -> Map<Seq<char>, Set<Seq<char>>> {
        entries_map(self.entries@)
    }
}

/// Each entry of a well-formed sequence is found in its map under its path.
pub proof fn lemma_entries_map(entries: Seq<YxIndexKV>)
    requires
        entries_wf(entries),
    ensures
        forall|i: int|
            0 <= i < entries.len() ==> {
                &&& #[trigger] entries_map(entries).contains_key(entry_key(entries[i]))
                &&& entries_map(entries)[entry_key(entries[i])] == entries[i].1@
            },
        forall|k: Seq<char>|
            #[trigger] entries_map(entries).contains_key(k) <==> entry_keys(entries).contains(k),
{
    assert forall|i: int| 0 <= i < entries.len() implies {
        &&& #[trigger] entries_map(entries).contains_key(entry_key(entries[i]))
        &&& entries_map(entries)[entry_key(entries[i])] == entries[i].1@
    } by {
        let keys = entry_keys(entries);
        assert(keys[i] == entry_key(entries[i]));
        assert(keys.contains(entry_key(entries[i])));
        let j = keys.index_of(entry_key(entries[i]));
        assert(keys[j] == keys[i]);
    }
}

/// The entry at `i` of a well-formed sequence is found in its map.
pub proof fn lemma_entry_at(entries: Seq<YxIndexKV>, i: int)
    requires
        entries_wf(entries),
        0 <= i < entries.len(),
    ensures
        entries_map(entries).contains_key(entry_key(entries[i])),
        entries_map(entries)[entry_key(entries[i])] == entries[i].1@,
{
    let keys = entry_keys(entries);
    assert(keys[i] == entry_key(entries[i]));
    assert(keys.contains(entry_key(entries[i])));
    let j = keys.index_of(entry_key(entries[i]));
    assert(0 <= j < keys.len() && keys[j] == keys[i]);
    assert(j == i);
}

impl YxIndex {
    /// Every path once, every record well formed.
    pub open spec fn wf(&self) -> bool {
        entries_wf(self.entries@)
    }

    /// The empty index.
    pub fn new() -> (r: YxIndex)
        ensures
            r.wf(),
            r@ == Map::<Seq<char>, Set<Seq<char>>>::empty(),
    {
        let r = YxIndex { entries: Vec::new() };
        assert(r@ =~= Map::<Seq<char>, Set<Seq<char>>>::empty());
        r
    }

    /// A copy of the index, with its entries in the same order.
    pub fn copy(&self) -> (r: YxIndex)
        requires
            self.wf(),
        ensures
            r.wf(),
            r@ == self@,
    {
        let mut entries: Vec<YxIndexKV> = Vec::new();
        let mut i: usize = 0;
        while i < self.entries.len()
            invariant
                self.wf(),
                i <= self.entries@.len(),
                entries@.len() == i,
                forall|j: int|
                    0 <= j < i ==> (#[trigger] entries@[j]).0@ == self.entries@[j].0@
                        && entries@[j].1@ == self.entries@[j].1@ && entries@[j].1.wf(),
            decreases self.entries@.len() - i,
        {
            let k = self.entries[i].0.clone();
            let rec = self.entries[i].1.copy();
            entries.push((k, rec));
            i = i + 1;
        }
        let r = YxIndex { entries };
        assert(entry_keys(r.entries@) =~= entry_keys(self.entries@));
        assert(r@ =~= self@);
        r
    }

    /// Where the entry for `key` stands, if there is one: the entry whose
    /// path has the components of `key`.
    pub fn find(&self, key: &str) -> (r: Option<usize>)
        requires
            self.wf(),
        ensures
            match r {
                Some(i) => i < self.entries@.len() && entry_key(self.entries@[i as int])
                    == path_key_spec(key@),
                None => !self@.contains_key(path_key_spec(key@)),
            },
    {
        let k = path_key(key);
        let mut i: usize = 0;
        while i < self.entries.len()
            invariant
                k@ == path_key_spec(key@),
                i <= self.entries@.len(),
                forall|j: int| 0 <= j < i ==> entry_key(self.entries@[j]) != path_key_spec(key@),
            decreases self.entries@.len() - i,
        {
            if path_key(self.entries[i].0.as_str()) == k {
                return Some(i);
            }
            i = i + 1;
        }
        proof {
            if self@.contains_key(path_key_spec(key@)) {
                let j = choose|j: int|
                    0 <= j < entry_keys(self.entries@).len() && entry_keys(self.entries@)[j]
                        == path_key_spec(key@);
                assert(entry_key(self.entries@[j]) == path_key_spec(key@));
            }
        }
        None
    }

    /// Whether `key` has an entry.
    pub fn contains_key(&self, key: &str) -> (r: bool)
        requires
            self.wf(),
        ensures
            r == self@.contains_key(path_key_spec(key@)),
    {
        proof {
            lemma_entries_map(self.entries@);
        }
        self.find(key).is_some()
    }

    /// The record of `key`, if there is one.
    pub fn get(&self, key: &str) -> (r: Option<&YxFileRecord>)
        requires
            self.wf(),
        ensures
            match r {
                Some(rec) => self@.contains_key(path_key_spec(key@)) && rec@ == self@[path_key_spec(key@)] && rec.wf(),
                None => !self@.contains_key(path_key_spec(key@)),
            },
    {
        proof {
            lemma_entries_map(self.entries@);
        }
        match self.find(key) {
            Some(i) => {
                proof {
                    lemma_entry_at(self.entries@, i as int);
                }
                Some(&self.entries[i].1)
            },
            None => None,
        }
    }

    /// The number of entries.
    pub fn len(&self) -> (r: usize)
        requires
            self.wf(),
        ensures
            r == self@.len(),
    {
        proof {
            lemma_entries_map(self.entries@);
            let keys = entry_keys(self.entries@);
            keys.unique_seq_to_set();
            assert(self@.dom() =~= keys.to_set());
        }
        self.entries.len()
    }

    /// Sets the record of `key` to `rec`. When the path already has an
    /// entry, the entry keeps the spelling it was stored under.
    pub fn insert(&mut self, key: String, rec: YxFileRecord)
        requires
            old(self).wf(),
            rec.wf(),
        ensures
            final(self).wf(),
            final(self)@ == old(self)@.insert(path_key_spec(key@), rec@),
            forall|i: int|
                0 <= i < old(self).entries@.len() ==> #[trigger] final(self).entries@[i].0
                    == old(self).entries@[i].0,
            old(self)@.contains_key(path_key_spec(key@)) ==> final(self).entries@.len()
                == old(self).entries@.len(),
            !old(self)@.contains_key(path_key_spec(key@)) ==> final(self).entries@ == old(
                self,
            ).entries@.push((key, rec)),
    {
        let ghost kv = path_key_spec(key@);
        let ghost rv = rec@;
        proof {
            lemma_entries_map(old(self).entries@);
        }
        match self.find(key.as_str()) {
            Some(i) => {
                let kept_key = self.entries[i].0.clone();
                self.entries.set(i, (kept_key, rec));
                assert(entry_keys(self.entries@) =~= entry_keys(old(self).entries@));
                proof {
                    lemma_entries_map(self.entries@);
                }
                assert forall|k: Seq<char>| #[trigger]
                    self@.contains_key(k) implies self@[k] == old(self)@.insert(kv, rv)[k] by {
                    let j = choose|j: int|
                        0 <= j < entry_keys(self.entries@).len() && entry_keys(self.entries@)[j]
                            == k;
                    assert(entry_key(self.entries@[j]) == k);
                    lemma_entry_at(self.entries@, j);
                    if j != i {
                        assert(entry_key(old(self).entries@[j]) == k);
                        assert(entry_keys(old(self).entries@)[j] != entry_keys(
                            old(self).entries@,
                        )[i as int]);
                        lemma_entry_at(old(self).entries@, j);
                    } else {
                        assert(self.entries@[j].1@ == rv);
                    }
                }
                assert(self@ =~= old(self)@.insert(kv, rv));
            },
            None => {
                self.entries.push((key, rec));
                assert(entry_keys(self.entries@) =~= entry_keys(old(self).entries@).push(kv));
                assert(!entry_keys(old(self).entries@).contains(kv));
                assert(entries_wf(self.entries@));
                proof {
                    lemma_entries_map(self.entries@);
                }
                assert forall|k: Seq<char>| #[trigger]
                    self@.contains_key(k) implies self@[k] == old(self)@.insert(kv, rv)[k] by {
                    let j = choose|j: int|
                        0 <= j < entry_keys(self.entries@).len() && entry_keys(self.entries@)[j]
                            == k;
                    assert(entry_key(self.entries@[j]) == k);
                    lemma_entry_at(self.entries@, j);
                    if j < old(self).entries@.len() {
                        assert(entry_key(old(self).entries@[j]) == k);
                        lemma_entry_at(old(self).entries@, j);
                    }
                }
                assert forall|k: Seq<char>| #[trigger]
                    old(self)@.insert(kv, rv).contains_key(k) implies self@.contains_key(k) by {
                    if k != kv {
                        let j = choose|j: int|
                            0 <= j < entry_keys(old(self).entries@).len() && entry_keys(
                                old(self).entries@,
                            )[j] == k;
                        assert(entry_key(self.entries@[j]) == k);
                    } else {
                        assert(entry_key(self.entries@[old(self).entries@.len() as int]) == k);
                    }
                }
                assert(self@ =~= old(self)@.insert(kv, rv));
            },
        }
    }

    /// Takes the entry of `key` out and hands its record back.
    pub fn remove(&mut self, key: &str) -> (r: Option<YxFileRecord>)
        requires
            old(self).wf(),
        ensures
            final(self).wf(),
            final(self)@ == old(self)@.remove(path_key_spec(key@)),
            match r {
                Some(rec) => old(self)@.contains_key(path_key_spec(key@)) && rec@ == old(self)@[path_key_spec(key@)] && rec.wf(),
                None => !old(self)@.contains_key(path_key_spec(key@)),
            },
    {
        proof {
            lemma_entries_map(old(self).entries@);
        }
        match self.find(key) {
            Some(i) => {
                proof {
                    lemma_entry_at(old(self).entries@, i as int);
                }
                let (_k, rec) = self.entries.remove(i);
                assert(entry_keys(self.entries@) =~= entry_keys(old(self).entries@).remove(
                    i as int,
                ));
                assert(entries_wf(self.entries@)) by {
                    assert forall|a: int, b: int|
                        0 <= a < b < entry_keys(self.entries@).len() implies entry_keys(
                        self.entries@,
                    )[a] != entry_keys(self.entries@)[b] by {
                        let a2 = if a < i {
                            a
                        } else {
                            a + 1
                        };
                        let b2 = if b < i {
                            b
                        } else {
                            b + 1
                        };
                        assert(entry_keys(self.entries@)[a] == entry_keys(old(self).entries@)[a2]);
                        assert(entry_keys(self.entries@)[b] == entry_keys(old(self).entries@)[b2]);
                    }
                    assert forall|j: int| 0 <= j < self.entries@.len() implies (
                    #[trigger] self.entries@[j]).1.wf() by {
                        if j < i {
                            assert(self.entries@[j] == old(self).entries@[j]);
                        } else {
                            assert(self.entries@[j] == old(self).entries@[j + 1]);
                        }
                    }
                }
                proof {
                    lemma_entries_map(self.entries@);
                }
                assert forall|k: Seq<char>| #[trigger]
                    self@.contains_key(k) implies old(self)@.remove(path_key_spec(key@)).contains_key(k)
                    && self@[k] == old(self)@.remove(path_key_spec(key@))[k] by {
                    let j = choose|j: int|
                        0 <= j < entry_keys(self.entries@).len() && entry_keys(self.entries@)[j]
                            == k;
                    let j2 = if j < i {
                        j
                    } else {
                        j + 1
                    };
                    assert(self.entries@[j] == old(self).entries@[j2]);
                    assert(entry_key(old(self).entries@[j2]) == k);
                    lemma_entry_at(self.entries@, j);
                    lemma_entry_at(old(self).entries@, j2);
                    assert(entry_keys(old(self).entries@)[j2] != entry_keys(old(self).entries@)[i as int]);
                }
                assert forall|k: Seq<char>| #[trigger]
                    old(self)@.remove(path_key_spec(key@)).contains_key(k) implies self@.contains_key(k) by {
                    let j = choose|j: int|
                        0 <= j < entry_keys(old(self).entries@).len() && entry_keys(
                            old(self).entries@,
                        )[j] == k;
                    assert(j != i);
                    if j < i {
                        assert(entry_key(self.entries@[j]) == k);
                    } else {
                        assert(entry_key(self.entries@[j - 1]) == k);
                    }
                }
                assert(self@ =~= old(self)@.remove(path_key_spec(key@)));
                Some(rec)
            },
            None => {
                assert(self@ =~= old(self)@.remove(path_key_spec(key@)));
                None
            },
        }
    }
}

} // verus!
