//! The edits and queries behind the subcommands: adding and removing tags,
//! moving, copying and merging the tags of files, and listing tags.
use vstd::prelude::*;
use crate::classes::ProgramState;
use crate::error::YxError;
use crate::index::{
    YxFileRecord,
    YxIndex,
    YxIndexKV,
    YxTag,
    entries_map,
    entries_wf,
    entry_key,
    entry_keys,
    lemma_entry_at,
};
use crate::pathkey::{path_key_spec, same_path};
use crate::paths::{is_absolute_path, path_relative_to_index, relative_to_index_spec};
use crate::stringset::StringSet;
use crate::text::{strings_view, strs_view};

verus! {

/// The index as a map from paths to tag sets.
pub type IndexView = Map<Seq<char>, Set<Seq<char>>>;

/// The tags given as string slices, as a set.
pub open spec fn tags_set(tags: Seq<&str>) -> Set<Seq<char>> {
    strs_view(tags).to_set()
}

/// The index after `tags` are added to the file at `rel`; a file that had
/// no entry gets one with just these tags.
pub open spec fn add_tags_spec(m: IndexView, rel: Seq<char>, tags: Set<Seq<char>>) -> IndexView {
    if m.contains_key(rel) {
        m.insert(rel, m[rel].union(tags))
    } else {
        m.insert(rel, tags)
    }
}

/// The index after `tags` are taken from the file at `rel`; nothing
/// changes when the file has no entry.
pub open spec fn rm_tags_spec(m: IndexView, rel: Seq<char>, tags: Set<Seq<char>>) -> IndexView {
    if m.contains_key(rel) {
        m.insert(rel, m[rel].difference(tags))
    } else {
        m
    }
}

/// The index after the entry of `o` is moved to `n`.
pub open spec fn move_tags_spec(m: IndexView, o: Seq<char>, n: Seq<char>) -> IndexView {
    if m.contains_key(o) {
        m.remove(o).insert(n, m[o])
    } else {
        m
    }
}

/// The index after the tags of `o` overwrite those of `n`.
pub open spec fn copy_tags_spec(m: IndexView, o: Seq<char>, n: Seq<char>) -> IndexView {
    if m.contains_key(o) {
        m.insert(n, m[o])
    } else {
        m
    }
}

/// Both paths have entries and they are two different paths.
pub open spec fn two_files(m: IndexView, o: Seq<char>, n: Seq<char>) -> bool {
    m.contains_key(o) && m.contains_key(n) && o != n
}

/// The index after `n` gets every tag of `o` as well.
pub open spec fn append_tags_spec(m: IndexView, o: Seq<char>, n: Seq<char>) -> IndexView {
    if two_files(m, o, n) {
        m.insert(n, m[n].union(m[o]))
    } else {
        m
    }
}

/// The index after `n` gets every tag of `o`, and `o` loses all of them.
pub open spec fn append_tags_rm_old_spec(m: IndexView, o: Seq<char>, n: Seq<char>) -> IndexView {
    if two_files(m, o, n) {
        m.insert(n, m[n].union(m[o])).insert(o, Set::empty())
    } else {
        m
    }
}

/// Every tag that some file has.
pub open spec fn all_tags(m: IndexView) -> Set<Seq<char>> {
    Set::new(|t: Seq<char>| exists|k: Seq<char>| m.contains_key(k) && #[trigger] m[k].contains(t))
}

/// The number of files that have the tag `t`.
pub open spec fn tag_count(m: IndexView, t: Seq<char>) -> nat {
    m.dom().filter(|k: Seq<char>| m[k].contains(t)).len()
}

/// The number of entries in `entries` whose record has the tag `t`.
pub open spec fn count_entries(entries: Seq<YxIndexKV>, t: Seq<char>) -> nat
    decreases entries.len(),
{
    if entries.len() == 0 {
        0
    } else {
        count_entries(entries.drop_last(), t) + (if entries.last().1@.contains(t) {
            1nat
        } else {
            0nat
        })
    }
}

/// Dropping the last entry of a well-formed sequence takes its path out of
/// the map and leaves the rest as it was.
pub proof fn lemma_entries_map_drop_last(entries: Seq<YxIndexKV>)
    requires
        entries_wf(entries),
        entries.len() > 0,
    ensures
        entries_wf(entries.drop_last()),
        !entries_map(entries.drop_last()).contains_key(entry_key(entries.last())),
        entries_map(entries) == entries_map(entries.drop_last()).insert(
            entry_key(entries.last()),
            entries.last().1@,
        ),
{
    let s = entries.drop_last();
    let n = entries.len() - 1;
    assert(entry_keys(s) =~= entry_keys(entries).drop_last());
    assert(entries_wf(s)) by {
        assert forall|j: int| 0 <= j < s.len() implies (#[trigger] s[j]).1.wf() by {
            assert(s[j] == entries[j]);
        }
    }
    if entries_map(s).contains_key(entry_key(entries.last())) {
        let j = choose|j: int| 0 <= j < entry_keys(s).len() && entry_keys(s)[j] == entry_key(entries.last());
        assert(entry_keys(entries)[j] == entry_keys(entries)[n]);
    }
    let big = entries_map(entries);
    let small = entries_map(s).insert(entry_key(entries.last()), entries.last().1@);
    assert forall|k: Seq<char>| big.contains_key(k) <==> small.contains_key(k) by {
        if big.contains_key(k) {
            let j = choose|j: int|
                0 <= j < entry_keys(entries).len() && entry_keys(entries)[j] == k;
            if j < n {
                assert(entry_keys(s)[j] == k);
            }
        }
        if entries_map(s).contains_key(k) {
            let j = choose|j: int| 0 <= j < entry_keys(s).len() && entry_keys(s)[j] == k;
            assert(entry_keys(entries)[j] == k);
        }
        if k == entry_key(entries.last()) {
            assert(entry_keys(entries)[n] == k);
        }
    }
    assert forall|k: Seq<char>| big.contains_key(k) implies big[k] == small[k] by {
        let j = choose|j: int| 0 <= j < entry_keys(entries).len() && entry_keys(entries)[j] == k;
        assert(entry_key(entries[j]) == k);
        lemma_entry_at(entries, j);
        if j < n {
            assert(s[j] == entries[j]);
            lemma_entry_at(s, j);
        }
    }
    assert(big =~= small);
}

/// The count over the entries is the number of files in the map that have
/// the tag.
pub proof fn lemma_count_entries(entries: Seq<YxIndexKV>, t: Seq<char>)
    requires
        entries_wf(entries),
    ensures
        entries_map(entries).dom().finite(),
        count_entries(entries, t) == tag_count(entries_map(entries), t),
    decreases entries.len(),
{
    let m = entries_map(entries);
    if entries.len() == 0 {
        assert(m.dom() =~= Set::<Seq<char>>::empty());
        assert(m.dom().filter(|k: Seq<char>| m[k].contains(t)) =~= Set::<Seq<char>>::empty());
    } else {
        let s = entries.drop_last();
        lemma_entries_map_drop_last(entries);
        lemma_count_entries(s, t);
        let ms = entries_map(s);
        let k0 = entry_key(entries.last());
        assert(m.dom() =~= ms.dom().insert(k0));
        let fs = ms.dom().filter(|k: Seq<char>| ms[k].contains(t));
        let f = m.dom().filter(|k: Seq<char>| m[k].contains(t));
        assert(!fs.contains(k0));
        if entries.last().1@.contains(t) {
            assert(f =~= fs.insert(k0));
        } else {
            assert(f =~= fs);
        }
    }
}

/// The state after the index has become `m`, all else as it was.
pub open spec fn index_became(old_st: ProgramState, new_st: ProgramState, m: IndexView) -> bool {
    &&& new_st.wf()
    &&& new_st.index@ == m
    &&& new_st.constraints == old_st.constraints
    &&& new_st.ignores == old_st.ignores
}

/// Adds `tags` to the file at `rel` (a path relative to the index).
pub fn add_tags_at(state: &mut ProgramState, rel: String, tags: &[&str])
    requires
        old(state).wf(),
    ensures
        index_became(
            *old(state),
            *final(state),
            add_tags_spec(old(state).index@, path_key_spec(rel@), tags_set(tags@)),
        ),
{
    let added = StringSet::from_strs(tags);
    let rec = match state.index.remove(rel.as_str()) {
        Some(mut rec) => {
            rec.tags.extend(&added);
            rec
        },
        None => YxFileRecord { tags: added },
    };
    state.index.insert(rel, rec);
    assert(state.index@ =~= add_tags_spec(old(state).index@, path_key_spec(rel@), tags_set(tags@)));
}

/// Adds `tags` to the file at `path`, which is first written relative to
/// the index file `index_path`.
pub fn add_tags_to(
    state: &mut ProgramState,
    path: &str,
    tags: &[&str],
    cwd: &str,
    index_path: &str,
) -> (r: Result<(), YxError>)
    requires
        old(state).wf(),
        is_absolute_path(cwd@),
    ensures
        match relative_to_index_spec(path@, cwd@, index_path@) {
            Ok(rel) => r is Ok && index_became(
                *old(state),
                *final(state),
                add_tags_spec(old(state).index@, path_key_spec(rel), tags_set(tags@)),
            ),
            Err(e) => r == Err::<(), YxError>(e) && *final(state) == *old(state),
        },
{
    let rel = match path_relative_to_index(path, cwd, index_path) {
        Ok(rel) => rel,
        Err(e) => return Err(e),
    };
    add_tags_at(state, rel, tags);
    Ok(())
}

/// Takes `tags` from the file at `rel` (a path relative to the index).
pub fn rm_tags_at(state: &mut ProgramState, rel: &str, tags: &[&str])
    requires
        old(state).wf(),
    ensures
        index_became(
            *old(state),
            *final(state),
            rm_tags_spec(old(state).index@, path_key_spec(rel@), tags_set(tags@)),
        ),
{
    match state.index.remove(rel) {
        Some(mut rec) => {
            let ghost before = rec@;
            let mut i: usize = 0;
            while i < tags.len()
                invariant
                    rec.wf(),
                    i <= tags@.len(),
                    rec@ == before.difference(tags_set(tags@.take(i as int))),
                decreases tags@.len() - i,
            {
                rec.tags.remove(tags[i]);
                assert(tags@.take(i + 1) =~= tags@.take(i as int).push(tags@[i as int]));
                assert(tags_set(tags@.take(i + 1)) =~= tags_set(tags@.take(i as int)).insert(
                    tags@[i as int]@,
                )) by {
                    assert(strs_view(tags@.take(i + 1)) =~= strs_view(tags@.take(
                        i as int,
                    )).push(tags@[i as int]@));
                    strs_view(tags@.take(i as int)).lemma_push_to_set_commute(
                        tags@[i as int]@,
                    );
                }
                i = i + 1;
                assert(rec@ =~= before.difference(tags_set(tags@.take(i as int))));
            }
            assert(tags@.take(tags@.len() as int) =~= tags@);
            state.index.insert(rel.to_owned(), rec);
            assert(state.index@ =~= rm_tags_spec(old(state).index@, path_key_spec(rel@), tags_set(tags@)));
        },
        None => {
            assert(state.index@ =~= old(state).index@);
        },
    }
}

/// Takes `tags` from the file at `path`, which is first written relative
/// to the index file `index_path`. Nothing changes when the file has no
/// entry; whether it had the tags is not checked.
pub fn rm_tags_from(
    state: &mut ProgramState,
    path: &str,
    tags: &[&str],
    cwd: &str,
    index_path: &str,
) -> (r: Result<(), YxError>)
    requires
        old(state).wf(),
        is_absolute_path(cwd@),
    ensures
        match relative_to_index_spec(path@, cwd@, index_path@) {
            Ok(rel) => r is Ok && index_became(
                *old(state),
                *final(state),
                rm_tags_spec(old(state).index@, path_key_spec(rel), tags_set(tags@)),
            ),
            Err(e) => r == Err::<(), YxError>(e) && *final(state) == *old(state),
        },
{
    let rel = match path_relative_to_index(path, cwd, index_path) {
        Ok(rel) => rel,
        Err(e) => return Err(e),
    };
    rm_tags_at(state, rel.as_str(), tags);
    Ok(())
}

/// Whether the file at `path` has the tag `tag`; an error when the file
/// has no entry.
pub fn file_has_tag(
    state: &ProgramState,
    path: &str,
    tag: &str,
    cwd: &str,
    index_path: &str,
) -> (r: Result<bool, YxError>)
    requires
        state.wf(),
        is_absolute_path(cwd@),
    ensures
        match relative_to_index_spec(path@, cwd@, index_path@) {
            Ok(rel) => if state.index@.contains_key(path_key_spec(rel)) {
                r == Ok::<bool, YxError>(state.index@[path_key_spec(rel)].contains(tag@))
            } else {
                r == Err::<bool, YxError>(YxError::FileNotInIndex)
            },
            Err(e) => r == Err::<bool, YxError>(e),
        },
{
    let rel = match path_relative_to_index(path, cwd, index_path) {
        Ok(rel) => rel,
        Err(e) => return Err(e),
    };
    match state.index.get(rel.as_str()) {
        Some(rec) => Ok(rec.tags.contains(tag)),
        None => Err(YxError::FileNotInIndex),
    }
}

/// Moves the tags of `path_o` to `path_n`; says whether `path_o` had an
/// entry (when it had none, nothing changes).
pub fn move_tags(state: &mut ProgramState, path_o: &str, path_n: String) -> (r: bool)
    requires
        old(state).wf(),
    ensures
        r == old(state).index@.contains_key(path_key_spec(path_o@)),
        index_became(
            *old(state),
            *final(state),
            move_tags_spec(old(state).index@, path_key_spec(path_o@), path_key_spec(path_n@)),
        ),
{
    match state.index.remove(path_o) {
        Some(val) => {
            state.index.insert(path_n, val);
            true
        },
        None => {
            assert(state.index@ =~= old(state).index@);
            false
        },
    }
}

/// Overwrites the tags of `path_n` with those of `path_o`; says whether
/// `path_o` had an entry (when it had none, nothing changes).
pub fn copy_tags(state: &mut ProgramState, path_o: &str, path_n: String) -> (r: bool)
    requires
        old(state).wf(),
    ensures
        r == old(state).index@.contains_key(path_key_spec(path_o@)),
        index_became(
            *old(state),
            *final(state),
            copy_tags_spec(old(state).index@, path_key_spec(path_o@), path_key_spec(path_n@)),
        ),
{
    let copied = match state.index.get(path_o) {
        Some(val) => Some(val.copy()),
        None => None,
    };
    match copied {
        Some(val) => {
            state.index.insert(path_n, val);
            true
        },
        None => false,
    }
}

/// What to do with the records of two files.
pub enum TwoFileAction {
    /// The second file gets every tag of the first.
    Append,
    /// The second file gets every tag of the first, which loses them all.
    AppendRemoveOld,
}

/// Applies `action` to the records of `path_o` and `path_n` when both
/// have entries and are two different paths; says whether it did.
fn get_tags_of_two_files_and_then(
    state: &mut ProgramState,
    path_o: &str,
    path_n: &str,
    action: TwoFileAction,
) -> (r: bool)
    requires
        old(state).wf(),
    ensures
        r == two_files(old(state).index@, path_key_spec(path_o@), path_key_spec(path_n@)),
        index_became(
            *old(state),
            *final(state),
            match action {
                TwoFileAction::Append => append_tags_spec(old(state).index@, path_key_spec(path_o@), path_key_spec(path_n@)),
                TwoFileAction::AppendRemoveOld => append_tags_rm_old_spec(
                    old(state).index@,
                    path_key_spec(path_o@),
                    path_key_spec(path_n@),
                ),
            },
        ),
{
    if !state.index.contains_key(path_o) || !state.index.contains_key(path_n) || same_path(path_o, path_n) {
        return false;
    }
    let mut rec_o = match state.index.remove(path_o) {
        Some(rec) => rec,
        None => return false,
    };
    let mut rec_n = match state.index.remove(path_n) {
        Some(rec) => rec,
        None => return false,
    };
    rec_n.tags.extend(&rec_o.tags);
    match action {
        TwoFileAction::Append => {},
        TwoFileAction::AppendRemoveOld => {
            rec_o.tags.clear();
        },
    }
    state.index.insert(path_n.to_owned(), rec_n);
    state.index.insert(path_o.to_owned(), rec_o);
    match action {
        TwoFileAction::Append => {
            assert(state.index@ =~= append_tags_spec(old(state).index@, path_key_spec(path_o@), path_key_spec(path_n@)));
        },
        TwoFileAction::AppendRemoveOld => {
            assert(state.index@ =~= append_tags_rm_old_spec(old(state).index@, path_key_spec(path_o@), path_key_spec(path_n@)));
        },
    }
    true
}

/// Lets `path_n` keep its tags and adds every tag of `path_o` that it
/// lacks; says whether both files had entries.
pub fn append_tags(state: &mut ProgramState, path_o: &str, path_n: &str) -> (r: bool)
    requires
        old(state).wf(),
    ensures
        r == two_files(old(state).index@, path_key_spec(path_o@), path_key_spec(path_n@)),
        index_became(*old(state), *final(state), append_tags_spec(old(state).index@, path_key_spec(path_o@), path_key_spec(path_n@))),
{
    get_tags_of_two_files_and_then(state, path_o, path_n, TwoFileAction::Append)
}

/// Adds every tag of `path_o` to `path_n` and takes them all from
/// `path_o`; says whether both files had entries.
pub fn append_tags_rm_old(state: &mut ProgramState, path_o: &str, path_n: &str) -> (r: bool)
    requires
        old(state).wf(),
    ensures
        r == two_files(old(state).index@, path_key_spec(path_o@), path_key_spec(path_n@)),
        index_became(
            *old(state),
            *final(state),
            append_tags_rm_old_spec(
                old(state).index@,
                path_key_spec(path_o@),
                path_key_spec(path_n@),
            ),
        ),
{
    get_tags_of_two_files_and_then(state, path_o, path_n, TwoFileAction::AppendRemoveOld)
}

/// Every tag in the index, each once.
pub fn get_all_tags_from(state: &ProgramState) -> (r: Result<Vec<YxTag>, YxError>)
    requires
        state.wf(),
    ensures
        match r {
            Ok(v) => strings_view(v@).no_duplicates() && strings_view(v@).to_set() == all_tags(
                state.index@,
            ),
            Err(_) => false,
        },
{
    let entries = &state.index.entries;
    let mut unique = StringSet::new();
    let mut i: usize = 0;
    while i < entries.len()
        invariant
            entries_wf(entries@),
            unique.wf(),
            i <= entries@.len(),
            unique@ == all_tags(entries_map(entries@.take(i as int))),
        decreases entries@.len() - i,
    {
        unique.extend(&entries[i].1.tags);
        proof {
            let pre = entries@.take(i as int);
            let post = entries@.take(i + 1);
            assert(post.drop_last() =~= pre);
            assert(entries_wf(post)) by {
                assert(entry_keys(post) =~= entry_keys(entries@).take(i + 1));
                assert forall|j: int| 0 <= j < post.len() implies (#[trigger] post[j]).1.wf() by {
                    assert(post[j] == entries@[j]);
                }
            }
            lemma_entries_map_drop_last(post);
            assert(all_tags(entries_map(post)) =~= all_tags(entries_map(pre)).union(
                entries@[i as int].1@,
            )) by {
                let mp = entries_map(post);
                let mq = entries_map(pre);
                let k0 = entry_key(entries@[i as int]);
                assert forall|t: Seq<char>| all_tags(mp).contains(t) implies all_tags(mq).union(
                    entries@[i as int].1@,
                ).contains(t) by {
                    let k = choose|k: Seq<char>| mp.contains_key(k) && #[trigger] mp[k].contains(t);
                    if k != k0 {
                        assert(mq.contains_key(k) && mq[k].contains(t));
                    }
                }
                assert forall|t: Seq<char>| all_tags(mq).union(entries@[i as int].1@).contains(
                    t,
                ) implies all_tags(mp).contains(t) by {
                    if entries@[i as int].1@.contains(t) {
                        assert(mp.contains_key(k0) && mp[k0].contains(t));
                    } else {
                        let k = choose|k: Seq<char>|
                            mq.contains_key(k) && #[trigger] mq[k].contains(t);
                        assert(mp.contains_key(k) && mp[k].contains(t));
                    }
                }
            }
        }
        i = i + 1;
    }
    assert(entries@.take(entries@.len() as int) =~= entries@);
    Ok(unique.items)
}

/// How many files have each tag: every tag of the index once, with its
/// count. The index holds at most `u32::MAX` files, so a count fits.
pub fn get_tag_counts_from(state: &ProgramState) -> (r: Result<Vec<(String, u32)>, YxError>)
    requires
        state.wf(),
        state.index.entries@.len() <= u32::MAX,
    ensures
        match r {
            Ok(v) => {
                let tags = v@.map_values(|p: (String, u32)| p.0@);
                &&& tags.no_duplicates()
                &&& tags.to_set() == all_tags(state.index@)
                &&& forall|i: int|
                    0 <= i < v@.len() ==> (#[trigger] v@[i]).1 == tag_count(state.index@, v@[i].0@)
            },
            Err(_) => false,
        },
{
    let tags = match get_all_tags_from(state) {
        Ok(t) => t,
        Err(e) => return Err(e),
    };
    let entries = &state.index.entries;
    let mut totals: Vec<(String, u32)> = Vec::new();
    let mut a: usize = 0;
    while a < tags.len()
        invariant
            state.wf(),
            entries == &state.index.entries,
            entries@.len() <= u32::MAX,
            a <= tags@.len(),
            totals@.len() == a,
            forall|j: int|
                0 <= j < a ==> (#[trigger] totals@[j]).0@ == tags@[j]@ && totals@[j].1
                    == tag_count(state.index@, tags@[j]@),
        decreases tags@.len() - a,
    {
        let tag = tags[a].as_str();
        let mut c: u32 = 0;
        let mut i: usize = 0;
        while i < entries.len()
            invariant
                entries@.len() <= u32::MAX,
                i <= entries@.len(),
                c == count_entries(entries@.take(i as int), tag@),
                c <= i,
            decreases entries@.len() - i,
        {
            assert(entries@.take(i + 1).drop_last() =~= entries@.take(i as int));
            if entries[i].1.tags.contains(tag) {
                c = c + 1;
            }
            i = i + 1;
        }
        proof {
            assert(entries@.take(entries@.len() as int) =~= entries@);
            lemma_count_entries(entries@, tag@);
        }
        totals.push((tags[a].clone(), c));
        a = a + 1;
    }
    assert(totals@.map_values(|p: (String, u32)| p.0@) =~= strings_view(tags@));
    Ok(totals)
}

/// The entries of `it` that `pred` keeps, as an index of their own. Each
/// entry's fate is an outcome of `pred` on it.
pub fn retrieve_where<C>(it: YxIndex, pred: C) -> (r: YxIndex) where
    C: Fn(&(String, YxFileRecord)) -> bool,

    requires
        it.wf(),
        forall|e: &(String, YxFileRecord)| #[trigger] call_requires(pred, (e,)),
    ensures
        r.wf(),
        forall|k: Seq<char>| #[trigger] r@.contains_key(k) ==> it@.contains_key(k) && r@[k] == it@[k],
        forall|i: int|
            0 <= i < it.entries@.len() ==> {
                &&& r@.contains_key(#[trigger] entry_key(it.entries@[i])) ==> call_ensures(
                    pred,
                    (&it.entries@[i],),
                    true,
                )
                &&& !r@.contains_key(entry_key(it.entries@[i])) ==> call_ensures(
                    pred,
                    (&it.entries@[i],),
                    false,
                )
            },
{
    let ghost old_entries = it.entries@;
    let n = it.entries.len();
    let mut keep: Vec<bool> = Vec::new();
    let mut i: usize = 0;
    while i < n
        invariant
            n == it.entries@.len(),
            i <= n,
            keep@.len() == i,
            forall|e: &(String, YxFileRecord)| #[trigger] call_requires(pred, (e,)),
            forall|j: int| 0 <= j < i ==> call_ensures(pred, (&it.entries@[j],), #[trigger] keep@[j]),
        decreases n - i,
    {
        let b = pred(&it.entries[i]);
        keep.push(b);
        i = i + 1;
    }
    let mut rest = it.entries;
    let mut kept: Vec<YxIndexKV> = Vec::new();
    let ghost mut src: Seq<int> = Seq::empty();
    let mut j: usize = 0;
    while j < n
        invariant
            n == old_entries.len(),
            keep@.len() == n,
            entries_wf(old_entries),
            j <= n,
            rest@ == old_entries.skip(j as int),
            src.len() == kept@.len(),
            forall|a: int|
                0 <= a < src.len() ==> 0 <= #[trigger] src[a] < j && kept@[a] == old_entries[src[a]]
                    && keep@[src[a]],
            forall|a: int, b: int| 0 <= a < b < src.len() ==> src[a] < src[b],
            forall|x: int| 0 <= x < j && #[trigger] keep@[x] ==> exists|a: int| 0 <= a < src.len() && src[a] == x,
        decreases n - j,
    {
        let ghost src0 = src;
        let e = rest.remove(0);
        assert(e == old_entries[j as int]);
        if keep[j] {
            kept.push(e);
            proof {
                src = src.push(j as int);
            }
        }
        proof {
            assert forall|x: int| 0 <= x < j + 1 && #[trigger] keep@[x] implies exists|a: int|
                0 <= a < src.len() && src[a] == x by {
                if x == j {
                    assert(src[src.len() - 1] == x);
                } else {
                    let a = choose|a: int| 0 <= a < src0.len() && src0[a] == x;
                    assert(src[a] == x);
                }
            }
        }
        j = j + 1;
        assert(rest@ =~= old_entries.skip(j as int));
    }
    let r = YxIndex { entries: kept };
    assert(entries_wf(kept@)) by {
        assert forall|a: int, b: int|
            0 <= a < entry_keys(kept@).len() && 0 <= b < entry_keys(kept@).len() && a != b implies entry_keys(kept@)[a]
            != entry_keys(kept@)[b] by {
            assert(entry_keys(kept@)[a] == entry_keys(old_entries)[src[a]]);
            assert(entry_keys(kept@)[b] == entry_keys(old_entries)[src[b]]);
            if a < b {
                assert(src[a] < src[b]);
            } else {
                assert(src[b] < src[a]);
            }
        }
        assert forall|a: int| 0 <= a < kept@.len() implies (#[trigger] kept@[a]).1.wf() by {
            assert(kept@[a] == old_entries[src[a]]);
        }
    }
    assert forall|k: Seq<char>| #[trigger] r@.contains_key(k) implies entries_map(old_entries).contains_key(k)
        && r@[k] == entries_map(old_entries)[k] by {
        let a = choose|a: int| 0 <= a < entry_keys(kept@).len() && entry_keys(kept@)[a] == k;
        assert(kept@[a] == old_entries[src[a]]);
        lemma_entry_at(kept@, a);
        lemma_entry_at(old_entries, src[a]);
    }
    assert forall|x: int| 0 <= x < old_entries.len() implies {
        &&& r@.contains_key(#[trigger] entry_key(old_entries[x])) ==> call_ensures(pred, (&old_entries[x],), true)
        &&& !r@.contains_key(entry_key(old_entries[x])) ==> call_ensures(pred, (&old_entries[x],), false)
    } by {
        assert(call_ensures(pred, (&old_entries[x],), keep@[x]));
        if keep@[x] {
            let a = choose|a: int| 0 <= a < src.len() && src[a] == x;
            lemma_entry_at(kept@, a);
        }
        if r@.contains_key(entry_key(old_entries[x])) {
            let a = choose|a: int|
                0 <= a < entry_keys(kept@).len() && entry_keys(kept@)[a] == entry_key(old_entries[x]);
            assert(kept@[a] == old_entries[src[a]]);
            assert(entry_keys(old_entries)[src[a]] == entry_keys(old_entries)[x]);
        }
    }
    r
}

} // verus!
