use yx::classes::{ProgramState, ProgramStatePathed, YxConstraintFilter, YxConstraints};
use yx::constraints::retrieve_where_constraint;
use yx::index::{YxFileRecord, YxIndex};
use yx::pathkey::{path_key, same_path};
use yx::stringset::StringSet;
use yx::sub::{
    append_tags, append_tags_rm_old, copy_tags, get_all_tags_from, get_tag_counts_from, move_tags,
    retrieve_where,
};

fn set_of(items: &[&str]) -> StringSet {
    StringSet::from_strs(items)
}

fn sorted(set: &StringSet) -> Vec<String> {
    let mut v = set.items.clone();
    v.sort();
    v
}

fn state_with(entries: &[(&str, &[&str])]) -> ProgramState {
    let mut st = ProgramState::new();
    for (path, tags) in entries {
        st.index.insert(path.to_string(), YxFileRecord { tags: set_of(tags) });
    }
    st
}

fn tags_of(st: &ProgramState, path: &str) -> Option<Vec<String>> {
    st.index.get(path).map(|r| sorted(&r.tags))
}

#[test]
fn program_state_new_is_empty() {
    let st = ProgramState::new();
    assert_eq!(st.index.len(), 0);
    assert_eq!(st.constraints.cons.len(), 0);
    assert_eq!(st.ignores.len(), 0);
}

#[test]
fn pathed_state_new_keeps_path() {
    let st = ProgramStatePathed::new("/home/u/.yx_index".to_string());
    assert_eq!(st.path, "/home/u/.yx_index");
    assert_eq!(st.state.index.len(), 0);
}

#[test]
fn file_record_new_has_one_tag() {
    let rec = YxFileRecord::new("music".to_string());
    assert_eq!(rec.tags.items, vec!["music".to_string()]);
    assert!(rec.tags.contains("music"));
    assert!(!rec.tags.contains("meme"));
}

#[test]
fn string_set_keeps_no_repeats() {
    let mut s = StringSet::new();
    assert!(s.insert("a".to_string()));
    assert!(s.insert("b".to_string()));
    assert!(!s.insert("a".to_string()));
    assert_eq!(s.len(), 2);
    assert!(s.remove("a"));
    assert!(!s.remove("a"));
    assert_eq!(s.items, vec!["b".to_string()]);
    let other = set_of(&["b", "c"]);
    s.extend(&other);
    assert_eq!(sorted(&s), vec!["b", "c"]);
    s.clear();
    assert_eq!(s.len(), 0);
}

#[test]
fn string_set_from_strs_drops_repeats() {
    let s = set_of(&["x", "y", "x"]);
    assert_eq!(s.items, vec!["x".to_string(), "y".to_string()]);
}

#[test]
fn index_insert_get_remove() {
    let mut idx = YxIndex::new();
    idx.insert("a.txt".to_string(), YxFileRecord::new("one".to_string()));
    idx.insert("b.txt".to_string(), YxFileRecord::new("two".to_string()));
    idx.insert("a.txt".to_string(), YxFileRecord::new("three".to_string()));
    assert_eq!(idx.len(), 2);
    assert!(idx.contains_key("a.txt"));
    assert_eq!(idx.get("a.txt").unwrap().tags.items, vec!["three".to_string()]);
    let removed = idx.remove("a.txt").unwrap();
    assert_eq!(removed.tags.items, vec!["three".to_string()]);
    assert!(idx.get("a.txt").is_none());
    assert!(idx.remove("a.txt").is_none());
    assert_eq!(idx.len(), 1);
}

#[test]
fn index_copy_is_equal() {
    let st = state_with(&[("a", &["x"]), ("b", &["y", "z"])]);
    let c = st.index.copy();
    assert_eq!(c.len(), 2);
    assert_eq!(sorted(&c.get("b").unwrap().tags), vec!["y", "z"]);
}

#[test]
fn move_tags_moves_the_entry() {
    let mut st = state_with(&[("old.txt", &["a", "b"])]);
    assert!(move_tags(&mut st, "old.txt", "new.txt".to_string()));
    assert_eq!(tags_of(&st, "new.txt"), Some(vec!["a".to_string(), "b".to_string()]));
    assert_eq!(tags_of(&st, "old.txt"), None);
    assert!(!move_tags(&mut st, "missing.txt", "x.txt".to_string()));
    assert_eq!(st.index.len(), 1);
}

#[test]
fn move_tags_there_and_back_restores() {
    let mut st = state_with(&[("o", &["a"]), ("k", &["b"])]);
    move_tags(&mut st, "o", "n".to_string());
    move_tags(&mut st, "n", "o".to_string());
    assert_eq!(tags_of(&st, "o"), Some(vec!["a".to_string()]));
    assert_eq!(tags_of(&st, "k"), Some(vec!["b".to_string()]));
    assert_eq!(st.index.len(), 2);
}

#[test]
fn copy_tags_overwrites_target() {
    let mut st = state_with(&[("o", &["a", "b"]), ("n", &["c"])]);
    assert!(copy_tags(&mut st, "o", "n".to_string()));
    assert_eq!(tags_of(&st, "n"), Some(vec!["a".to_string(), "b".to_string()]));
    assert_eq!(tags_of(&st, "o"), Some(vec!["a".to_string(), "b".to_string()]));
    assert!(!copy_tags(&mut st, "zz", "n".to_string()));
}

#[test]
fn append_tags_merges_into_target() {
    let mut st = state_with(&[("o", &["a", "b"]), ("n", &["b", "c"])]);
    assert!(append_tags(&mut st, "o", "n"));
    assert_eq!(tags_of(&st, "n"), Some(vec!["a".to_string(), "b".to_string(), "c".to_string()]));
    assert_eq!(tags_of(&st, "o"), Some(vec!["a".to_string(), "b".to_string()]));
    assert!(append_tags(&mut st, "o", "n"));
    assert_eq!(tags_of(&st, "n"), Some(vec!["a".to_string(), "b".to_string(), "c".to_string()]));
}

#[test]
fn append_tags_needs_two_distinct_entries() {
    let mut st = state_with(&[("o", &["a"])]);
    assert!(!append_tags(&mut st, "o", "missing"));
    assert!(!append_tags(&mut st, "o", "o"));
    assert!(!append_tags_rm_old(&mut st, "o", "o"));
    assert_eq!(tags_of(&st, "o"), Some(vec!["a".to_string()]));
}

#[test]
fn append_tags_rm_old_empties_source() {
    let mut st = state_with(&[("o", &["a", "b"]), ("n", &["c"])]);
    assert!(append_tags_rm_old(&mut st, "o", "n"));
    assert_eq!(tags_of(&st, "n"), Some(vec!["a".to_string(), "b".to_string(), "c".to_string()]));
    assert_eq!(tags_of(&st, "o"), Some(vec![]));
    let mut all = get_all_tags_from(&st).unwrap();
    all.sort();
    assert_eq!(all, vec!["a", "b", "c"]);
}

#[test]
fn all_tags_are_listed_once() {
    let st = state_with(&[
        ("fireflies.txt", &["music", "song-lyrics"]),
        ("amogus-meme.png", &["meme", "sus"]),
        ("amogus-drip.mp3", &["music", "meme", "sus"]),
    ]);
    let mut all = get_all_tags_from(&st).unwrap();
    all.sort();
    assert_eq!(all, vec!["meme", "music", "song-lyrics", "sus"]);
}

#[test]
fn tag_counts_count_files() {
    let st = state_with(&[
        ("fireflies.txt", &["music", "song-lyrics"]),
        ("amogus-meme.png", &["meme", "sus"]),
        ("amogus-drip.mp3", &["music", "meme", "sus"]),
    ]);
    let mut counts = get_tag_counts_from(&st).unwrap();
    counts.sort();
    assert_eq!(
        counts,
        vec![
            ("meme".to_string(), 2),
            ("music".to_string(), 2),
            ("song-lyrics".to_string(), 1),
            ("sus".to_string(), 2)
        ]
    );
}

#[test]
fn empty_index_has_no_tags() {
    let st = ProgramState::new();
    assert!(get_all_tags_from(&st).unwrap().is_empty());
    assert!(get_tag_counts_from(&st).unwrap().is_empty());
}

#[test]
fn retrieve_where_keeps_what_the_predicate_keeps() {
    let st = state_with(&[("a", &["x"]), ("b", &["y"]), ("c", &["x", "y"])]);
    let kept = retrieve_where(st.index.copy(), |kv: &(String, YxFileRecord)| kv.1.tags.contains("x"));
    assert_eq!(kept.len(), 2);
    assert!(kept.contains_key("a"));
    assert!(kept.contains_key("c"));
    assert!(!kept.contains_key("b"));
}

#[test]
fn filter_from_constraint_text() {
    let f = YxConstraints::to_filter_closure("tag is music");
    assert!(matches!(&f, YxConstraintFilter::Tag { tag, present: true } if tag == "music"));
    let f = YxConstraints::to_filter_closure("TAG IsNot Music");
    assert!(matches!(&f, YxConstraintFilter::Tag { tag, present: false } if tag == "music"));
    let f = YxConstraints::to_filter_closure("tag isnt meme");
    assert!(matches!(&f, YxConstraintFilter::Tag { tag, present: false } if tag == "meme"));
    let f = YxConstraints::to_filter_closure("name is music");
    assert!(matches!(f, YxConstraintFilter::Any));
}

#[test]
fn filter_match_type_ignores_inner_whitespace() {
    let f = YxConstraints::to_filter_closure("tag i\ts music");
    assert!(matches!(&f, YxConstraintFilter::Tag { tag, present: true } if tag == "music"));
}

#[test]
fn is_and_isnot_are_complementary() {
    let rec = YxFileRecord { tags: set_of(&["music"]) };
    let other = YxFileRecord { tags: set_of(&["meme"]) };
    let is = YxConstraints::to_filter_closure("tag is music");
    let isnot = YxConstraints::to_filter_closure("tag isnot music");
    assert_eq!(is.passes(&rec), !isnot.passes(&rec));
    assert_eq!(is.passes(&other), !isnot.passes(&other));
    assert!(is.passes(&rec));
    assert!(!is.passes(&other));
    assert!(YxConstraintFilter::Any.passes(&other));
}

#[test]
fn constraints_filter_the_index() {
    let mut st = state_with(&[
        ("fireflies.txt", &["music", "song-lyrics"]),
        ("amogus-meme.png", &["meme", "sus"]),
        ("amogus-drip.mp3", &["music", "meme", "sus"]),
    ]);
    st.constraints.cons.push("tag is music".to_string());
    let kept = retrieve_where_constraint(&mut st);
    assert_eq!(kept.len(), 2);
    assert!(kept.contains_key("fireflies.txt"));
    assert!(kept.contains_key("amogus-drip.mp3"));
    st.constraints.cons.push("tag isnot meme".to_string());
    let kept = retrieve_where_constraint(&mut st);
    assert_eq!(kept.len(), 1);
    assert!(kept.contains_key("fireflies.txt"));
}

#[test]
fn no_constraints_keep_everything() {
    let mut st = state_with(&[("a", &["x"]), ("b", &[])]);
    let kept = retrieve_where_constraint(&mut st);
    assert_eq!(kept.len(), 2);
    assert_eq!(st.index.len(), 2);
}

#[test]
fn filter_closures_one_per_constraint() {
    let cons = YxConstraints { cons: vec!["tag is a".to_string(), "what is b".to_string()] };
    let fs = cons.to_filter_closures();
    assert_eq!(fs.len(), 2);
    assert!(matches!(fs[1], YxConstraintFilter::Any));
}

#[test]
fn path_key_follows_components() {
    assert_eq!(path_key("a//b/./c/"), "a/b/c");
    assert_eq!(path_key("./a"), "./a");
    assert_eq!(path_key("/a/"), "/a");
    assert_eq!(path_key("a"), "a");
    assert_eq!(path_key("."), "./");
    assert_eq!(path_key(""), "");
    assert_eq!(path_key("a/../b"), "a/../b");
}

#[test]
fn same_path_compares_components() {
    assert!(same_path("a//b", "a/b"));
    assert!(same_path("a/b/", "a/b"));
    assert!(same_path("a/./b", "a/b"));
    assert!(!same_path("./a", "a"));
    assert!(!same_path("/a", "a"));
    assert!(!same_path("a/../b", "b"));
}

#[test]
fn index_finds_a_path_written_another_way() {
    let st = state_with(&[("a/b.txt", &["x"])]);
    assert!(st.index.contains_key("a//b.txt"));
    assert!(st.index.contains_key("a/./b.txt"));
    assert!(!st.index.contains_key("./a/b.txt"));
    assert_eq!(tags_of(&st, "a/b.txt/"), Some(vec!["x".to_string()]));
}

#[test]
fn index_insert_under_another_spelling_keeps_one_entry() {
    let mut st = state_with(&[("a/b.txt", &["x"])]);
    st.index.insert("a//b.txt".to_string(), YxFileRecord { tags: set_of(&["y"]) });
    assert_eq!(st.index.len(), 1);
    assert_eq!(st.index.entries[0].0, "a/b.txt");
    assert_eq!(tags_of(&st, "a/b.txt"), Some(vec!["y".to_string()]));
}

#[test]
fn move_tags_finds_the_entry_by_components() {
    let mut st = state_with(&[("a/b.txt", &["x"])]);
    assert!(move_tags(&mut st, "a//b.txt", "c.txt".to_string()));
    assert_eq!(tags_of(&st, "c.txt"), Some(vec!["x".to_string()]));
    assert_eq!(tags_of(&st, "a/b.txt"), None);
}

#[test]
fn append_tags_of_one_file_written_two_ways_is_refused() {
    let mut st = state_with(&[("a/b.txt", &["x"])]);
    assert!(!append_tags(&mut st, "a/b.txt", "a//b.txt"));
    assert_eq!(tags_of(&st, "a/b.txt"), Some(vec!["x".to_string()]));
}
