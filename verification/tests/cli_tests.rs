use yx::classes::{ProgramState, ProgramStatePathed, YxRenderMethod};
use yx::constraints::{c_constraint, c_free, constraint_is_readable, select_entries};
use yx::paths::{render_dir, render_paths};
use yx::text::decimal;
use yx::cli::{
    set_holds_path, set_remove_path, argc_check, assert_argc, c_add, c_create, c_ignore, c_purge, c_remove, c_unignore, cmd_replace_aliases,
    c_rm, create_location, cwd_index_path, get_all_current_indexes, wrong_argc_message, get_closest_index, ignore_index_file,
    index_candidates, parse_command, prompt_answer, sort_tag_counts, FileEditAction, ListAllOrder,
    ListMode, PurgeMode, YxCommand, answer_from_lowered, parse_lowered,
};
use yx::error::YxError;
use yx::index::YxFileRecord;
use yx::paths::{index_dir, path_relative_to_index};
use yx::scribe::{c_scribe, check_ignored, import_from_names, process_into_tags, ScribeMethod};
use yx::stringset::StringSet;
use yx::sub::{add_tags_to, file_has_tag, rm_tags_from};
use yx::text::{split_str, str_eq, strip_whitespace};

const CWD: &str = "/home/u/stuff";
const INDEX: &str = "/home/u/stuff/.yx_index";

fn args(a: &[&str]) -> Vec<String> {
    a.iter().map(|s| s.to_string()).collect()
}

fn sorted_tags(st: &ProgramState, path: &str) -> Option<Vec<String>> {
    st.index.get(path).map(|r| {
        let mut v = r.tags.items.clone();
        v.sort();
        v
    })
}

#[test]
fn split_cuts_at_every_delimiter() {
    assert_eq!(split_str("a b c", " "), vec!["a", "b", "c"]);
    assert_eq!(split_str("a  b", " "), vec!["a", "", "b"]);
    assert_eq!(split_str("", " "), vec![""]);
    assert_eq!(split_str("a--b--", "--"), vec!["a", "b", ""]);
    assert_eq!(split_str("ab", ""), vec!["", "a", "b", ""]);
    assert_eq!(split_str("", ""), vec!["", ""]);
}

#[test]
fn split_then_join_gives_back_the_text() {
    for (s, d) in [("amogus drip", " "), ("a  b ", " "), ("xyz", "y"), ("xyz", ""), ("aaa", "aa")] {
        assert_eq!(split_str(s, d).join(d), s);
    }
}

#[test]
fn strip_whitespace_removes_all_whitespace() {
    assert_eq!(strip_whitespace(" i s\tnot\n"), "isnot");
    assert_eq!(strip_whitespace("is\u{3000}"), "is");
    assert_eq!(strip_whitespace(""), "");
}

#[test]
fn str_eq_compares_characters() {
    assert!(str_eq("abc", "abc"));
    assert!(!str_eq("abc", "abd"));
    assert!(!str_eq("abc", "ab"));
}

#[test]
fn relative_path_of_a_file_beside_the_index() {
    assert_eq!(path_relative_to_index("fireflies.txt", CWD, INDEX).unwrap(), "fireflies.txt");
    assert_eq!(
        path_relative_to_index("./memes/../memes/amogus.png", CWD, INDEX).unwrap(),
        "memes/amogus.png"
    );
    assert_eq!(
        path_relative_to_index("/home/u/stuff/memes/a.png", "/tmp", INDEX).unwrap(),
        "memes/a.png"
    );
}

#[test]
fn relative_path_outside_the_index_directory() {
    assert_eq!(path_relative_to_index("../x.txt", CWD, INDEX).unwrap(), "../x.txt");
    assert_eq!(path_relative_to_index("/other/x.txt", CWD, INDEX).unwrap(), "../../../other/x.txt");
}

#[test]
fn relative_path_of_the_root_has_no_file_name() {
    assert!(matches!(path_relative_to_index("/", CWD, INDEX), Err(YxError::NoFileName)));
}

#[test]
fn index_dir_is_the_parent() {
    assert_eq!(index_dir(INDEX), "/home/u/stuff");
    assert_eq!(index_dir("/"), "/");
}

#[test]
fn add_then_has_then_remove() {
    let mut st = ProgramState::new();
    add_tags_to(&mut st, "fireflies.txt", &["music", "song-lyrics"], CWD, INDEX).unwrap();
    assert_eq!(sorted_tags(&st, "fireflies.txt"), Some(vec!["music".to_string(), "song-lyrics".to_string()]));
    assert!(file_has_tag(&st, "fireflies.txt", "music", CWD, INDEX).unwrap());
    add_tags_to(&mut st, "./fireflies.txt", &["lyrics"], CWD, INDEX).unwrap();
    assert_eq!(st.index.len(), 1);
    rm_tags_from(&mut st, "fireflies.txt", &["music"], CWD, INDEX).unwrap();
    assert!(!file_has_tag(&st, "fireflies.txt", "music", CWD, INDEX).unwrap());
    assert!(file_has_tag(&st, "fireflies.txt", "lyrics", CWD, INDEX).unwrap());
    assert!(matches!(file_has_tag(&st, "other.txt", "music", CWD, INDEX), Err(YxError::FileNotInIndex)));
}

#[test]
fn add_then_remove_restores_the_record() {
    let mut st = ProgramState::new();
    add_tags_to(&mut st, "a.txt", &["keep"], CWD, INDEX).unwrap();
    add_tags_to(&mut st, "a.txt", &["new1", "new2"], CWD, INDEX).unwrap();
    rm_tags_from(&mut st, "a.txt", &["new1", "new2"], CWD, INDEX).unwrap();
    assert_eq!(sorted_tags(&st, "a.txt"), Some(vec!["keep".to_string()]));
}

#[test]
fn remove_from_a_file_without_entry_changes_nothing() {
    let mut st = ProgramState::new();
    rm_tags_from(&mut st, "a.txt", &["x"], CWD, INDEX).unwrap();
    assert_eq!(st.index.len(), 0);
}

#[test]
fn add_with_an_unusable_path_fails_without_change() {
    let mut st = ProgramState::new();
    assert!(matches!(add_tags_to(&mut st, "/", &["x"], CWD, INDEX), Err(YxError::NoFileName)));
    assert_eq!(st.index.len(), 0);
}

#[test]
fn create_refuses_an_existing_index() {
    assert!(matches!(c_create(true), Err(YxError::IndexExists)));
    let st = c_create(false).unwrap();
    assert_eq!(st.index.len(), 0);
}

#[test]
fn purge_clears_everything() {
    let mut st = ProgramStatePathed::new(INDEX.to_string());
    c_add(&mut st, "a.txt", &["x"], CWD).unwrap();
    c_ignore(&mut st, "junk", CWD).unwrap();
    c_purge(&mut st);
    assert_eq!(st.state.index.len(), 0);
    assert_eq!(st.state.ignores.len(), 0);
    assert_eq!(st.path, INDEX);
}

#[test]
fn c_add_and_c_remove_use_the_index_path() {
    let mut st = ProgramStatePathed::new(INDEX.to_string());
    c_add(&mut st, "/home/u/stuff/sub/a.txt", &["x"], "/").unwrap();
    assert!(st.state.index.contains_key("sub/a.txt"));
    c_remove(&mut st, "sub/a.txt", &["x"], CWD).unwrap();
    assert_eq!(sorted_tags(&st.state, "sub/a.txt"), Some(vec![]));
}

#[test]
fn ignore_and_unignore() {
    let mut st = ProgramStatePathed::new(INDEX.to_string());
    assert!(c_ignore(&mut st, "memes", CWD).unwrap());
    assert!(!c_ignore(&mut st, "./memes", CWD).unwrap());
    assert!(st.state.ignores.contains("memes"));
    c_unignore(&mut st, "memes", CWD).unwrap();
    assert!(!st.state.ignores.contains("memes"));
}

#[test]
fn loaded_state_ignores_the_index_file() {
    let mut st = ProgramState::new();
    ignore_index_file(&mut st);
    assert!(st.ignores.contains("./.yx_index"));
}

#[test]
fn closest_index_is_the_first_found() {
    assert!(matches!(get_closest_index(&vec![]), Err(YxError::IndexNotFound)));
    let found = args(&["/a/b/.yx_index", "/a/.yx_index"]);
    assert_eq!(get_closest_index(&found).unwrap(), "/a/b/.yx_index");
}

#[test]
fn candidates_go_from_the_working_directory_up() {
    assert_eq!(index_candidates("/home/u"), vec!["/home/u/.yx_index", "/home/.yx_index", "/.yx_index"]);
    assert_eq!(cwd_index_path("/home/u"), "/home/u/.yx_index");
}

#[test]
fn current_indexes_are_the_existing_candidates() {
    let found = get_all_current_indexes("/a/b/c", |p: &str| p == "/a/.yx_index" || p == "/a/b/c/.yx_index");
    assert_eq!(found, vec!["/a/b/c/.yx_index", "/a/.yx_index"]);
}

#[test]
fn argc_is_checked() {
    assert_argc(&["a"], &[0, 1]);
    assert_argc(&[], &[0, 1]);
    assert!(argc_check(&["a"], &[0, 1]).is_ok());
    assert_eq!(
        argc_check(&["a", "b", "c"], &[0, 1, 2]),
        Err("This subcommand requires 0|1|2 arguments, but you only gave 3!".to_string())
    );
    assert_eq!(argc_check(&[], &[0, 1]), Ok(()));
    assert_eq!(
        argc_check(&["a"; 12], &[10, 2]),
        Err("This subcommand requires 10|2 arguments, but you only gave 12!".to_string())
    );
}

#[test]
fn aliases_are_replaced() {
    assert_eq!(cmd_replace_aliases("ls"), "list");
    assert_eq!(cmd_replace_aliases("cpo"), "cpt");
    assert_eq!(cmd_replace_aliases("moveappendtags"), "mapt");
    assert_eq!(cmd_replace_aliases("merge"), "apt");
    assert_eq!(cmd_replace_aliases("add"), "add");
    for a in ["ls", "move", "copy", "listall", "ignorelist", "owtags", "mt", "moveapt"] {
        let once = cmd_replace_aliases(a);
        assert_eq!(cmd_replace_aliases(once), once);
    }
}

#[test]
fn prompt_answers() {
    assert_eq!(prompt_answer("Yes"), Some(true));
    assert_eq!(prompt_answer("y"), Some(true));
    assert_eq!(prompt_answer("nope"), Some(false));
    assert_eq!(prompt_answer(""), None);
}

#[test]
fn answers_from_lowered_replies() {
    assert_eq!(answer_from_lowered("yes"), Some(true));
    assert_eq!(answer_from_lowered("Yes"), Some(false));
    assert_eq!(answer_from_lowered(""), None);
}

#[test]
fn parse_with_lowered_parts() {
    assert!(matches!(
        parse_lowered(&args(&["yx", "PURGE", "YES"]), "purge", "yes"),
        Ok(YxCommand::Purge { mode: PurgeMode::Confirmed })
    ));
    assert!(matches!(
        parse_lowered(&args(&["yx", "x", "y"]), "ls", "valid"),
        Ok(YxCommand::List { which: ListMode::Valid })
    ));
}

#[test]
fn parse_help_and_unknown() {
    assert!(matches!(parse_command(&args(&["yx"])), Ok(YxCommand::Help)));
    assert!(matches!(parse_command(&args(&["yx", "frobnicate"])), Ok(YxCommand::Help)));
}

#[test]
fn parse_add_and_remove() {
    match parse_command(&args(&["yx", "ADD", "f.txt", "music"])) {
        Ok(YxCommand::Add { target, tags }) => {
            assert_eq!(target, "f.txt");
            assert_eq!(tags, vec!["music"]);
        },
        _ => panic!("expected add"),
    }
    assert!(matches!(parse_command(&args(&["yx", "add", "f.txt"])), Err(YxError::WrongArgCount { given: 1, .. })));
    assert!(matches!(parse_command(&args(&["yx", "rm", "f.txt", "x"])), Ok(YxCommand::Remove { .. })));
    assert!(matches!(parse_command(&args(&["yx", "rm", "f.txt", "x", "y"])), Err(YxError::WrongArgCount { given: 3, .. })));
    match parse_command(&args(&["yx", "add", "amogus-drip.mp3", "music", "meme", "sus"])) {
        Ok(YxCommand::Add { target, tags }) => {
            assert_eq!(target, "amogus-drip.mp3");
            assert_eq!(tags, vec!["music", "meme", "sus"]);
        },
        _ => panic!("expected add"),
    }
}

#[test]
fn parse_create_purge_and_scribe() {
    assert!(matches!(parse_command(&args(&["yx", "create"])), Ok(YxCommand::Create { location: None })));
    match parse_command(&args(&["yx", "create", "/x/.yx_index"])) {
        Ok(YxCommand::Create { location: Some(l) }) => assert_eq!(l, "/x/.yx_index"),
        _ => panic!("expected create"),
    }
    assert!(matches!(parse_command(&args(&["yx", "purge", "YES"])), Ok(YxCommand::Purge { mode: PurgeMode::Confirmed })));
    assert!(matches!(parse_command(&args(&["yx", "purge"])), Ok(YxCommand::Purge { mode: PurgeMode::Prompt })));
    assert!(matches!(parse_command(&args(&["yx", "purge", "no"])), Ok(YxCommand::Purge { mode: PurgeMode::Invalid })));
    match parse_command(&args(&["yx", "scribe"])) {
        Ok(YxCommand::Scribe { target }) => assert_eq!(target, "."),
        _ => panic!("expected scribe"),
    }
}

#[test]
fn parse_file_edits_through_aliases() {
    match parse_command(&args(&["yx", "overwrite", "a", "b"])) {
        Ok(YxCommand::FileEdit { action: FileEditAction::CopyTags, from, to }) => {
            assert_eq!(from, "a");
            assert_eq!(to, "b");
        },
        _ => panic!("expected cpt"),
    }
    assert!(matches!(
        parse_command(&args(&["yx", "move", "a", "b"])),
        Ok(YxCommand::FileEdit { action: FileEditAction::MoveFileAndTags, .. })
    ));
    assert!(matches!(parse_command(&args(&["yx", "mapt", "a"])), Err(YxError::WrongArgCount { given: 1, .. })));
}

#[test]
fn parse_render_list_and_la() {
    match parse_command(&args(&["yx", "render", "copy", "named"])) {
        Ok(YxCommand::Render { options }) => {
            assert!(matches!(options.method, YxRenderMethod::Copy));
            assert!(options.rename);
            assert!(!options.iall);
        },
        _ => panic!("expected render"),
    }
    assert!(matches!(parse_command(&args(&["yx", "listall", "H->L"])), Ok(YxCommand::ListAll { order: ListAllOrder::HighToLow })));
    assert!(matches!(parse_command(&args(&["yx", "la", "l->h"])), Ok(YxCommand::ListAll { order: ListAllOrder::LowToHigh })));
    assert!(matches!(parse_command(&args(&["yx", "la", "up"])), Ok(YxCommand::ListAll { order: ListAllOrder::Invalid })));
    assert!(matches!(parse_command(&args(&["yx", "la"])), Ok(YxCommand::ListAll { order: ListAllOrder::Unsorted })));
    assert!(matches!(parse_command(&args(&["yx", "ls", "Missing"])), Ok(YxCommand::List { which: ListMode::Missing })));
    match parse_command(&args(&["yx", "list", "by", "music"])) {
        Ok(YxCommand::ListBy { tag }) => assert_eq!(tag, "music"),
        _ => panic!("expected list by"),
    }
    assert!(matches!(parse_command(&args(&["yx", "list", "of", "x"])), Ok(YxCommand::List { which: ListMode::All })));
    assert!(matches!(parse_command(&args(&["yx", "list", "x"])), Ok(YxCommand::List { which: ListMode::Invalid })));
    assert!(matches!(parse_command(&args(&["yx", "list", "a", "b", "c"])), Err(YxError::WrongArgCount { given: 3, .. })));
    assert!(matches!(parse_command(&args(&["yx", "ignorelist"])), Ok(YxCommand::IgnoreList)));
}

#[test]
fn sort_counts_both_ways() {
    let counts = vec![("a".to_string(), 2u32), ("b".to_string(), 5), ("c".to_string(), 1)];
    let up = sort_tag_counts(counts.clone(), false);
    assert_eq!(up.iter().map(|p| p.1).collect::<Vec<_>>(), vec![1, 2, 5]);
    let down = sort_tag_counts(counts, true);
    assert_eq!(down.iter().map(|p| p.0.as_str()).collect::<Vec<_>>(), vec!["b", "a", "c"]);
}

#[test]
fn scribe_tags_from_file_stems() {
    let tags = process_into_tags("amogus drip", &ScribeMethod::SplitBy(" "));
    assert_eq!(tags, vec!["amogus", "drip"]);
    let mut st = ProgramState::new();
    st.ignores.insert("ignored".to_string());
    let files = args(&["/home/u/stuff/amogus meme.png", "/home/u/stuff/ignored/x y.txt", "/home/u/stuff/song.mp3"]);
    let report = import_from_names(&mut st, &files, ScribeMethod::SplitBy(" "), CWD, INDEX).unwrap();
    assert_eq!(report.len(), 2);
    assert_eq!(report[0].1, vec!["amogus", "meme"]);
    assert_eq!(sorted_tags(&st, "amogus meme.png"), Some(vec!["amogus".to_string(), "meme".to_string()]));
    assert_eq!(sorted_tags(&st, "song.mp3"), Some(vec!["song".to_string()]));
    assert!(!st.index.contains_key("ignored/x y.txt"));
}

#[test]
fn c_scribe_splits_at_spaces() {
    let mut st = ProgramState::new();
    let files = args(&["/home/u/stuff/a b.c.txt"]);
    c_scribe(&mut st, &files, CWD, INDEX).unwrap();
    assert_eq!(sorted_tags(&st, "a b.c.txt"), Some(vec!["a".to_string(), "b.c".to_string()]));
}

#[test]
fn ignored_paths_are_prefixes() {
    let ignores = StringSet::from_strs(&["memes", "./.yx_index"]);
    assert!(check_ignored(&ignores, "/home/u/stuff/memes/a.png", CWD, INDEX).unwrap());
    assert!(!check_ignored(&ignores, "/home/u/stuff/memes2/a.png", CWD, INDEX).unwrap());
    // The index file is written relative to the index as `.yx_index`, whose
    // components do not start with those of `./.yx_index`.
    assert!(!check_ignored(&ignores, "/home/u/stuff/.yx_index", CWD, INDEX).unwrap());
}

#[test]
fn error_messages() {
    assert_eq!(YxError::IndexExists.message(), "An index already exists here! Consider deleting it.");
    assert_eq!(YxError::FileLacksTag.message(), "File doesn't have this tag!");
    assert_eq!(YxError::InvalidListAllMode.message(), "Invalid `yx la` mode!");
}

#[test]
fn record_copy_keeps_tags() {
    let rec = YxFileRecord { tags: StringSet::from_strs(&["a", "b"]) };
    assert_eq!(rec.copy().tags.items, rec.tags.items);
}

#[test]
fn wrong_argc_message_names_the_counts() {
    match parse_command(&args(&["yx", "LS", "a", "b", "c"])) {
        Err(YxError::WrongArgCount { allowed, given }) => {
            assert_eq!(
                wrong_argc_message(allowed, given),
                "This subcommand requires 0|1|2 arguments, but you only gave 3!"
            );
        },
        _ => panic!("expected a wrong number of arguments"),
    }
    assert_eq!(decimal(0), "0");
    assert_eq!(decimal(1234567), "1234567");
}

#[test]
fn parse_constraint_and_free() {
    match parse_command(&args(&["yx", "constraint", "tag", "music"])) {
        Ok(YxCommand::Constraint { condition, matchtype, tag }) => {
            assert_eq!((condition.as_str(), matchtype.as_str(), tag.as_str()), ("tag", "is", "music"));
        },
        _ => panic!("expected constraint"),
    }
    match parse_command(&args(&["yx", "constraint", "tag", "isnot", "meme"])) {
        Ok(YxCommand::Constraint { condition, matchtype, tag }) => {
            assert_eq!((condition.as_str(), matchtype.as_str(), tag.as_str()), ("tag", "isnot", "meme"));
        },
        _ => panic!("expected constraint"),
    }
    assert!(matches!(parse_command(&args(&["yx", "constraint", "tag"])), Err(YxError::WrongArgCount { given: 1, .. })));
    assert!(matches!(parse_command(&args(&["yx", "free"])), Ok(YxCommand::Free)));
    assert!(matches!(parse_command(&args(&["yx", "free", "x"])), Err(YxError::WrongArgCount { given: 1, .. })));
}

#[test]
fn constraint_then_listing_then_free() {
    let mut st = ProgramStatePathed::new(INDEX.to_string());
    c_add(&mut st, "fireflies.txt", &["music", "song-lyrics"], CWD).unwrap();
    c_add(&mut st, "amogus-meme.png", &["meme", "sus"], CWD).unwrap();
    c_add(&mut st, "amogus-drip.mp3", &["music", "meme", "sus"], CWD).unwrap();
    c_constraint(&mut st, "tag", "is", "music").unwrap();
    assert_eq!(st.state.constraints.cons, vec!["tag is music".to_string()]);
    let shown = select_entries(&st.state, None);
    assert_eq!(shown.len(), 2);
    assert!(shown.contains_key("fireflies.txt") && shown.contains_key("amogus-drip.mp3"));
    let shown = select_entries(&st.state, Some("meme"));
    assert_eq!(shown.len(), 1);
    assert!(shown.contains_key("amogus-drip.mp3"));
    c_free(&mut st);
    assert!(st.state.constraints.cons.is_empty());
    assert_eq!(st.state.index.len(), 3);
    assert_eq!(select_entries(&st.state, None).len(), 3);
    let by = select_entries(&st.state, Some("music"));
    assert_eq!(by.len(), 2);
    assert!(!by.contains_key("amogus-meme.png"));
}

#[test]
fn unreadable_constraint_is_refused() {
    let mut st = ProgramStatePathed::new(INDEX.to_string());
    assert!(matches!(c_constraint(&mut st, "tag", "is", "two words"), Err(YxError::UnreadableConstraint)));
    assert!(st.state.constraints.cons.is_empty());
    assert!(constraint_is_readable("tag is music"));
    assert!(!constraint_is_readable("tag music"));
    assert!(st.state.constraints.all_readable());
}

#[test]
fn rm_refuses_a_missing_tag() {
    let mut st = ProgramStatePathed::new(INDEX.to_string());
    c_add(&mut st, "a.txt", &["x"], CWD).unwrap();
    assert!(matches!(c_rm(&mut st, "a.txt", "y", CWD), Err(YxError::FileLacksTag)));
    assert!(matches!(c_rm(&mut st, "b.txt", "x", CWD), Err(YxError::FileNotInIndex)));
    assert_eq!(sorted_tags(&st.state, "a.txt"), Some(vec!["x".to_string()]));
    c_rm(&mut st, "a.txt", "x", CWD).unwrap();
    assert_eq!(sorted_tags(&st.state, "a.txt"), Some(vec![]));
}

#[test]
fn create_goes_into_the_directory_given() {
    assert_eq!(create_location(Some("/home/u/stuff-to-tag"), CWD), "/home/u/stuff-to-tag/.yx_index");
    assert_eq!(create_location(None, CWD), "/home/u/stuff/.yx_index");
}

#[test]
fn render_lays_files_out_beside_the_index() {
    assert_eq!(render_dir(INDEX), "/home/u/stuff/yx-out");
    assert_eq!(
        render_paths(INDEX, "memes/a.png"),
        Some(("/home/u/stuff/memes/a.png".to_string(), "/home/u/stuff/yx-out/a.png".to_string()))
    );
    assert_eq!(render_paths(INDEX, ".."), None);
}

#[test]
fn scribed_tags_are_one_more_than_delimiters() {
    let tags = process_into_tags("a b  c", &ScribeMethod::SplitBy(" "));
    assert_eq!(tags.len(), "a b  c".matches(' ').count() + 1);
}

#[test]
fn ignore_and_unignore_compare_paths_by_components() {
    let mut st = ProgramStatePathed::new(INDEX.to_string());
    st.state.ignores.insert("memes//old/".to_string());
    assert!(!c_ignore(&mut st, "memes/old", CWD).unwrap());
    assert_eq!(st.state.ignores.len(), 1);
    assert!(st.state.ignores.contains("memes//old/"));
    c_unignore(&mut st, "memes/old", CWD).unwrap();
    assert_eq!(st.state.ignores.len(), 0);
}

#[test]
fn set_holds_and_removes_paths_by_components() {
    let mut set = StringSet::from_strs(&["a//b", "c", "./d"]);
    assert!(set_holds_path(&set, "a/b/"));
    assert!(!set_holds_path(&set, "d"));
    assert!(set_holds_path(&set, "./d/"));
    set_remove_path(&mut set, "a/./b");
    assert_eq!(set.items, vec!["c".to_string(), "./d".to_string()]);
}

#[test]
fn c_rm_finds_the_file_by_components() {
    let mut st = ProgramStatePathed::new(INDEX.to_string());
    st.state.index.insert("sub/a.txt".to_string(), YxFileRecord::new("x".to_string()));
    assert!(file_has_tag(&st.state, "sub//a.txt", "x", CWD, INDEX).unwrap());
    c_rm(&mut st, "sub/./a.txt", "x", CWD).unwrap();
    assert_eq!(sorted_tags(&st.state, "sub/a.txt"), Some(vec![]));
    assert_eq!(st.state.index.len(), 1);
}

#[test]
fn sort_tag_counts_keeps_ties_in_order() {
    let counts = vec![
        ("b".to_string(), 2u32),
        ("a".to_string(), 1u32),
        ("d".to_string(), 2u32),
        ("c".to_string(), 1u32),
        ("e".to_string(), 3u32),
    ];
    let up = sort_tag_counts(counts.clone(), false);
    let up_names: Vec<String> = up.iter().map(|p| p.0.clone()).collect();
    assert_eq!(up_names, vec!["a", "c", "b", "d", "e"]);
    let down = sort_tag_counts(counts, true);
    let names: Vec<String> = down.iter().map(|p| p.0.clone()).collect();
    assert_eq!(names, vec!["e", "b", "d", "a", "c"]);
}

#[test]
fn create_location_joins_like_path_join() {
    assert_eq!(create_location(Some("/home/u/"), CWD), "/home/u/.yx_index");
    assert_eq!(create_location(Some("rel/dir"), CWD), "rel/dir/.yx_index");
    assert_eq!(create_location(Some(""), CWD), ".yx_index");
    assert_eq!(create_location(Some("/"), CWD), "/.yx_index");
    assert_eq!(
        create_location(Some("/home/u"), CWD),
        std::path::Path::new("/home/u").join(".yx_index").to_string_lossy()
    );
}
