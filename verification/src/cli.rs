//! The subcommands: what each does to the state, and how the command line
//! is read.
use vstd::prelude::*;
use crate::classes::{ProgramState, ProgramStatePathed, YxRenderMethod, YxRenderOptions};
use crate::error::{ArgCounts, YxError, argc_allows, argc_text_spec};
use crate::paths::{
    is_absolute_path,
    join_path,
    path_join,
    path_relative_to_index,
    relative_to_index_spec,
};
use crate::pathkey::{path_key_spec, same_path};
use crate::stringset::StringSet;
use crate::sub::{
    add_tags_spec,
    add_tags_to,
    index_became,
    rm_tags_from,
    rm_tags_spec,
    tags_set,
};
use crate::text::{
    decimal,
    decimal_spec,
    first_char,
    join_spec,
    lemma_join_push,
    lowercase,
    str_eq,
    strings_view,
    to_lowercase,
};

verus! {

/// `yx create`: the state to write to a new index, or an error when an
/// index already exists at the location.
pub fn c_create(index_exists: bool) -> (r: Result<ProgramState, YxError>)
    ensures
        index_exists ==> r == Err::<ProgramState, YxError>(YxError::IndexExists),
        !index_exists ==> match r {
            Ok(st) => st.wf() && st.index@ == Map::<Seq<char>, Set<Seq<char>>>::empty()
                && st.constraints.cons@.len() == 0 && st.ignores@ == Set::<Seq<char>>::empty(),
            Err(_) => false,
        },
{
    if index_exists {
        Err(YxError::IndexExists)
    } else {
        let st = ProgramState::new();
        Ok(st)
    }
}

/// `yx purge`: clears out every tag, constraint and ignored path of the
/// index.
pub fn c_purge(st: &mut ProgramStatePathed)
    ensures
        final(st).path == old(st).path,
        final(st).state.wf(),
        final(st).state.index@ == Map::<Seq<char>, Set<Seq<char>>>::empty(),
        final(st).state.constraints.cons@.len() == 0,
        final(st).state.ignores@ == Set::<Seq<char>>::empty(),
{
    st.state = ProgramState::new();
}

/// Some path of `ignores` has the components of `p`.
pub open spec fn holds_path(ignores: Set<Seq<char>>, p: Seq<char>) -> bool {
    exists|x: Seq<char>| ignores.contains(x) && #[trigger] path_key_spec(x) == path_key_spec(p)
}

/// The paths of `ignores` without those that have the components of `p`.
pub open spec fn without_path(ignores: Set<Seq<char>>, p: Seq<char>) -> Set<Seq<char>> {
    ignores.filter(|x: Seq<char>| path_key_spec(x) != path_key_spec(p))
}

/// Whether some path of `set` has the components of `p`.
pub fn set_holds_path(set: &StringSet, p: &str) -> (r: bool)
    ensures
        r == holds_path(set@, p@),
{
    let mut i: usize = 0;
    while i < set.items.len()
        invariant
            i <= set.items@.len(),
            forall|j: int| 0 <= j < i ==> path_key_spec(#[trigger] set.items@[j]@) != path_key_spec(p@),
        decreases set.items@.len() - i,
    {
        if same_path(set.items[i].as_str(), p) {
            assert(set.seq()[i as int] == set.items@[i as int]@);
            assert(set@.contains(set.items@[i as int]@));
            return true;
        }
        i = i + 1;
    }
    assert forall|x: Seq<char>| set@.contains(x) implies path_key_spec(x) != path_key_spec(p@) by {
        let j = choose|j: int| 0 <= j < set.seq().len() && set.seq()[j] == x;
        assert(set.seq()[j] == set.items@[j]@);
    }
    false
}

/// Takes every path with the components of `p` out of `set`.
pub fn set_remove_path(set: &mut StringSet, p: &str)
    requires
        old(set).wf(),
    ensures
        final(set).wf(),
        final(set)@ == without_path(old(set)@, p@),
{
    let ghost items = old(set).seq();
    let mut kept = StringSet::new();
    let mut i: usize = 0;
    while i < set.items.len()
        invariant
            items == set.seq(),
            kept.wf(),
            i <= items.len(),
            kept@ == without_path(items.take(i as int).to_set(), p@),
        decreases items.len() - i,
    {
        let ghost before = kept@;
        assert(items.take(i + 1) =~= items.take(i as int).push(items[i as int]));
        proof {
            items.take(i as int).lemma_push_to_set_commute(items[i as int]);
        }
        assert(items[i as int] == set.items@[i as int]@);
        if !same_path(set.items[i].as_str(), p) {
            kept.insert(set.items[i].clone());
            assert(kept@ =~= without_path(items.take(i + 1).to_set(), p@));
        } else {
            assert(kept@ =~= without_path(items.take(i + 1).to_set(), p@));
        }
        i = i + 1;
    }
    assert(items.take(items.len() as int) =~= items);
    *set = kept;
}

/// `yx ignore`: adds the target, written relative to the index, to the
/// ignored paths; says whether it was new. A path with the same
/// components as one already ignored is not new, and changes nothing.
pub fn c_ignore(st: &mut ProgramStatePathed, target: &str, cwd: &str) -> (r: Result<bool, YxError>)
    requires
        old(st).state.wf(),
        is_absolute_path(cwd@),
    ensures
        final(st).path == old(st).path,
        final(st).state.wf(),
        final(st).state.index == old(st).state.index,
        final(st).state.constraints == old(st).state.constraints,
        match relative_to_index_spec(target@, cwd@, old(st).path@) {
            Ok(rel) => r == Ok::<bool, YxError>(!holds_path(old(st).state.ignores@, rel))
                && final(st).state.ignores@ == (if holds_path(old(st).state.ignores@, rel) {
                old(st).state.ignores@
            } else {
                old(st).state.ignores@.insert(rel)
            }),
            Err(e) => r == Err::<bool, YxError>(e) && final(st).state.ignores == old(
                st,
            ).state.ignores,
        },
{
    let target = match path_relative_to_index(target, cwd, st.path.as_str()) {
        Ok(t) => t,
        Err(e) => return Err(e),
    };
    if set_holds_path(&st.state.ignores, target.as_str()) {
        return Ok(false);
    }
    st.state.ignores.insert(target);
    Ok(true)
}

/// `yx unignore`: takes the target, written relative to the index, out of
/// the ignored paths: every ignored path with its components.
pub fn c_unignore(st: &mut ProgramStatePathed, target: &str, cwd: &str) -> (r: Result<(), YxError>)
    requires
        old(st).state.wf(),
        is_absolute_path(cwd@),
    ensures
        final(st).path == old(st).path,
        final(st).state.wf(),
        final(st).state.index == old(st).state.index,
        final(st).state.constraints == old(st).state.constraints,
        match relative_to_index_spec(target@, cwd@, old(st).path@) {
            Ok(rel) => r is Ok && final(st).state.ignores@ == without_path(
                old(st).state.ignores@,
                rel,
            ),
            Err(e) => r == Err::<(), YxError>(e) && final(st).state.ignores == old(
                st,
            ).state.ignores,
        },
{
    let target = match path_relative_to_index(target, cwd, st.path.as_str()) {
        Ok(t) => t,
        Err(e) => return Err(e),
    };
    set_remove_path(&mut st.state.ignores, target.as_str());
    Ok(())
}

/// `yx add`: adds the tags to the target.
pub fn c_add(st: &mut ProgramStatePathed, target: &str, tags: &[&str], cwd: &str) -> (r: Result<
    (),
    YxError,
>)
    requires
        old(st).state.wf(),
        is_absolute_path(cwd@),
    ensures
        final(st).path == old(st).path,
        match relative_to_index_spec(target@, cwd@, old(st).path@) {
            Ok(rel) => r is Ok && index_became(
                old(st).state,
                final(st).state,
                add_tags_spec(old(st).state.index@, path_key_spec(rel), tags_set(tags@)),
            ),
            Err(e) => r == Err::<(), YxError>(e) && final(st).state == old(st).state,
        },
{
    add_tags_to(&mut st.state, target, tags, cwd, st.path.as_str())
}

/// `yx rm`: takes the tags from the target.
pub fn c_remove(st: &mut ProgramStatePathed, target: &str, tags: &[&str], cwd: &str) -> (r: Result<
    (),
    YxError,
>)
    requires
        old(st).state.wf(),
        is_absolute_path(cwd@),
    ensures
        final(st).path == old(st).path,
        match relative_to_index_spec(target@, cwd@, old(st).path@) {
            Ok(rel) => r is Ok && index_became(
                old(st).state,
                final(st).state,
                rm_tags_spec(old(st).state.index@, path_key_spec(rel), tags_set(tags@)),
            ),
            Err(e) => r == Err::<(), YxError>(e) && final(st).state == old(st).state,
        },
{
    rm_tags_from(&mut st.state, target, tags, cwd, st.path.as_str())
}

/// `yx rm`: takes one tag from the target, and refuses when the file has
/// no entry or lacks the tag; a refused removal changes nothing.
pub fn c_rm(st: &mut ProgramStatePathed, target: &str, tag: &str, cwd: &str) -> (r: Result<
    (),
    YxError,
>)
    requires
        old(st).state.wf(),
        is_absolute_path(cwd@),
    ensures
        final(st).path == old(st).path,
        match relative_to_index_spec(target@, cwd@, old(st).path@) {
            Ok(rel) => if !old(st).state.index@.contains_key(path_key_spec(rel)) {
                r == Err::<(), YxError>(YxError::FileNotInIndex) && final(st).state == old(
                    st,
                ).state
            } else if !old(st).state.index@[path_key_spec(rel)].contains(tag@) {
                r == Err::<(), YxError>(YxError::FileLacksTag) && final(st).state == old(st).state
            } else {
                r is Ok && index_became(
                    old(st).state,
                    final(st).state,
                    rm_tags_spec(old(st).state.index@, path_key_spec(rel), set![tag@]),
                )
            },
            Err(e) => r == Err::<(), YxError>(e) && final(st).state == old(st).state,
        },
{
    let has_tag = match crate::sub::file_has_tag(&st.state, target, tag, cwd, st.path.as_str()) {
        Ok(b) => b,
        Err(e) => return Err(e),
    };
    if !has_tag {
        return Err(YxError::FileLacksTag);
    }
    let tags: Vec<&str> = vec![tag];
    assert(tags_set(tags@) =~= set![tag@]) by {
        assert(crate::text::strs_view(tags@) =~= seq![tag@]);
        assert(seq![tag@][0] == tag@);
        assert(seq![tag@].to_set() =~= set![tag@]);
    }
    c_remove(st, target, tags.as_slice(), cwd)
}

/// Where `yx create` puts the index: in the directory given, or else in
/// the working directory.
pub fn create_location(dir: Option<&str>, cwd: &str) -> (r: String)
    ensures
        r@ == path_join(
            match dir {
                Some(d) => d@,
                None => cwd@,
            },
            ".yx_index"@,
        ),
{
    match dir {
        Some(d) => join_path(d, ".yx_index"),
        None => join_path(cwd, ".yx_index"),
    }
}

/// The ignored path that every loaded state gets: the index file itself.
pub open spec fn index_file_entry() -> Seq<char> {
    "./.yx_index"@
}

/// After an index is read, the index file itself is ignored.
pub fn ignore_index_file(st: &mut ProgramState)
    requires
        old(st).wf(),
    ensures
        final(st).wf(),
        final(st).index == old(st).index,
        final(st).constraints == old(st).constraints,
        final(st).ignores@ == old(st).ignores@.insert(index_file_entry()),
{
    st.ignores.insert("./.yx_index".to_owned());
}

/// The closest index among those found from the working directory
/// outwards: the first one, or an error when there is none.
pub fn get_closest_index(found: &Vec<String>) -> (r: Result<String, YxError>)
    ensures
        found@.len() == 0 ==> r == Err::<String, YxError>(YxError::IndexNotFound),
        found@.len() > 0 ==> match r {
            Ok(p) => p@ == found@[0]@,
            Err(_) => false,
        },
{
    if found.len() == 0 {
        Err(YxError::IndexNotFound)
    } else {
        Ok(found[0].clone())
    }
}

/// The directories from `dir` up to the root: `dir`, its parent, and so on.
pub open spec fn ancestors(dir: Seq<char>) -> Seq<Seq<char>>
    decreases dir.len(),
{
    match crate::paths::path_parent(dir) {
        Some(p) => if p.len() < dir.len() {
            seq![dir] + ancestors(p)
        } else {
            seq![dir]
        },
        None => seq![dir],
    }
}

/// Where an index could lie, from the working directory `cwd` outwards:
/// the index file name joined to each of its ancestors.
pub open spec fn index_candidates_spec(cwd: Seq<char>) -> Seq<Seq<char>> {
    ancestors(cwd).map_values(|d: Seq<char>| path_join(d, ".yx_index"@))
}

/// The places where an index could lie, from the working directory
/// outwards; those where one exists are the current indexes, inner first.
pub fn index_candidates(cwd: &str) -> (r: Vec<String>)
    ensures
        strings_view(r@) == index_candidates_spec(cwd@),
{
    let mut dir = cwd.to_owned();
    let mut paths: Vec<String> = Vec::new();
    loop
        invariant
            strings_view(paths@) + index_candidates_spec(dir@) == index_candidates_spec(cwd@),
        decreases dir@.len(),
    {
        let index_path = join_path(dir.as_str(), ".yx_index");
        let ghost before = strings_view(paths@);
        paths.push(index_path);
        assert(strings_view(paths@) =~= before.push(path_join(dir@, ".yx_index"@)));
        match crate::paths::parent_of(dir.as_str()) {
            Some(p) => {
                assert(index_candidates_spec(dir@) =~= seq![path_join(dir@, ".yx_index"@)]
                    + index_candidates_spec(p@));
                assert(strings_view(paths@) + index_candidates_spec(p@) =~= before
                    + index_candidates_spec(dir@));
                dir = p;
            },
            None => {
                assert(index_candidates_spec(dir@) =~= seq![path_join(dir@, ".yx_index"@)]);
                assert(strings_view(paths@) =~= before + index_candidates_spec(dir@));
                return paths;
            },
        }
    }
}

/// `f` answered `b` for some string slice that reads `c`.
pub open spec fn answered<F: Fn(&str) -> bool>(f: F, c: Seq<char>, b: bool) -> bool {
    exists|s: &str| s@ == c && #[trigger] call_ensures(f, (s,), b)
}

/// The items of `c` whose flag in `kept` is set, in order.
pub open spec fn select(c: Seq<Seq<char>>, kept: Seq<bool>) -> Seq<Seq<char>>
    decreases c.len(),
{
    if c.len() == 0 {
        Seq::empty()
    } else if kept[c.len() - 1] {
        select(c.drop_last(), kept).push(c.last())
    } else {
        select(c.drop_last(), kept)
    }
}

/// The indexes that exist from the working directory outwards, inner
/// first: the candidates for which `index_exists` answered yes.
pub fn get_all_current_indexes<F: Fn(&str) -> bool>(cwd: &str, index_exists: F) -> (r: Vec<String>)
    requires
        forall|s: &str| #[trigger] call_requires(index_exists, (s,)),
    ensures
        exists|kept: Seq<bool>|
            {
                &&& kept.len() == index_candidates_spec(cwd@).len()
                &&& strings_view(r@) == select(index_candidates_spec(cwd@), kept)
                &&& forall|i: int|
                    0 <= i < kept.len() ==> answered(
                        index_exists,
                        index_candidates_spec(cwd@)[i],
                        #[trigger] kept[i],
                    )
            },
{
    let candidates = index_candidates(cwd);
    let ghost cands = strings_view(candidates@);
    let mut paths: Vec<String> = Vec::new();
    let ghost mut kept: Seq<bool> = Seq::empty();
    let mut i: usize = 0;
    while i < candidates.len()
        invariant
            cands == strings_view(candidates@),
            cands == index_candidates_spec(cwd@),
            i <= candidates@.len(),
            kept.len() == i,
            forall|s: &str| #[trigger] call_requires(index_exists, (s,)),
            strings_view(paths@) == select(cands.take(i as int), kept),
            forall|j: int| 0 <= j < i ==> answered(index_exists, cands[j], #[trigger] kept[j]),
        decreases candidates@.len() - i,
    {
        let s = candidates[i].as_str();
        let b = index_exists(s);
        assert(cands.take(i + 1).drop_last() =~= cands.take(i as int));
        let ghost kept0 = kept;
        proof {
            kept = kept.push(b);
        }
        assert(select(cands.take(i as int), kept) == select(cands.take(i as int), kept0)) by {
            lemma_select_prefix(cands.take(i as int), kept0, kept);
        }
        if b {
            let ghost before = strings_view(paths@);
            paths.push(candidates[i].clone());
            assert(strings_view(paths@) =~= before.push(cands[i as int]));
        }
        assert forall|j: int| 0 <= j < i + 1 implies answered(index_exists, cands[j], #[trigger] kept[j]) by {
            if j < i {
                assert(kept0[j] == kept[j]);
                assert(answered(index_exists, cands[j], kept0[j]));
            } else {
                assert(s@ == cands[j]);
                assert(call_ensures(index_exists, (s,), kept[j]));
            }
        }
        i = i + 1;
    }
    assert(cands.take(candidates@.len() as int) =~= cands);
    assert(strings_view(paths@) == select(index_candidates_spec(cwd@), kept));
    paths
}

/// Selecting from `c` depends only on the flags of its own positions.
proof fn lemma_select_prefix(c: Seq<Seq<char>>, k1: Seq<bool>, k2: Seq<bool>)
    requires
        k1.len() >= c.len(),
        k2.len() >= c.len(),
        forall|j: int| 0 <= j < c.len() ==> k1[j] == k2[j],
    ensures
        select(c, k1) == select(c, k2),
    decreases c.len(),
{
    if c.len() > 0 {
        lemma_select_prefix(c.drop_last(), k1, k2);
    }
}

/// Where a new index goes by default: in the working directory.
pub fn cwd_index_path(cwd: &str) -> (r: String)
    ensures
        r@ == path_join(cwd@, ".yx_index"@),
{
    join_path(cwd, ".yx_index")
}

/// The message for a subcommand that got `given` arguments but takes the
/// numbers written `allowed`.
pub open spec fn argc_message_spec(allowed: Seq<char>, given: nat) -> Seq<char> {
    "This subcommand requires "@ + allowed + " arguments, but you only gave "@ + decimal_spec(given)
        + "!"@
}

/// The counts written in decimal and joined with `|`.
pub open spec fn joined_counts_spec(lens: Seq<usize>) -> Seq<char> {
    join_spec(lens.map_values(|n: usize| decimal_spec(n as nat)), "|"@)
}

/// The message for a subcommand that got `given` arguments but takes the
/// numbers written `allowed`.
pub fn argc_message(allowed: &str, given: usize) -> (r: String)
    ensures
        r@ == argc_message_spec(allowed@, given as nat),
{
    let mut r = String::new();
    r.append("This subcommand requires ");
    r.append(allowed);
    r.append(" arguments, but you only gave ");
    r.append(decimal(given).as_str());
    r.append("!");
    assert(r@ =~= argc_message_spec(allowed@, given as nat));
    r
}

/// The message for a wrong number of arguments.
pub fn wrong_argc_message(allowed: ArgCounts, given: usize) -> (r: String)
    ensures
        r@ == argc_message_spec(argc_text_spec(allowed), given as nat),
{
    argc_message(allowed.text(), given)
}

/// Checks that a subcommand got a number of arguments that it takes. A
/// wrong number makes `yx` panic, so such inputs are left out here;
/// `argc_check` gives the message of that panic.
pub fn assert_argc(args: &[&str], lens: &[usize])
    requires
        lens@.contains(args@.len() as usize),
{
}

/// Checks that a subcommand got a number of arguments that it takes; when
/// it did not, the error is the message that `yx` panics with, naming the
/// numbers it takes.
pub fn argc_check(args: &[&str], lens: &[usize]) -> (r: Result<(), String>)
    ensures
        lens@.contains(args@.len() as usize) ==> r is Ok,
        match r {
            Ok(_) => lens@.contains(args@.len() as usize),
            Err(msg) => msg@ == argc_message_spec(joined_counts_spec(lens@), args@.len()),
        },
{
    let len = args.len();
    let mut i: usize = 0;
    while i < lens.len()
        invariant
            len == args@.len(),
            i <= lens@.len(),
            forall|j: int| 0 <= j < i ==> lens@[j] != len,
        decreases lens@.len() - i,
    {
        if lens[i] == len {
            assert(lens@[i as int] == len);
            return Ok(());
        }
        i = i + 1;
    }
    let ghost parts = lens@.map_values(|n: usize| decimal_spec(n as nat));
    let mut joined = String::new();
    let mut k: usize = 0;
    while k < lens.len()
        invariant
            parts == lens@.map_values(|n: usize| decimal_spec(n as nat)),
            k <= lens@.len(),
            joined@ == join_spec(parts.take(k as int), "|"@),
        decreases lens@.len() - k,
    {
        proof {
            reveal_strlit("|");
        }
        let ghost before = joined@;
        if k > 0 {
            joined.append("|");
        }
        joined.append(decimal(lens[k]).as_str());
        proof {
            assert(parts.take(k + 1) =~= parts.take(k as int).push(parts[k as int]));
            if k > 0 {
                lemma_join_push(parts.take(k as int), "|"@, parts[k as int]);
            } else {
                assert(parts.take(1) =~= seq![parts[0]]);
            }
        }
        k = k + 1;
        assert(joined@ =~= join_spec(parts.take(k as int), "|"@));
    }
    assert(parts.take(lens@.len() as int) =~= parts);
    Err(argc_message(joined.as_str(), len))
}

/// The full name of a subcommand that is given by an alias; any other
/// name stays as it is.
pub open spec fn alias_spec(cmd: Seq<char>) -> Seq<char> {
    if cmd == "ls"@ {
        "list"@
    } else if cmd == "move"@ {
        "mv"@
    } else if cmd == "copy"@ {
        "cp"@
    } else if cmd == "listall"@ {
        "la"@
    } else if cmd == "ignorelist"@ {
        "ilist"@
    } else if cmd == "mvtags"@ || cmd == "movetags"@ {
        "mvt"@
    } else if cmd == "cptags"@ || cmd == "owtags"@ || cmd == "overwritetags"@ || cmd
        == "overwrite"@ || cmd == "cpoverwrite"@ || cmd == "cpo"@ || cmd == "copytags"@ {
        "cpt"@
    } else if cmd == "merge"@ || cmd == "mergetags"@ || cmd == "mt"@ || cmd == "met"@ || cmd
        == "append"@ || cmd == "appendtags"@ {
        "apt"@
    } else if cmd == "moveapt"@ || cmd == "moveappend"@ || cmd == "moveappendtags"@ {
        "mapt"@
    } else {
        cmd
    }
}

/// Replaces an alias of a subcommand with its full name.
pub fn cmd_replace_aliases<'a>(cmd: &'a str) -> (r: &'a str)
    ensures
        r@ == alias_spec(cmd@),
{
    if str_eq(cmd, "ls") {
        "list"
    } else if str_eq(cmd, "move") {
        "mv"
    } else if str_eq(cmd, "copy") {
        "cp"
    } else if str_eq(cmd, "listall") {
        "la"
    } else if str_eq(cmd, "ignorelist") {
        "ilist"
    } else if str_eq(cmd, "mvtags") || str_eq(cmd, "movetags") {
        "mvt"
    } else if str_eq(cmd, "cptags") || str_eq(cmd, "owtags") || str_eq(cmd, "overwritetags")
        || str_eq(cmd, "overwrite") || str_eq(cmd, "cpoverwrite") || str_eq(cmd, "cpo")
        || str_eq(cmd, "copytags") {
        "cpt"
    } else if str_eq(cmd, "merge") || str_eq(cmd, "mergetags") || str_eq(cmd, "mt") || str_eq(
        cmd,
        "met",
    ) || str_eq(cmd, "append") || str_eq(cmd, "appendtags") {
        "apt"
    } else if str_eq(cmd, "moveapt") || str_eq(cmd, "moveappend") || str_eq(
        cmd,
        "moveappendtags",
    ) {
        "mapt"
    } else {
        cmd
    }
}

/// The answer read from a reply to a yes/no prompt, given the reply in
/// lower case: none when it is empty (the user is asked again), else
/// whether its first character is `y`.
pub fn answer_from_lowered(lower: &str) -> (r: Option<bool>)
    ensures
        lower@.len() == 0 ==> r is None,
        lower@.len() > 0 ==> r == Some(lower@[0] == 'y'),
{
    match first_char(lower) {
        Some(c) => Some(c == 'y'),
        None => None,
    }
}

/// The answer read from a reply to a yes/no prompt: none when the reply is
/// empty (the user is asked again), else whether its first character, in
/// lower case, is `y`.
pub fn prompt_answer(reply: &str) -> (r: Option<bool>)
    ensures
        lowercase(reply@).len() == 0 ==> r is None,
        lowercase(reply@).len() > 0 ==> r == Some(lowercase(reply@)[0] == 'y'),
{
    let lower = to_lowercase(reply);
    answer_from_lowered(lower.as_str())
}


/// What `yx purge` was asked.
#[derive(Debug)]
pub enum PurgeMode {
    /// `yes` was given: purge without asking.
    Confirmed,
    /// Nothing was given: ask first.
    Prompt,
    /// Something else was given.
    Invalid,
}

/// The file edits of `mv`, `mvt`, `cp`, `cpt`, `apt` and `mapt`.
#[derive(Debug)]
pub enum FileEditAction {
    MoveFileAndTags,
    MoveTags,
    CopyFileAndTags,
    CopyTags,
    AppendTags,
    AppendTagsRmOld,
}

/// The order in which `yx la` lists tags.
#[derive(Debug)]
pub enum ListAllOrder {
    /// As they come, without counts.
    Unsorted,
    /// By count, the rarest first (`l->h`).
    LowToHigh,
    /// By count, the most common first (`h->l`).
    HighToLow,
    /// An ordering that is not known.
    Invalid,
}

/// Which entries `yx list` shows.
#[derive(Debug)]
pub enum ListMode {
    /// Every entry.
    All,
    /// The entries whose files exist.
    Valid,
    /// The entries whose files are missing.
    Missing,
    /// A mode that is not known.
    Invalid,
}

/// A command line, read.
#[derive(Debug)]
pub enum YxCommand {
    Help,
    Create { location: Option<String> },
    Purge { mode: PurgeMode },
    Ignore { target: String },
    Unignore { target: String },
    IgnoreList,
    Add { target: String, tags: Vec<String> },
    Remove { target: String, tags: Vec<String> },
    FileEdit { action: FileEditAction, from: String, to: String },
    Scribe { target: String },
    Render { options: YxRenderOptions },
    ListAll { order: ListAllOrder },
    List { which: ListMode },
    ListBy { tag: String },
    Constraint { condition: String, matchtype: String, tag: String },
    Free,
}

/// A command line, read, with its strings seen as sequences of characters.
pub enum CommandSpec {
    Help,
    Create { location: Option<Seq<char>> },
    Purge { mode: PurgeMode },
    Ignore { target: Seq<char> },
    Unignore { target: Seq<char> },
    IgnoreList,
    Add { target: Seq<char>, tags: Seq<Seq<char>> },
    Remove { target: Seq<char>, tags: Seq<Seq<char>> },
    FileEdit { action: FileEditAction, from: Seq<char>, to: Seq<char> },
    Scribe { target: Seq<char> },
    Render { copy: bool, rename: bool, iall: bool },
    ListAll { order: ListAllOrder },
    List { which: ListMode },
    ListBy { tag: Seq<char> },
    Constraint { condition: Seq<char>, matchtype: Seq<char>, tag: Seq<char> },
    Free,
}

impl View for YxCommand {
    type V = CommandSpec;

    open spec fn view(&self) -> CommandSpec {
        match self {
            YxCommand::Help => CommandSpec::Help,
            YxCommand::Create { location } => CommandSpec::Create {
                location: match location {
                    Some(l) => Some(l@),
                    None => None,
                },
            },
            YxCommand::Purge { mode } => CommandSpec::Purge { mode: *mode },
            YxCommand::Ignore { target } => CommandSpec::Ignore { target: target@ },
            YxCommand::Unignore { target } => CommandSpec::Unignore { target: target@ },
            YxCommand::IgnoreList => CommandSpec::IgnoreList,
            YxCommand::Add { target, tags } => CommandSpec::Add {
                target: target@,
                tags: strings_view(tags@),
            },
            YxCommand::Remove { target, tags } => CommandSpec::Remove {
                target: target@,
                tags: strings_view(tags@),
            },
            YxCommand::FileEdit { action, from, to } => CommandSpec::FileEdit {
                action: *action,
                from: from@,
                to: to@,
            },
            YxCommand::Scribe { target } => CommandSpec::Scribe { target: target@ },
            YxCommand::Render { options } => CommandSpec::Render {
                copy: options.method is Copy,
                rename: options.rename,
                iall: options.iall,
            },
            YxCommand::ListAll { order } => CommandSpec::ListAll { order: *order },
            YxCommand::List { which } => CommandSpec::List { which: *which },
            YxCommand::ListBy { tag } => CommandSpec::ListBy { tag: tag@ },
            YxCommand::Constraint { condition, matchtype, tag } => CommandSpec::Constraint {
                condition: condition@,
                matchtype: matchtype@,
                tag: tag@,
            },
            YxCommand::Free => CommandSpec::Free,
        }
    }
}

/// A read command line seen through the view of the command.
pub open spec fn command_result_view(r: Result<YxCommand, YxError>) -> Result<CommandSpec, YxError> {
    match r {
        Ok(c) => Ok(c@),
        Err(e) => Err(e),
    }
}

/// The file edit that a subcommand name stands for, if it stands for one.
pub open spec fn file_edit_spec(cmd: Seq<char>) -> Option<FileEditAction> {
    if cmd == "mv"@ {
        Some(FileEditAction::MoveFileAndTags)
    } else if cmd == "mvt"@ {
        Some(FileEditAction::MoveTags)
    } else if cmd == "cp"@ {
        Some(FileEditAction::CopyFileAndTags)
    } else if cmd == "cpt"@ {
        Some(FileEditAction::CopyTags)
    } else if cmd == "apt"@ {
        Some(FileEditAction::AppendTags)
    } else if cmd == "mapt"@ {
        Some(FileEditAction::AppendTagsRmOld)
    } else {
        None
    }
}

/// When `n` arguments are a number that the subcommand takes, the
/// command is `c`; otherwise it is the wrong number of arguments.
pub open spec fn argc_then(n: nat, allowed: ArgCounts, c: CommandSpec) -> Result<CommandSpec, YxError> {
    if argc_allows(allowed, n) {
        Ok(c)
    } else {
        Err(YxError::WrongArgCount { allowed, given: n as usize })
    }
}

/// Checks that `n` arguments are a number that the subcommand takes.
fn check_argc(allowed: ArgCounts, n: usize) -> (r: Result<(), YxError>)
    ensures
        argc_allows(allowed, n as nat) ==> r is Ok,
        !argc_allows(allowed, n as nat) ==> r == Err::<(), YxError>(
            YxError::WrongArgCount { allowed, given: n },
        ),
{
    if allowed.allows(n) {
        Ok(())
    } else {
        Err(YxError::WrongArgCount { allowed, given: n })
    }
}

/// How `yx` reads its command line: `args[0]` is the program, `args[1]`
/// the subcommand (in any case, or an alias), the rest its arguments.
/// Each subcommand takes only certain numbers of arguments (`add` a file
/// and one or more tags); too few arguments overall, or an unknown
/// subcommand, show the help.
pub open spec fn command_spec(args: Seq<Seq<char>>) -> Result<CommandSpec, YxError> {
    if args.len() < 2 {
        Ok(CommandSpec::Help)
    } else {
        command_from(
            args,
            lowercase(args[1]),
            if args.len() > 2 {
                lowercase(args[2])
            } else {
                Seq::empty()
            },
        )
    }
}

/// The command of a command line of at least two items, given the
/// subcommand in lower case (`cmd_lower`) and the first argument in lower
/// case (`first_lower`, used only when there is a first argument).
pub open spec fn command_from(
    args: Seq<Seq<char>>,
    cmd_lower: Seq<char>,
    first_lower: Seq<char>,
) -> Result<CommandSpec, YxError> {
    let cmd = alias_spec(cmd_lower);
    let rest = args.skip(2);
    let n = rest.len();
    if cmd == "create"@ {
        argc_then(
            n,
            ArgCounts::ZeroOrOne,
            CommandSpec::Create {
                location: if n == 0 {
                    None
                } else {
                    Some(rest[0])
                },
            },
        )
    } else if cmd == "purge"@ {
        argc_then(
            n,
            ArgCounts::ZeroOrOne,
            CommandSpec::Purge {
                mode: if n >= 1 && first_lower == "yes"@ {
                    PurgeMode::Confirmed
                } else if n == 0 {
                    PurgeMode::Prompt
                } else {
                    PurgeMode::Invalid
                },
            },
        )
    } else if cmd == "ignore"@ {
        argc_then(n, ArgCounts::One, CommandSpec::Ignore { target: rest[0] })
    } else if cmd == "unignore"@ {
        argc_then(n, ArgCounts::One, CommandSpec::Unignore { target: rest[0] })
    } else if cmd == "ilist"@ {
        argc_then(n, ArgCounts::Zero, CommandSpec::IgnoreList)
    } else if cmd == "add"@ {
        argc_then(n, ArgCounts::TwoOrMore, CommandSpec::Add { target: rest[0], tags: rest.skip(1) })
    } else if cmd == "rm"@ {
        argc_then(n, ArgCounts::Two, CommandSpec::Remove { target: rest[0], tags: seq![rest[1]] })
    } else if file_edit_spec(cmd) is Some {
        argc_then(
            n,
            ArgCounts::Two,
            CommandSpec::FileEdit {
                action: file_edit_spec(cmd).unwrap(),
                from: rest[0],
                to: rest[1],
            },
        )
    } else if cmd == "scribe"@ {
        argc_then(
            n,
            ArgCounts::ZeroOrOne,
            CommandSpec::Scribe {
                target: if n == 0 {
                    "."@
                } else {
                    rest[0]
                },
            },
        )
    } else if cmd == "render"@ {
        argc_then(
            n,
            ArgCounts::ZeroToTwo,
            CommandSpec::Render {
                copy: rest.contains("copy"@),
                rename: rest.contains("named"@),
                iall: rest.contains("iall"@),
            },
        )
    } else if cmd == "la"@ {
        argc_then(
            n,
            ArgCounts::ZeroOrOne,
            CommandSpec::ListAll {
                order: if n == 0 {
                    ListAllOrder::Unsorted
                } else if first_lower == "l->h"@ {
                    ListAllOrder::LowToHigh
                } else if first_lower == "h->l"@ {
                    ListAllOrder::HighToLow
                } else {
                    ListAllOrder::Invalid
                },
            },
        )
    } else if cmd == "list"@ {
        argc_then(
            n,
            ArgCounts::ZeroToTwo,
            if n == 2 && first_lower == "by"@ {
                CommandSpec::ListBy { tag: rest[1] }
            } else {
                CommandSpec::List {
                    which: if n == 1 && first_lower == "valid"@ {
                        ListMode::Valid
                    } else if n == 1 && first_lower == "missing"@ {
                        ListMode::Missing
                    } else if n == 1 {
                        ListMode::Invalid
                    } else {
                        ListMode::All
                    },
                }
            },
        )
    } else if cmd == "constraint"@ {
        argc_then(
            n,
            ArgCounts::TwoOrThree,
            CommandSpec::Constraint {
                condition: rest[0],
                matchtype: if n == 2 {
                    "is"@
                } else {
                    rest[1]
                },
                tag: rest[n - 1],
            },
        )
    } else if cmd == "free"@ {
        argc_then(n, ArgCounts::Zero, CommandSpec::Free)
    } else {
        Ok(CommandSpec::Help)
    }
}

/// Whether one of `args[from..]` is `s`.
fn args_contain(args: &Vec<String>, from: usize, s: &str) -> (r: bool)
    requires
        from <= args@.len(),
    ensures
        r == strings_view(args@).skip(from as int).contains(s@),
{
    let mut i: usize = from;
    while i < args.len()
        invariant
            from <= i <= args@.len(),
            forall|j: int| from <= j < i ==> args@[j]@ != s@,
        decreases args@.len() - i,
    {
        if str_eq(args[i].as_str(), s) {
            assert(strings_view(args@).skip(from as int)[i - from] == s@);
            return true;
        }
        i = i + 1;
    }
    assert forall|j: int| 0 <= j < strings_view(args@).skip(from as int).len() implies strings_view(
        args@,
    ).skip(from as int)[j] != s@ by {
        assert(strings_view(args@).skip(from as int)[j] == args@[from + j]@);
    }
    false
}

/// The file edit that a subcommand name stands for, if it stands for one.
fn file_edit_action(cmd: &str) -> (r: Option<FileEditAction>)
    ensures
        r == file_edit_spec(cmd@),
{
    if str_eq(cmd, "mv") {
        Some(FileEditAction::MoveFileAndTags)
    } else if str_eq(cmd, "mvt") {
        Some(FileEditAction::MoveTags)
    } else if str_eq(cmd, "cp") {
        Some(FileEditAction::CopyFileAndTags)
    } else if str_eq(cmd, "cpt") {
        Some(FileEditAction::CopyTags)
    } else if str_eq(cmd, "apt") {
        Some(FileEditAction::AppendTags)
    } else if str_eq(cmd, "mapt") {
        Some(FileEditAction::AppendTagsRmOld)
    } else {
        None
    }
}

/// Reads the command line of `yx` into the command that it asks for.
pub fn parse_command(args: &Vec<String>) -> (r: Result<YxCommand, YxError>)
    ensures
        command_result_view(r) == command_spec(strings_view(args@)),
{
    if args.len() < 2 {
        return Ok(YxCommand::Help);
    }
    let cmd_lower = to_lowercase(args[1].as_str());
    let first_lower = if args.len() > 2 {
        to_lowercase(args[2].as_str())
    } else {
        String::new()
    };
    assert(strings_view(args@)[1] == args@[1]@);
    assert(args.len() > 2 ==> strings_view(args@)[2] == args@[2]@);
    parse_lowered(args, cmd_lower.as_str(), first_lower.as_str())
}

/// Reads a command line of at least two items, given its subcommand in
/// lower case and its first argument in lower case (empty when there is
/// none).
pub fn parse_lowered(args: &Vec<String>, cmd_lower: &str, first_lower: &str) -> (r: Result<
    YxCommand,
    YxError,
>)
    requires
        args@.len() >= 2,
    ensures
        command_result_view(r) == command_from(strings_view(args@), cmd_lower@, first_lower@),
{
    let ghost sargs = strings_view(args@);
    let cmd = cmd_replace_aliases(cmd_lower);
    let n = args.len() - 2;
    let ghost rest = sargs.skip(2);
    assert(rest.len() == n);
    assert(forall|j: int| 0 <= j < n ==> #[trigger] rest[j] == args@[j + 2]@);
    if str_eq(cmd, "create") {
        if let Err(e) = check_argc(ArgCounts::ZeroOrOne, n) {
            return Err(e);
        }
        let location = if n == 0 {
            None
        } else {
            Some(args[2].clone())
        };
        Ok(YxCommand::Create { location })
    } else if str_eq(cmd, "purge") {
        if let Err(e) = check_argc(ArgCounts::ZeroOrOne, n) {
            return Err(e);
        }
        let confirmed = n >= 1 && str_eq(first_lower, "yes");
        let mode = if confirmed {
            PurgeMode::Confirmed
        } else if n == 0 {
            PurgeMode::Prompt
        } else {
            PurgeMode::Invalid
        };
        Ok(YxCommand::Purge { mode })
    } else if str_eq(cmd, "ignore") {
        if let Err(e) = check_argc(ArgCounts::One, n) {
            return Err(e);
        }
        Ok(YxCommand::Ignore { target: args[2].clone() })
    } else if str_eq(cmd, "unignore") {
        if let Err(e) = check_argc(ArgCounts::One, n) {
            return Err(e);
        }
        Ok(YxCommand::Unignore { target: args[2].clone() })
    } else if str_eq(cmd, "ilist") {
        if let Err(e) = check_argc(ArgCounts::Zero, n) {
            return Err(e);
        }
        Ok(YxCommand::IgnoreList)
    } else if str_eq(cmd, "add") {
        if let Err(e) = check_argc(ArgCounts::TwoOrMore, n) {
            return Err(e);
        }
        let mut tags: Vec<String> = Vec::new();
        let mut i: usize = 3;
        while i < args.len()
            invariant
                3 <= i <= args@.len(),
                strings_view(tags@) =~= strings_view(args@).subrange(3, i as int),
            decreases args@.len() - i,
        {
            let ghost before = strings_view(tags@);
            tags.push(args[i].clone());
            assert(strings_view(tags@) =~= before.push(args@[i as int]@));
            i = i + 1;
        }
        assert(strings_view(tags@) =~= rest.skip(1));
        Ok(YxCommand::Add { target: args[2].clone(), tags })
    } else if str_eq(cmd, "rm") {
        if let Err(e) = check_argc(ArgCounts::Two, n) {
            return Err(e);
        }
        let tags = vec![args[3].clone()];
        assert(strings_view(tags@) =~= seq![rest[1]]);
        Ok(YxCommand::Remove { target: args[2].clone(), tags })
    } else if let Some(action) = file_edit_action(cmd) {
        if let Err(e) = check_argc(ArgCounts::Two, n) {
            return Err(e);
        }
        Ok(YxCommand::FileEdit { action, from: args[2].clone(), to: args[3].clone() })
    } else if str_eq(cmd, "scribe") {
        if let Err(e) = check_argc(ArgCounts::ZeroOrOne, n) {
            return Err(e);
        }
        let target = if n == 0 {
            ".".to_owned()
        } else {
            args[2].clone()
        };
        Ok(YxCommand::Scribe { target })
    } else if str_eq(cmd, "render") {
        if let Err(e) = check_argc(ArgCounts::ZeroToTwo, n) {
            return Err(e);
        }
        let copy = args_contain(args, 2, "copy");
        let rename = args_contain(args, 2, "named");
        let iall = args_contain(args, 2, "iall");
        let method = if copy {
            YxRenderMethod::Copy
        } else {
            YxRenderMethod::Hardlink
        };
        Ok(YxCommand::Render { options: YxRenderOptions { method, rename, iall } })
    } else if str_eq(cmd, "la") {
        if let Err(e) = check_argc(ArgCounts::ZeroOrOne, n) {
            return Err(e);
        }
        let order = if n == 0 {
            ListAllOrder::Unsorted
        } else {
            if str_eq(first_lower, "l->h") {
                ListAllOrder::LowToHigh
            } else if str_eq(first_lower, "h->l") {
                ListAllOrder::HighToLow
            } else {
                ListAllOrder::Invalid
            }
        };
        Ok(YxCommand::ListAll { order })
    } else if str_eq(cmd, "list") {
        if let Err(e) = check_argc(ArgCounts::ZeroToTwo, n) {
            return Err(e);
        }
        if n == 2 && str_eq(first_lower, "by") {
            return Ok(YxCommand::ListBy { tag: args[3].clone() });
        }
        let mode = if n == 1 && str_eq(first_lower, "valid") {
            ListMode::Valid
        } else if n == 1 && str_eq(first_lower, "missing") {
            ListMode::Missing
        } else if n == 1 {
            ListMode::Invalid
        } else {
            ListMode::All
        };
        Ok(YxCommand::List { which: mode })
    } else if str_eq(cmd, "constraint") {
        if let Err(e) = check_argc(ArgCounts::TwoOrThree, n) {
            return Err(e);
        }
        let matchtype = if n == 2 {
            "is".to_owned()
        } else {
            args[3].clone()
        };
        Ok(YxCommand::Constraint {
            condition: args[2].clone(),
            matchtype,
            tag: args[n + 1].clone(),
        })
    } else if str_eq(cmd, "free") {
        if let Err(e) = check_argc(ArgCounts::Zero, n) {
            return Err(e);
        }
        Ok(YxCommand::Free)
    } else {
        Ok(YxCommand::Help)
    }
}

/// `x` comes no later than `y` in the order asked for.
pub open spec fn count_in_order(x: u32, y: u32, high_first: bool) -> bool {
    if high_first {
        x >= y
    } else {
        x <= y
    }
}

/// The counts are in the order asked for.
pub open spec fn counts_sorted(s: Seq<(String, u32)>, high_first: bool) -> bool {
    forall|a: int, b: int| 0 <= a < b < s.len() ==> count_in_order(s[a].1, s[b].1, high_first)
}

/// The tag and count has the count `c`.
pub open spec fn has_count(c: u32) -> spec_fn((String, u32)) -> bool {
    |p: (String, u32)| p.1 == c
}

/// The items of `s` with the count `c`, in their order in `s`.
pub open spec fn with_count(s: Seq<(String, u32)>, c: u32) -> Seq<(String, u32)> {
    s.filter(has_count(c))
}

/// No item has the count `c`: none is kept.
proof fn lemma_none_with_count(s: Seq<(String, u32)>, c: u32)
    requires
        forall|i: int| 0 <= i < s.len() ==> (#[trigger] s[i]).1 != c,
    ensures
        with_count(s, c) == Seq::<(String, u32)>::empty(),
    decreases s.len(),
{
    if s.len() == 0 {
        reveal(Seq::filter);
        assert(with_count(s, c) =~= Seq::<(String, u32)>::empty());
    } else {
        lemma_none_with_count(s.drop_last(), c);
        s.drop_last().lemma_filter_push(s.last(), has_count(c));
        assert(s.drop_last().push(s.last()) =~= s);
    }
}

/// Taking out the item at `k`, when no item before it has its count,
/// takes the first of its count out of `with_count` and leaves the other
/// counts as they were.
proof fn lemma_with_count_remove(s: Seq<(String, u32)>, k: int, c: u32)
    requires
        0 <= k < s.len(),
        forall|b: int| 0 <= b < k ==> (#[trigger] s[b]).1 != s[k].1,
    ensures
        with_count(s, c) == (if c == s[k].1 {
            seq![s[k]] + with_count(s.remove(k), c)
        } else {
            with_count(s.remove(k), c)
        }),
{
    let f = has_count(c);
    let pre = s.take(k);
    let post = s.skip(k + 1);
    assert(s =~= pre + seq![s[k]] + post);
    assert(s.remove(k) =~= pre + post);
    Seq::filter_distributes_over_add(pre + seq![s[k]], post, f);
    Seq::filter_distributes_over_add(pre, seq![s[k]], f);
    Seq::filter_distributes_over_add(pre, post, f);
    lemma_none_with_count(Seq::<(String, u32)>::empty(), c);
    Seq::<(String, u32)>::empty().lemma_filter_push(s[k], f);
    assert(Seq::<(String, u32)>::empty().push(s[k]) =~= seq![s[k]]);
    if c == s[k].1 {
        assert forall|i: int| 0 <= i < pre.len() implies (#[trigger] pre[i]).1 != c by {
            assert(pre[i] == s[i]);
        }
        lemma_none_with_count(pre, c);
        assert(with_count(s, c) =~= seq![s[k]] + with_count(s.remove(k), c));
    } else {
        assert(with_count(s, c) =~= with_count(s.remove(k), c));
    }
}

/// Sorts tags with their counts by count: the rarest first, or with
/// `high_first` the most common first. The sort is stable: items with the
/// same count keep their order.
pub fn sort_tag_counts(counts: Vec<(String, u32)>, high_first: bool) -> (r: Vec<(String, u32)>)
    ensures
        r@.to_multiset() == counts@.to_multiset(),
        counts_sorted(r@, high_first),
        forall|c: u32| #[trigger] with_count(r@, c) == with_count(counts@, c),
{
    broadcast use vstd::seq_lib::group_to_multiset_ensures;

    let ghost orig = counts@;
    let mut rest = counts;
    let mut out: Vec<(String, u32)> = Vec::new();
    while rest.len() > 0
        invariant
            out@.to_multiset().add(rest@.to_multiset()) == orig.to_multiset(),
            forall|c: u32| #[trigger] with_count(orig, c) == with_count(out@, c) + with_count(rest@, c),
            counts_sorted(out@, high_first),
            forall|a: int, b: int|
                0 <= a < out@.len() && 0 <= b < rest@.len() ==> count_in_order(
                    out@[a].1,
                    rest@[b].1,
                    high_first,
                ),
        decreases rest@.len(),
    {
        let mut best: usize = 0;
        let mut i: usize = 1;
        while i < rest.len()
            invariant
                rest@.len() > 0,
                best < rest@.len(),
                1 <= i <= rest@.len(),
                forall|b: int| 0 <= b < i ==> count_in_order(rest@[best as int].1, rest@[b].1, high_first),
                forall|b: int| 0 <= b < best ==> (#[trigger] rest@[b]).1 != rest@[best as int].1,
            decreases rest@.len() - i,
        {
            let better = if high_first {
                rest[i].1 > rest[best].1
            } else {
                rest[i].1 < rest[best].1
            };
            if better {
                best = i;
            }
            i = i + 1;
        }
        let ghost rest0 = rest@;
        let ghost out0 = out@;
        let x = rest.remove(best);
        assert(rest@ == rest0.remove(best as int));
        out.push(x);
        proof {
            assert forall|c: u32| #[trigger] with_count(orig, c) == with_count(out@, c) + with_count(
                rest@,
                c,
            ) by {
                lemma_with_count_remove(rest0, best as int, c);
                out0.lemma_filter_push(x, has_count(c));
                assert(with_count(orig, c) == with_count(out0, c) + with_count(rest0, c));
                if c == x.1 {
                    assert(with_count(out@, c) + with_count(rest@, c) =~= with_count(out0, c) + (
                    seq![x] + with_count(rest@, c)));
                }
            }
            out0.to_multiset_ensures();
            rest0.to_multiset_ensures();
            assert(out@ == out0.push(x));
            assert(out@.to_multiset() =~= out0.to_multiset().insert(x));
            assert(rest@.to_multiset() =~= rest0.to_multiset().remove(rest0[best as int]));
            assert(rest0.to_multiset().count(x) > 0) by {
                assert(rest0.contains(x));
            }
            assert(out@.to_multiset().add(rest@.to_multiset()) =~= out0.to_multiset().add(
                rest0.to_multiset(),
            ));
            assert forall|b: int| 0 <= b < rest@.len() implies count_in_order(
                x.1,
                rest@[b].1,
                high_first,
            ) by {
                if b < best {
                    assert(rest@[b] == rest0[b]);
                } else {
                    assert(rest@[b] == rest0[b + 1]);
                }
            }
            assert forall|a: int, b: int|
                0 <= a < out@.len() && 0 <= b < rest@.len() implies count_in_order(
                out@[a].1,
                rest@[b].1,
                high_first,
            ) by {
                if b < best {
                    assert(rest@[b] == rest0[b]);
                } else {
                    assert(rest@[b] == rest0[b + 1]);
                }
                if a < out0.len() {
                    assert(out@[a] == out0[a]);
                }
            }
            assert forall|a: int, b: int| 0 <= a < b < out@.len() implies count_in_order(
                out@[a].1,
                out@[b].1,
                high_first,
            ) by {
                if b == out0.len() {
                    assert(out@[a] == out0[a]);
                    assert(rest0[best as int] == x);
                } else {
                    assert(out@[a] == out0[a]);
                    assert(out@[b] == out0[b]);
                }
            }
        }
    }
    proof {
        assert(rest@.to_multiset() =~= vstd::multiset::Multiset::<(String, u32)>::empty());
        assert(out@.to_multiset() =~= out@.to_multiset().add(rest@.to_multiset()));
        assert forall|c: u32| #[trigger] with_count(out@, c) == with_count(orig, c) by {
            lemma_none_with_count(rest@, c);
            assert(with_count(out@, c) + with_count(rest@, c) =~= with_count(out@, c));
        }
    }
    out
}

} // verus!
