//! Properties of the library as a whole, proved over the specifications
//! that its functions' contracts use.
use vstd::prelude::*;
use crate::classes::{YxFilterSpec, filter_from_parts_spec, filter_passes};
use crate::cli::{alias_spec, holds_path, without_path};
use crate::constraints::constrained_spec;
use crate::sub::{
    IndexView,
    add_tags_spec,
    all_tags,
    append_tags_rm_old_spec,
    append_tags_spec,
    copy_tags_spec,
    move_tags_spec,
    rm_tags_spec,
    tag_count,
};
use crate::text::{join_spec, match_count, match_count_scan, split_scan, split_spec};
use crate::constraints::{constraint_text, listed_spec};
use crate::classes::{constraint_filter_spec, constraint_parts, constraint_readable};
use crate::text::{lowercase, strip_whitespace_spec};
use crate::paths::relative_to_index_spec;
use crate::pathkey::path_key_spec;
use crate::paths::{path_absolutized, path_file_stem, path_starts_with};
use crate::scribe::{scribe_fold, scribe_skips};
use crate::classes::all_filters_pass;
use crate::cli::{CommandSpec, command_from, file_edit_spec};
use crate::error::YxError;

verus! {

/// After tags are added to a file, the file has each of them, keeps the
/// tags it had, and every other file is as it was.
pub proof fn law_add_then_has(m: IndexView, rel: Seq<char>, tags: Set<Seq<char>>, t: Seq<char>)
    ensures
        add_tags_spec(m, rel, tags).contains_key(rel),
        tags.contains(t) ==> add_tags_spec(m, rel, tags)[rel].contains(t),
        m.contains_key(rel) && m[rel].contains(t) ==> add_tags_spec(m, rel, tags)[rel].contains(t),
        forall|k: Seq<char>|
            k != rel ==> (#[trigger] add_tags_spec(m, rel, tags).contains_key(k) == m.contains_key(
                k,
            )) && (m.contains_key(k) ==> add_tags_spec(m, rel, tags)[k] == m[k]),
{
}

/// After tags are removed from a file, it has none of them, keeps every
/// other tag, and every other file is as it was.
pub proof fn law_rm_then_lacks(m: IndexView, rel: Seq<char>, tags: Set<Seq<char>>, t: Seq<char>)
    ensures
        rm_tags_spec(m, rel, tags).dom() == m.dom(),
        m.contains_key(rel) && tags.contains(t) ==> !rm_tags_spec(m, rel, tags)[rel].contains(t),
        m.contains_key(rel) && !tags.contains(t) ==> (rm_tags_spec(m, rel, tags)[rel].contains(t)
            == m[rel].contains(t)),
        forall|k: Seq<char>| k != rel && m.contains_key(k) ==> #[trigger] rm_tags_spec(m, rel, tags)[k] == m[k],
{
    assert(rm_tags_spec(m, rel, tags).dom() =~= m.dom());
}

/// Removing tags that a file has just been given, and that it did not
/// have before, gives back the index as it was.
pub proof fn law_add_then_rm_restores(m: IndexView, rel: Seq<char>, tags: Set<Seq<char>>)
    requires
        m.contains_key(rel),
        m[rel].disjoint(tags),
    ensures
        rm_tags_spec(add_tags_spec(m, rel, tags), rel, tags) == m,
{
    assert(m[rel].union(tags).difference(tags) =~= m[rel]);
    assert(rm_tags_spec(add_tags_spec(m, rel, tags), rel, tags) =~= m);
}

/// Moving the tags of a file to a path without an entry, and back again,
/// gives back the index as it was.
pub proof fn law_move_back_restores(m: IndexView, o: Seq<char>, n: Seq<char>)
    requires
        m.contains_key(o),
        !m.contains_key(n),
    ensures
        move_tags_spec(move_tags_spec(m, o, n), n, o) == m,
        move_tags_spec(m, o, n).contains_key(n),
        !move_tags_spec(m, o, n).contains_key(o),
        move_tags_spec(m, o, n)[n] == m[o],
{
    assert(move_tags_spec(move_tags_spec(m, o, n), n, o) =~= m);
}

/// After the tags of `o` are copied onto `n`, both have the tags of `o`.
pub proof fn law_copy_then_same(m: IndexView, o: Seq<char>, n: Seq<char>)
    requires
        m.contains_key(o),
    ensures
        copy_tags_spec(m, o, n)[n] == m[o],
        copy_tags_spec(m, o, n)[o] == m[o],
{
}

/// Appending the tags of one file to another a second time changes
/// nothing.
pub proof fn law_append_idempotent(m: IndexView, o: Seq<char>, n: Seq<char>)
    ensures
        append_tags_spec(append_tags_spec(m, o, n), o, n) == append_tags_spec(m, o, n),
{
    let once = append_tags_spec(m, o, n);
    if m.contains_key(o) && m.contains_key(n) && o != n {
        assert(once[n].union(once[o]) =~= once[n]);
        assert(append_tags_spec(once, o, n) =~= once);
    }
}

/// Moving the tags of one file onto another loses no tag of the index:
/// the set of all tags stays the same.
pub proof fn law_append_rm_old_keeps_all_tags(m: IndexView, o: Seq<char>, n: Seq<char>)
    ensures
        all_tags(append_tags_rm_old_spec(m, o, n)) == all_tags(m),
{
    let m2 = append_tags_rm_old_spec(m, o, n);
    if m.contains_key(o) && m.contains_key(n) && o != n {
        assert forall|t: Seq<char>| all_tags(m).contains(t) implies all_tags(m2).contains(t) by {
            let k = choose|k: Seq<char>| m.contains_key(k) && #[trigger] m[k].contains(t);
            if k == o {
                assert(m2.contains_key(n) && m2[n].contains(t));
            } else {
                assert(m2.contains_key(k) && m2[k].contains(t));
            }
        }
        assert forall|t: Seq<char>| all_tags(m2).contains(t) implies all_tags(m).contains(t) by {
            let k = choose|k: Seq<char>| m2.contains_key(k) && #[trigger] m2[k].contains(t);
            if k == n {
                if m[n].contains(t) {
                    assert(m.contains_key(n) && m[n].contains(t));
                } else {
                    assert(m.contains_key(o) && m[o].contains(t));
                }
            } else {
                assert(m.contains_key(k) && m[k].contains(t));
            }
        }
        assert(all_tags(m2) =~= all_tags(m));
    } else {
        assert(m2 == m);
    }
}

/// A tag is listed among all tags exactly when some file has it, that is,
/// when its count is above zero.
pub proof fn law_tag_listed_iff_counted(m: IndexView, t: Seq<char>)
    requires
        m.dom().finite(),
    ensures
        all_tags(m).contains(t) <==> tag_count(m, t) > 0,
{
    let f = m.dom().filter(|k: Seq<char>| m[k].contains(t));
    if all_tags(m).contains(t) {
        let k = choose|k: Seq<char>| m.contains_key(k) && #[trigger] m[k].contains(t);
        assert(f.contains(k));
        vstd::set_lib::lemma_set_empty_equivalency_len(f);
    }
    if tag_count(m, t) > 0 {
        let k = f.choose();
        vstd::set_lib::lemma_set_empty_equivalency_len(f);
        assert(f.contains(k));
        assert(m.contains_key(k) && m[k].contains(t));
    }
}

/// The constraints `tag is t` and `tag isnot t` split the files between
/// them: every file passes exactly one of the two.
pub proof fn law_is_isnot_complementary(t: Seq<char>, tags: Set<Seq<char>>)
    ensures
        filter_passes(filter_from_parts_spec("tag"@, "is"@, t), tags) == !filter_passes(
            filter_from_parts_spec("tag"@, "isnot"@, t),
            tags,
        ),
{
    reveal_strlit("is");
    reveal_strlit("isnot");
    assert("is"@ != "isnot"@) by {
        assert("is"@.len() != "isnot"@.len());
    }
}

/// With no constraints in force, every entry of the index is kept.
pub proof fn law_no_constraints_keep_all(m: IndexView)
    ensures
        constrained_spec(m, Seq::<YxFilterSpec>::empty()) == m,
{
    assert(constrained_spec(m, Seq::<YxFilterSpec>::empty()) =~= m);
}

/// The full names of the subcommands that aliases stand for.
pub open spec fn is_full_name(c: Seq<char>) -> bool {
    c == "list"@ || c == "mv"@ || c == "cp"@ || c == "la"@ || c == "ilist"@ || c == "mvt"@ || c == "cpt"@ || c == "apt"@ || c == "mapt"@
}

/// A full name is no alias: replacing aliases leaves it as it is.
proof fn lemma_full_name_fixed(c: Seq<char>)
    requires
        is_full_name(c),
    ensures
        alias_spec(c) == c,
{
    reveal_strlit("append");
    reveal_strlit("appendtags");
    reveal_strlit("apt");
    reveal_strlit("copy");
    reveal_strlit("copytags");
    reveal_strlit("cp");
    reveal_strlit("cpo");
    reveal_strlit("cpoverwrite");
    reveal_strlit("cpt");
    reveal_strlit("cptags");
    reveal_strlit("ignorelist");
    reveal_strlit("ilist");
    reveal_strlit("la");
    reveal_strlit("list");
    reveal_strlit("listall");
    reveal_strlit("ls");
    reveal_strlit("mapt");
    reveal_strlit("merge");
    reveal_strlit("mergetags");
    reveal_strlit("met");
    reveal_strlit("move");
    reveal_strlit("moveappend");
    reveal_strlit("moveappendtags");
    reveal_strlit("moveapt");
    reveal_strlit("movetags");
    reveal_strlit("mt");
    reveal_strlit("mv");
    reveal_strlit("mvt");
    reveal_strlit("mvtags");
    reveal_strlit("overwrite");
    reveal_strlit("overwritetags");
    reveal_strlit("owtags");
    if c == "list"@ {
        assert("list"@[0] != "move"@[0]);
        assert("list"@[0] != "copy"@[0]);
    }
    if c == "mv"@ {
        assert("mv"@[0] != "ls"@[0]);
        assert("mv"@[1] != "mt"@[1]);
    }
    if c == "cp"@ {
        assert("cp"@[0] != "ls"@[0]);
        assert("cp"@[0] != "mt"@[0]);
    }
    if c == "la"@ {
        assert("la"@[1] != "ls"@[1]);
        assert("la"@[0] != "mt"@[0]);
    }
    if c == "ilist"@ {
        assert("ilist"@[0] != "merge"@[0]);
    }
    if c == "mvt"@ {
        assert("mvt"@[0] != "cpo"@[0]);
        assert("mvt"@[1] != "met"@[1]);
    }
    if c == "cpt"@ {
        assert("cpt"@[2] != "cpo"@[2]);
        assert("cpt"@[0] != "met"@[0]);
    }
    if c == "apt"@ {
        assert("apt"@[0] != "cpo"@[0]);
        assert("apt"@[0] != "met"@[0]);
    }
    if c == "mapt"@ {
        assert("mapt"@[1] != "move"@[1]);
        assert("mapt"@[0] != "copy"@[0]);
    }
}

/// Ignoring a path none of whose spellings was ignored, and then
/// unignoring it, gives back the ignore list as it was.
pub proof fn law_ignore_then_unignore(ignores: Set<Seq<char>>, rel: Seq<char>)
    requires
        !holds_path(ignores, rel),
    ensures
        without_path(ignores.insert(rel), rel) == ignores,
{
    assert forall|x: Seq<char>| ignores.contains(x) implies path_key_spec(x) != path_key_spec(
        rel,
    ) by {
        if path_key_spec(x) == path_key_spec(rel) {
            assert(holds_path(ignores, rel));
        }
    }
    assert(without_path(ignores.insert(rel), rel) =~= ignores);
}

/// Replacing aliases a second time changes nothing: no full name of a
/// subcommand is itself an alias.
pub proof fn law_alias_idempotent(cmd: Seq<char>)
    ensures
        alias_spec(alias_spec(cmd)) == alias_spec(cmd),
{
    if alias_spec(cmd) != cmd {
        lemma_full_name_fixed(alias_spec(cmd));
    }
}

/// Joining the pieces that a scan cuts out, with the pattern between them,
/// gives back the text from where the current piece started.
proof fn lemma_join_split_scan(s: Seq<char>, d: Seq<char>, start: int, pos: int)
    requires
        d.len() > 0,
        0 <= start <= pos <= s.len(),
    ensures
        join_spec(split_scan(s, d, start, pos), d) == s.subrange(start, s.len() as int),
    decreases s.len() - pos,
{
    if pos + d.len() > s.len() {
    } else if s.subrange(pos, pos + d.len()) == d {
        let rest = split_scan(s, d, pos + d.len(), pos + d.len());
        lemma_join_split_scan(s, d, pos + d.len(), pos + d.len());
        let parts = seq![s.subrange(start, pos)] + rest;
        assert(parts.drop_first() =~= rest);
        assert(rest.len() >= 1) by {
            reveal_with_fuel(split_scan, 1);
            lemma_split_scan_nonempty(s, d, pos + d.len(), pos + d.len());
        }
        assert(s.subrange(start, pos) + d + s.subrange(pos + d.len(), s.len() as int) =~= s.subrange(
            start,
            s.len() as int,
        ));
    } else {
        lemma_join_split_scan(s, d, start, pos + 1);
    }
}

/// A scan always gives at least one piece.
proof fn lemma_split_scan_nonempty(s: Seq<char>, d: Seq<char>, start: int, pos: int)
    ensures
        split_scan(s, d, start, pos).len() >= 1,
    decreases s.len() - pos,
{
    if d.len() == 0 || pos < 0 || pos + d.len() > s.len() {
    } else if s.subrange(pos, pos + d.len()) == d {
        lemma_split_scan_nonempty(s, d, pos + d.len(), pos + d.len());
    } else {
        lemma_split_scan_nonempty(s, d, start, pos + 1);
    }
}

/// Joining the characters of a text, each its own piece, gives it back.
proof fn lemma_join_chars(s: Seq<char>)
    ensures
        join_spec(s.map_values(|c: char| seq![c]) + seq![Seq::<char>::empty()], Seq::empty()) == s,
    decreases s.len(),
{
    let parts = s.map_values(|c: char| seq![c]) + seq![Seq::<char>::empty()];
    if s.len() == 0 {
        assert(parts =~= seq![Seq::<char>::empty()]);
    } else {
        lemma_join_chars(s.drop_first());
        assert(parts.drop_first() =~= s.drop_first().map_values(|c: char| seq![c]) + seq![
            Seq::<char>::empty(),
        ]);
        assert(parts[0] == seq![s[0]]);
        assert(seq![s[0]] + Seq::<char>::empty() + s.drop_first() =~= s);
    }
}

/// Splitting a text at a pattern and joining the pieces with the same
/// pattern gives the text back: no character is lost or added. So the
/// tags that `yx scribe` reads from a file stem, joined with the
/// delimiter, are the stem.
pub proof fn law_split_join_roundtrip(s: Seq<char>, d: Seq<char>)
    ensures
        join_spec(split_spec(s, d), d) == s,
{
    if d.len() == 0 {
        let parts = seq![Seq::<char>::empty()] + s.map_values(|c: char| seq![c]) + seq![
            Seq::<char>::empty(),
        ];
        lemma_join_chars(s);
        assert(parts.drop_first() =~= s.map_values(|c: char| seq![c]) + seq![Seq::<char>::empty()]);
        assert(Seq::<char>::empty() + Seq::<char>::empty() + s =~= s);
    } else {
        lemma_join_split_scan(s, d, 0, 0);
        assert(s.subrange(0, s.len() as int) =~= s);
    }
}

/// A scan gives one piece more than the occurrences it finds.
proof fn lemma_split_scan_count(s: Seq<char>, d: Seq<char>, start: int, pos: int)
    requires
        d.len() > 0,
    ensures
        split_scan(s, d, start, pos).len() == match_count_scan(s, d, pos) + 1,
    decreases s.len() - pos,
{
    if pos < 0 || pos + d.len() > s.len() {
    } else if s.subrange(pos, pos + d.len()) == d {
        lemma_split_scan_count(s, d, pos + d.len(), pos + d.len());
    } else {
        lemma_split_scan_count(s, d, start, pos + 1);
    }
}

/// Splitting at a non-empty pattern gives one piece more than the pattern
/// occurs: `yx scribe` reads one tag more than there are delimiters in the
/// file stem.
pub proof fn law_split_piece_count(s: Seq<char>, d: Seq<char>)
    requires
        d.len() > 0,
    ensures
        split_spec(s, d).len() == match_count(s, d) + 1,
{
    lemma_split_scan_count(s, d, 0, 0);
}

/// With the one constraint that a file have the tag `t` in force, the
/// entries that commands act on are exactly those whose files have `t`.
pub proof fn law_constraint_keeps_tagged(m: IndexView, t: Seq<char>, k: Seq<char>)
    ensures
        listed_spec(m, seq![YxFilterSpec::Tag { tag: t, present: true }], None).contains_key(k)
            <==> (m.contains_key(k) && m[k].contains(t)),
{
    let fs = seq![YxFilterSpec::Tag { tag: t, present: true }];
    if m.contains_key(k) && m[k].contains(t) {
        assert(crate::classes::all_filters_pass(fs, m[k]));
    }
    if listed_spec(m, fs, None).contains_key(k) {
        assert(crate::classes::filter_passes(fs[0], m[k]));
    }
}

/// With no constraint in force (after `yx free`), a listing shows every
/// entry, and a listing by a tag shows exactly the entries with that tag.
pub proof fn law_free_lists_all(m: IndexView, t: Seq<char>)
    ensures
        listed_spec(m, Seq::<YxFilterSpec>::empty(), None) == m,
        forall|k: Seq<char>|
            #[trigger] listed_spec(m, Seq::<YxFilterSpec>::empty(), Some(t)).contains_key(k) <==> (
            m.contains_key(k) && m[k].contains(t)),
{
    assert(listed_spec(m, Seq::<YxFilterSpec>::empty(), None) =~= m);
}

/// Whatever constraints are in force, what a listing shows is a part of
/// the index, with the records as they are.
pub proof fn law_listed_within_index(
    m: IndexView,
    fs: Seq<YxFilterSpec>,
    tag: Option<Seq<char>>,
    k: Seq<char>,
)
    ensures
        listed_spec(m, fs, tag).contains_key(k) ==> m.contains_key(k) && listed_spec(m, fs, tag)[k]
            == m[k],
{
}

/// `yx rm` of a tag that `yx add` just gave a file, which it did not have
/// before, gives back the index as it was.
pub proof fn law_rm_undoes_add(
    m: IndexView,
    target: Seq<char>,
    cwd: Seq<char>,
    index: Seq<char>,
    tag: Seq<char>,
)
    requires
        relative_to_index_spec(target, cwd, index) is Ok,
        m.contains_key(path_key_spec(relative_to_index_spec(target, cwd, index)->Ok_0)),
        !m[path_key_spec(relative_to_index_spec(target, cwd, index)->Ok_0)].contains(tag),
    ensures
        ({
            let key = path_key_spec(relative_to_index_spec(target, cwd, index)->Ok_0);
            rm_tags_spec(add_tags_spec(m, key, set![tag]), key, set![tag]) == m
        }),
{
    let key = path_key_spec(relative_to_index_spec(target, cwd, index)->Ok_0);
    assert(m[key].disjoint(set![tag]));
    law_add_then_rm_restores(m, key, set![tag]);
}

/// `yx unignore` of a target that `yx ignore` was just given, when no
/// spelling of it was ignored before, gives back the ignore list as it
/// was; and whatever was ignored before, `yx ignore` then `yx unignore`
/// leaves the list as `yx unignore` alone would.
pub proof fn law_unignore_undoes_ignore(
    ignores: Set<Seq<char>>,
    target: Seq<char>,
    cwd: Seq<char>,
    index: Seq<char>,
)
    requires
        relative_to_index_spec(target, cwd, index) is Ok,
    ensures
        ({
            let rel = relative_to_index_spec(target, cwd, index)->Ok_0;
            let ignored = if holds_path(ignores, rel) {
                ignores
            } else {
                ignores.insert(rel)
            };
            &&& without_path(ignored, rel) == without_path(ignores, rel)
            &&& !holds_path(ignores, rel) ==> without_path(ignored, rel) == ignores
        }),
{
    let rel = relative_to_index_spec(target, cwd, index)->Ok_0;
    if !holds_path(ignores, rel) {
        law_ignore_then_unignore(ignores, rel);
        assert(without_path(ignores, rel) =~= ignores) by {
            assert forall|x: Seq<char>| ignores.contains(x) implies path_key_spec(x)
                != path_key_spec(rel) by {
                if path_key_spec(x) == path_key_spec(rel) {
                    assert(holds_path(ignores, rel));
                }
            }
        }
    }
}

/// The word holds no space.
pub open spec fn no_space(w: Seq<char>) -> bool {
    forall|i: int| 0 <= i < w.len() ==> w[i] != ' '
}

/// A scan at single spaces over a stretch without spaces that ends at a
/// space (or at the end) cuts the piece there.
proof fn lemma_scan_word(s: Seq<char>, start: int, pos: int, e: int)
    requires
        0 <= start <= pos <= e <= s.len(),
        forall|i: int| pos <= i < e ==> s[i] != ' ',
        e == s.len() || s[e] == ' ',
    ensures
        split_scan(s, seq![' '], start, pos) == if e == s.len() {
            seq![s.subrange(start, s.len() as int)]
        } else {
            seq![s.subrange(start, e)] + split_scan(s, seq![' '], e + 1, e + 1)
        },
    decreases e - pos,
{
    if pos == e {
        if e < s.len() {
            assert(s.subrange(e, e + 1) =~= seq![' ']);
        }
    } else {
        assert(s.subrange(pos, pos + 1)[0] != ' ');
        assert(s.subrange(pos, pos + 1) != seq![' ']);
        lemma_scan_word(s, start, pos + 1, e);
    }
}

/// A constraint that `yx constraint` writes from three words without
/// spaces reads back as those three words, so it is in force as the
/// filter that they ask for.
pub proof fn law_constraint_reads_back(c: Seq<char>, m: Seq<char>, t: Seq<char>)
    requires
        no_space(c),
        no_space(m),
        no_space(t),
    ensures
        constraint_parts(constraint_text(c, m, t)) == seq![c, m, t],
        constraint_readable(constraint_text(c, m, t)),
        constraint_filter_spec(constraint_text(c, m, t)) == filter_from_parts_spec(
            lowercase(c),
            strip_whitespace_spec(lowercase(m)),
            lowercase(t),
        ),
{
    reveal_strlit(" ");
    let sp = seq![' '];
    assert(" "@ =~= sp);
    let s = constraint_text(c, m, t);
    assert(s =~= c + sp + m + sp + t);
    let a = c.len() as int;
    let b = a + 1 + m.len();
    assert(forall|i: int| 0 <= i < a ==> s[i] == c[i]);
    assert(s[a] == ' ');
    assert(forall|i: int| a + 1 <= i < b ==> s[i] == m[i - a - 1]);
    assert(s[b] == ' ');
    assert(forall|i: int| b + 1 <= i < s.len() ==> s[i] == t[i - b - 1]);
    lemma_scan_word(s, 0, 0, a);
    lemma_scan_word(s, a + 1, a + 1, b);
    lemma_scan_word(s, b + 1, b + 1, s.len() as int);
    assert(s.subrange(0, a) =~= c);
    assert(s.subrange(a + 1, b) =~= m);
    assert(s.subrange(b + 1, s.len() as int) =~= t);
    assert(constraint_parts(s) =~= seq![c, m, t]);
}


/// Scribing never takes a tag away: every file that had an entry keeps it,
/// with all the tags it had (and maybe more).
pub proof fn law_scribe_keeps_tags(
    m: IndexView,
    files: Seq<Seq<char>>,
    delim: Seq<char>,
    ignores: Set<Seq<char>>,
    cwd: Seq<char>,
    index: Seq<char>,
    k: Seq<char>,
)
    requires
        m.contains_key(k),
    ensures
        scribe_fold(m, files, delim, ignores, cwd, index).0.contains_key(k),
        m[k].subset_of(scribe_fold(m, files, delim, ignores, cwd, index).0[k]),
    decreases files.len(),
{
    if files.len() > 0 {
        let f = files[0];
        let rest = files.drop_first();
        if !scribe_skips(ignores, f, cwd, index) {
            if let Some(stem) = path_file_stem(f) {
                if let Ok(rel) = relative_to_index_spec(f, cwd, index) {
                    let m2 = add_tags_spec(m, path_key_spec(rel), split_spec(stem, delim).to_set());
                    law_scribe_keeps_tags(m2, rest, delim, ignores, cwd, index, k);
                    assert(m[k].subset_of(m2[k]));
                }
            }
        } else {
            law_scribe_keeps_tags(m, rest, delim, ignores, cwd, index, k);
        }
    }
}

/// Scribing one file that is not skipped and has a file stem: its entry
/// ends up with the tags it had before (none if it had no entry) together
/// with the pieces of its stem, and every other entry stays as it was.
pub proof fn law_scribe_one_file(
    m: IndexView,
    f: Seq<char>,
    delim: Seq<char>,
    ignores: Set<Seq<char>>,
    cwd: Seq<char>,
    index: Seq<char>,
)
    requires
        !scribe_skips(ignores, f, cwd, index),
        path_file_stem(f) is Some,
    ensures
        ({
            let key = path_key_spec(relative_to_index_spec(f, cwd, index)->Ok_0);
            let pieces = split_spec(path_file_stem(f)->Some_0, delim).to_set();
            let out = scribe_fold(m, seq![f], delim, ignores, cwd, index);
            &&& out.2 is None
            &&& out.1 == seq![(f, split_spec(path_file_stem(f)->Some_0, delim))]
            &&& out.0.contains_key(key)
            &&& out.0[key] == (if m.contains_key(key) {
                m[key]
            } else {
                Set::empty()
            }).union(pieces)
            &&& forall|k: Seq<char>|
                k != key ==> (#[trigger] out.0.contains_key(k) == m.contains_key(k)) && (
                m.contains_key(k) ==> out.0[k] == m[k])
        }),
{
    let key = path_key_spec(relative_to_index_spec(f, cwd, index)->Ok_0);
    let pieces = split_spec(path_file_stem(f)->Some_0, delim).to_set();
    assert(seq![f].drop_first() =~= Seq::<Seq<char>>::empty());
    assert(seq![f][0] == f);
    if !m.contains_key(key) {
        assert(Set::<Seq<char>>::empty().union(pieces) =~= pieces);
    }
    let rel = relative_to_index_spec(f, cwd, index)->Ok_0;
    assert(relative_to_index_spec(f, cwd, index) == Ok::<Seq<char>, YxError>(rel));
    let tags = split_spec(path_file_stem(f)->Some_0, delim);
    let m2 = add_tags_spec(m, key, pieces);
    let empty = Seq::<Seq<char>>::empty();
    assert(scribe_fold(m2, empty, delim, ignores, cwd, index) == (
        m2,
        Seq::<(Seq<char>, Seq<Seq<char>>)>::empty(),
        None::<YxError>,
    ));
    let out = scribe_fold(m, seq![f], delim, ignores, cwd, index);
    assert(out == (m2, seq![(f, tags)] + Seq::<(Seq<char>, Seq<Seq<char>>)>::empty(), None::<YxError>));
    assert(out.1 =~= seq![(f, tags)]);
}

/// What a listing keeps passes every constraint in force, whatever its
/// place in the list, and has the tag asked for; and an entry that passes
/// them all (and has that tag) is kept.
pub proof fn law_listed_passes_every_constraint(
    m: IndexView,
    fs: Seq<YxFilterSpec>,
    tag: Option<Seq<char>>,
    k: Seq<char>,
)
    ensures
        listed_spec(m, fs, tag).contains_key(k) ==> forall|i: int|
            0 <= i < fs.len() ==> filter_passes(#[trigger] fs[i], m[k]),
        (m.contains_key(k) && (forall|i: int| 0 <= i < fs.len() ==> filter_passes(#[trigger] fs[i], m[k]))
            && match tag {
            Some(t) => m[k].contains(t),
            None => true,
        }) ==> listed_spec(m, fs, tag).contains_key(k),
{
}

/// Adding a constraint never lets more entries through: what is listed
/// with one more constraint is a part of what was listed before.
pub proof fn law_more_constraints_list_less(
    m: IndexView,
    fs: Seq<YxFilterSpec>,
    f: YxFilterSpec,
    tag: Option<Seq<char>>,
)
    ensures
        listed_spec(m, fs.push(f), tag).submap_of(listed_spec(m, fs, tag)),
{
    assert forall|k: Seq<char>| #[trigger] listed_spec(m, fs.push(f), tag).contains_key(k)
        implies listed_spec(m, fs, tag).contains_key(k) by {
        assert forall|i: int| 0 <= i < fs.len() implies filter_passes(#[trigger] fs[i], m[k]) by {
            assert(fs.push(f)[i] == fs[i]);
        }
    }
}

/// The order of the constraints does not matter: two lists of constraints
/// in either order list the same entries.
pub proof fn law_constraint_order_irrelevant(
    m: IndexView,
    a: Seq<YxFilterSpec>,
    b: Seq<YxFilterSpec>,
    tag: Option<Seq<char>>,
)
    ensures
        listed_spec(m, a + b, tag) == listed_spec(m, b + a, tag),
{
    assert forall|t: Set<Seq<char>>| #[trigger] all_filters_pass(a + b, t) == all_filters_pass(
        b + a,
        t,
    ) by {
        if all_filters_pass(a + b, t) {
            assert forall|i: int| 0 <= i < (b + a).len() implies filter_passes(
                #[trigger] (b + a)[i],
                t,
            ) by {
                if i < b.len() {
                    assert((b + a)[i] == (a + b)[i + a.len()]);
                } else {
                    assert((b + a)[i] == (a + b)[i - b.len()]);
                }
            }
        }
        if all_filters_pass(b + a, t) {
            assert forall|i: int| 0 <= i < (a + b).len() implies filter_passes(
                #[trigger] (a + b)[i],
                t,
            ) by {
                if i < a.len() {
                    assert((a + b)[i] == (b + a)[i + b.len()]);
                } else {
                    assert((a + b)[i] == (b + a)[i - a.len()]);
                }
            }
        }
    }
    assert(listed_spec(m, a + b, tag) =~= listed_spec(m, b + a, tag));
}

/// A path given on the command line is read from the working directory:
/// the path relative to the index depends on the path and the working
/// directory only through the absolute path that they make together. Two
/// command lines run from different directories that name the same
/// absolute file give the same entry.
pub proof fn law_relative_path_through_absolute(
    p1: Seq<char>,
    cwd1: Seq<char>,
    p2: Seq<char>,
    cwd2: Seq<char>,
    index: Seq<char>,
)
    requires
        path_absolutized(p1, cwd1) == path_absolutized(p2, cwd2),
    ensures
        relative_to_index_spec(p1, cwd1, index) == relative_to_index_spec(p2, cwd2, index),
{
}

/// Moving the tags of `o` to another path `n`: afterwards `n` has exactly
/// the tags `o` had (whatever `n` had before), `o` has no entry, and every
/// other entry is as it was.
pub proof fn law_move_replaces(m: IndexView, o: Seq<char>, n: Seq<char>)
    requires
        o != n,
        m.contains_key(o),
    ensures
        move_tags_spec(m, o, n).contains_key(n),
        move_tags_spec(m, o, n)[n] == m[o],
        !move_tags_spec(m, o, n).contains_key(o),
        forall|k: Seq<char>|
            k != o && k != n ==> (#[trigger] move_tags_spec(m, o, n).contains_key(k)
                == m.contains_key(k)) && (m.contains_key(k) ==> move_tags_spec(m, o, n)[k] == m[k]),
{
}

/// Copying the tags of `o` onto `n`: afterwards `n` has exactly the tags
/// of `o` (whatever it had before), and every other entry is as it was.
pub proof fn law_copy_replaces(m: IndexView, o: Seq<char>, n: Seq<char>)
    requires
        m.contains_key(o),
    ensures
        copy_tags_spec(m, o, n).contains_key(n),
        copy_tags_spec(m, o, n)[n] == m[o],
        forall|k: Seq<char>|
            k != n ==> (#[trigger] copy_tags_spec(m, o, n).contains_key(k) == m.contains_key(k))
                && (m.contains_key(k) ==> copy_tags_spec(m, o, n)[k] == m[k]),
{
}

/// Appending the tags of `o` to another file `n` that has an entry: `n`
/// then has its own tags and those of `o`; `o` keeps its tags, or with
/// the removing variant has none left; every other entry is as it was.
pub proof fn law_append_unites(m: IndexView, o: Seq<char>, n: Seq<char>)
    requires
        o != n,
        m.contains_key(o),
        m.contains_key(n),
    ensures
        append_tags_spec(m, o, n)[n] == m[n].union(m[o]),
        append_tags_spec(m, o, n)[o] == m[o],
        append_tags_rm_old_spec(m, o, n)[n] == m[n].union(m[o]),
        append_tags_rm_old_spec(m, o, n)[o] == Set::<Seq<char>>::empty(),
        append_tags_spec(m, o, n).dom() == m.dom(),
        append_tags_rm_old_spec(m, o, n).dom() == m.dom(),
        forall|k: Seq<char>|
            k != o && k != n && m.contains_key(k) ==> #[trigger] append_tags_spec(m, o, n)[k] == m[k]
                && append_tags_rm_old_spec(m, o, n)[k] == m[k],
{
    assert(append_tags_spec(m, o, n).dom() =~= m.dom());
    assert(append_tags_rm_old_spec(m, o, n).dom() =~= m.dom());
}

/// `rm` and `add` are no aliases, and neither is an earlier subcommand name.
proof fn lemma_plain_names()
    ensures
        alias_spec("rm"@) == "rm"@,
        alias_spec("add"@) == "add"@,
        "rm"@ != "create"@ && "rm"@ != "purge"@ && "rm"@ != "ignore"@ && "rm"@ != "unignore"@
            && "rm"@ != "ilist"@ && "rm"@ != "add"@,
        "add"@ != "create"@ && "add"@ != "purge"@ && "add"@ != "ignore"@ && "add"@ != "unignore"@
            && "add"@ != "ilist"@,
{
    reveal_strlit("rm");
    reveal_strlit("add");
    reveal_strlit("create");
    reveal_strlit("purge");
    reveal_strlit("ignore");
    reveal_strlit("unignore");
    reveal_strlit("ilist");
    reveal_strlit("append");
    reveal_strlit("appendtags");
    reveal_strlit("copy");
    reveal_strlit("copytags");
    reveal_strlit("cpo");
    reveal_strlit("cpoverwrite");
    reveal_strlit("cptags");
    reveal_strlit("ignorelist");
    reveal_strlit("listall");
    reveal_strlit("ls");
    reveal_strlit("merge");
    reveal_strlit("mergetags");
    reveal_strlit("met");
    reveal_strlit("move");
    reveal_strlit("moveappend");
    reveal_strlit("moveappendtags");
    reveal_strlit("moveapt");
    reveal_strlit("movetags");
    reveal_strlit("mt");
    reveal_strlit("mvtags");
    reveal_strlit("overwrite");
    reveal_strlit("overwritetags");
    reveal_strlit("owtags");
    assert("rm"@[0] != "ls"@[0]);
    assert("rm"@[0] != "mt"@[0]);
    assert("add"@[0] != "cpo"@[0]);
    assert("add"@[0] != "met"@[0]);
    assert("rm"@.len() != "add"@.len());
    assert("add"@[0] != "ilist"@[0]);
}

/// `rm` takes a file and then a tag: the command line `yx rm f t` removes
/// the tag `t` from the file `f`, whatever the program's name.
pub proof fn law_rm_reads_file_then_tag(
    prog: Seq<char>,
    cmd: Seq<char>,
    f: Seq<char>,
    t: Seq<char>,
    first_lower: Seq<char>,
)
    ensures
        command_from(seq![prog, cmd, f, t], "rm"@, first_lower) == Ok::<CommandSpec, YxError>(
            CommandSpec::Remove { target: f, tags: seq![t] },
        ),
{
    lemma_plain_names();
    let args = seq![prog, cmd, f, t];
    assert(args.skip(2) =~= seq![f, t]);
}

/// `add` takes a file and then one or more tags: `yx add f t1 t2 ...`
/// adds the tags `t1 t2 ...` to the file `f`.
pub proof fn law_add_reads_file_then_tags(
    prog: Seq<char>,
    cmd: Seq<char>,
    f: Seq<char>,
    tags: Seq<Seq<char>>,
    first_lower: Seq<char>,
)
    requires
        tags.len() >= 1,
    ensures
        command_from(seq![prog, cmd, f] + tags, "add"@, first_lower) == Ok::<CommandSpec, YxError>(
            CommandSpec::Add { target: f, tags: tags },
        ),
{
    lemma_plain_names();
    let args = seq![prog, cmd, f] + tags;
    assert(args.skip(2) =~= seq![f] + tags);
    assert(args.skip(2).skip(1) =~= tags);
    assert(args.skip(2)[0] == f);
}


/// The names of the subcommands, and the aliases, as characters.
proof fn lemma_reveal_names()
    ensures
        "rm"@ == seq!['r', 'm'],
        "add"@ == seq!['a', 'd', 'd'],
        "create"@ == seq!['c', 'r', 'e', 'a', 't', 'e'],
        "purge"@ == seq!['p', 'u', 'r', 'g', 'e'],
        "ignore"@ == seq!['i', 'g', 'n', 'o', 'r', 'e'],
        "unignore"@ == seq!['u', 'n', 'i', 'g', 'n', 'o', 'r', 'e'],
        "ilist"@ == seq!['i', 'l', 'i', 's', 't'],
        "constraint"@ == seq!['c', 'o', 'n', 's', 't', 'r', 'a', 'i', 'n', 't'],
        "scribe"@ == seq!['s', 'c', 'r', 'i', 'b', 'e'],
        "render"@ == seq!['r', 'e', 'n', 'd', 'e', 'r'],
        "la"@ == seq!['l', 'a'],
        "list"@ == seq!['l', 'i', 's', 't'],
        "free"@ == seq!['f', 'r', 'e', 'e'],
        "mv"@ == seq!['m', 'v'],
        "mvt"@ == seq!['m', 'v', 't'],
        "cp"@ == seq!['c', 'p'],
        "cpt"@ == seq!['c', 'p', 't'],
        "apt"@ == seq!['a', 'p', 't'],
        "mapt"@ == seq!['m', 'a', 'p', 't'],
        "append"@ == seq!['a', 'p', 'p', 'e', 'n', 'd'],
        "appendtags"@ == seq!['a', 'p', 'p', 'e', 'n', 'd', 't', 'a', 'g', 's'],
        "copy"@ == seq!['c', 'o', 'p', 'y'],
        "copytags"@ == seq!['c', 'o', 'p', 'y', 't', 'a', 'g', 's'],
        "cpo"@ == seq!['c', 'p', 'o'],
        "cpoverwrite"@ == seq!['c', 'p', 'o', 'v', 'e', 'r', 'w', 'r', 'i', 't', 'e'],
        "cptags"@ == seq!['c', 'p', 't', 'a', 'g', 's'],
        "ignorelist"@ == seq!['i', 'g', 'n', 'o', 'r', 'e', 'l', 'i', 's', 't'],
        "listall"@ == seq!['l', 'i', 's', 't', 'a', 'l', 'l'],
        "ls"@ == seq!['l', 's'],
        "merge"@ == seq!['m', 'e', 'r', 'g', 'e'],
        "mergetags"@ == seq!['m', 'e', 'r', 'g', 'e', 't', 'a', 'g', 's'],
        "met"@ == seq!['m', 'e', 't'],
        "move"@ == seq!['m', 'o', 'v', 'e'],
        "moveappend"@ == seq!['m', 'o', 'v', 'e', 'a', 'p', 'p', 'e', 'n', 'd'],
        "moveappendtags"@ == seq!['m', 'o', 'v', 'e', 'a', 'p', 'p', 'e', 'n', 'd', 't', 'a', 'g', 's'],
        "moveapt"@ == seq!['m', 'o', 'v', 'e', 'a', 'p', 't'],
        "movetags"@ == seq!['m', 'o', 'v', 'e', 't', 'a', 'g', 's'],
        "mt"@ == seq!['m', 't'],
        "mvtags"@ == seq!['m', 'v', 't', 'a', 'g', 's'],
        "overwrite"@ == seq!['o', 'v', 'e', 'r', 'w', 'r', 'i', 't', 'e'],
        "overwritetags"@ == seq!['o', 'v', 'e', 'r', 'w', 'r', 'i', 't', 'e', 't', 'a', 'g', 's'],
        "owtags"@ == seq!['o', 'w', 't', 'a', 'g', 's'],
{
    reveal_strlit("rm");
    reveal_strlit("add");
    reveal_strlit("create");
    reveal_strlit("purge");
    reveal_strlit("ignore");
    reveal_strlit("unignore");
    reveal_strlit("ilist");
    reveal_strlit("constraint");
    reveal_strlit("scribe");
    reveal_strlit("render");
    reveal_strlit("la");
    reveal_strlit("list");
    reveal_strlit("free");
    reveal_strlit("mv");
    reveal_strlit("mvt");
    reveal_strlit("cp");
    reveal_strlit("cpt");
    reveal_strlit("apt");
    reveal_strlit("mapt");
    reveal_strlit("append");
    reveal_strlit("appendtags");
    reveal_strlit("copy");
    reveal_strlit("copytags");
    reveal_strlit("cpo");
    reveal_strlit("cpoverwrite");
    reveal_strlit("cptags");
    reveal_strlit("ignorelist");
    reveal_strlit("listall");
    reveal_strlit("ls");
    reveal_strlit("merge");
    reveal_strlit("mergetags");
    reveal_strlit("met");
    reveal_strlit("move");
    reveal_strlit("moveappend");
    reveal_strlit("moveappendtags");
    reveal_strlit("moveapt");
    reveal_strlit("movetags");
    reveal_strlit("mt");
    reveal_strlit("mvtags");
    reveal_strlit("overwrite");
    reveal_strlit("overwritetags");
    reveal_strlit("owtags");
    assert("rm"@ =~= seq!['r', 'm']);
    assert("add"@ =~= seq!['a', 'd', 'd']);
    assert("create"@ =~= seq!['c', 'r', 'e', 'a', 't', 'e']);
    assert("purge"@ =~= seq!['p', 'u', 'r', 'g', 'e']);
    assert("ignore"@ =~= seq!['i', 'g', 'n', 'o', 'r', 'e']);
    assert("unignore"@ =~= seq!['u', 'n', 'i', 'g', 'n', 'o', 'r', 'e']);
    assert("ilist"@ =~= seq!['i', 'l', 'i', 's', 't']);
    assert("constraint"@ =~= seq!['c', 'o', 'n', 's', 't', 'r', 'a', 'i', 'n', 't']);
    assert("scribe"@ =~= seq!['s', 'c', 'r', 'i', 'b', 'e']);
    assert("render"@ =~= seq!['r', 'e', 'n', 'd', 'e', 'r']);
    assert("la"@ =~= seq!['l', 'a']);
    assert("list"@ =~= seq!['l', 'i', 's', 't']);
    assert("free"@ =~= seq!['f', 'r', 'e', 'e']);
    assert("mv"@ =~= seq!['m', 'v']);
    assert("mvt"@ =~= seq!['m', 'v', 't']);
    assert("cp"@ =~= seq!['c', 'p']);
    assert("cpt"@ =~= seq!['c', 'p', 't']);
    assert("apt"@ =~= seq!['a', 'p', 't']);
    assert("mapt"@ =~= seq!['m', 'a', 'p', 't']);
    assert("append"@ =~= seq!['a', 'p', 'p', 'e', 'n', 'd']);
    assert("appendtags"@ =~= seq!['a', 'p', 'p', 'e', 'n', 'd', 't', 'a', 'g', 's']);
    assert("copy"@ =~= seq!['c', 'o', 'p', 'y']);
    assert("copytags"@ =~= seq!['c', 'o', 'p', 'y', 't', 'a', 'g', 's']);
    assert("cpo"@ =~= seq!['c', 'p', 'o']);
    assert("cpoverwrite"@ =~= seq!['c', 'p', 'o', 'v', 'e', 'r', 'w', 'r', 'i', 't', 'e']);
    assert("cptags"@ =~= seq!['c', 'p', 't', 'a', 'g', 's']);
    assert("ignorelist"@ =~= seq!['i', 'g', 'n', 'o', 'r', 'e', 'l', 'i', 's', 't']);
    assert("listall"@ =~= seq!['l', 'i', 's', 't', 'a', 'l', 'l']);
    assert("ls"@ =~= seq!['l', 's']);
    assert("merge"@ =~= seq!['m', 'e', 'r', 'g', 'e']);
    assert("mergetags"@ =~= seq!['m', 'e', 'r', 'g', 'e', 't', 'a', 'g', 's']);
    assert("met"@ =~= seq!['m', 'e', 't']);
    assert("move"@ =~= seq!['m', 'o', 'v', 'e']);
    assert("moveappend"@ =~= seq!['m', 'o', 'v', 'e', 'a', 'p', 'p', 'e', 'n', 'd']);
    assert("moveappendtags"@ =~= seq!['m', 'o', 'v', 'e', 'a', 'p', 'p', 'e', 'n', 'd', 't', 'a', 'g', 's']);
    assert("moveapt"@ =~= seq!['m', 'o', 'v', 'e', 'a', 'p', 't']);
    assert("movetags"@ =~= seq!['m', 'o', 'v', 'e', 't', 'a', 'g', 's']);
    assert("mt"@ =~= seq!['m', 't']);
    assert("mvtags"@ =~= seq!['m', 'v', 't', 'a', 'g', 's']);
    assert("overwrite"@ =~= seq!['o', 'v', 'e', 'r', 'w', 'r', 'i', 't', 'e']);
    assert("overwritetags"@ =~= seq!['o', 'v', 'e', 'r', 'w', 'r', 'i', 't', 'e', 't', 'a', 'g', 's']);
    assert("owtags"@ =~= seq!['o', 'w', 't', 'a', 'g', 's']);
}

/// `ignore` and `unignore` take the path as their one argument.
pub proof fn law_ignore_reads_target(prog: Seq<char>, cmd: Seq<char>, t: Seq<char>, first_lower: Seq<char>)
    ensures
        command_from(seq![prog, cmd, t], "ignore"@, first_lower) == Ok::<CommandSpec, YxError>(
            CommandSpec::Ignore { target: t },
        ),
        command_from(seq![prog, cmd, t], "unignore"@, first_lower) == Ok::<CommandSpec, YxError>(
            CommandSpec::Unignore { target: t },
        ),
{
    lemma_reveal_names();
    assert("ignore"@[0] != "cpo"@[0]);
    assert("ignore"@[0] != "met"@[0]);
    assert("ignore"@[0] != "copy"@[0]);
    assert("ignore"@[0] != "move"@[0]);
    assert(alias_spec("ignore"@) == "ignore"@);
    assert("ignore"@ != "create"@);
    assert("ignore"@ != "purge"@);
    assert("unignore"@[0] != "ignore"@[0]);
    assert(alias_spec("unignore"@) == "unignore"@);
    assert("unignore"@ != "create"@);
    assert("unignore"@ != "purge"@);
    assert("unignore"@ != "ignore"@);
    assert(seq![prog, cmd, t].skip(2) =~= seq![t]);
}

/// The subcommands that edit files take the source and then the
/// destination: `yx mv a b` moves `a` to `b`, and so do the others.
pub proof fn law_file_edit_reads_from_then_to(
    prog: Seq<char>,
    cmd: Seq<char>,
    cmd_lower: Seq<char>,
    a: Seq<char>,
    b: Seq<char>,
    first_lower: Seq<char>,
)
    requires
        file_edit_spec(alias_spec(cmd_lower)) is Some,
    ensures
        command_from(seq![prog, cmd, a, b], cmd_lower, first_lower) == Ok::<CommandSpec, YxError>(
            CommandSpec::FileEdit {
                action: file_edit_spec(alias_spec(cmd_lower))->Some_0,
                from: a,
                to: b,
            },
        ),
{
    lemma_reveal_names();
    let c = alias_spec(cmd_lower);
    assert(c.len() <= 4);
    assert("create"@.len() == 6 && "purge"@.len() == 5 && "ignore"@.len() == 6);
    assert("unignore"@.len() == 8 && "ilist"@.len() == 5);
    if c == "mv"@ || c == "cp"@ {
        assert(c != "rm"@ && c != "add"@);
    } else if c == "mvt"@ {
        assert("mvt"@[0] != "add"@[0]);
    } else if c == "cpt"@ {
        assert("cpt"@[0] != "add"@[0]);
    } else if c == "apt"@ {
        assert("apt"@[1] != "add"@[1]);
    } else {
        assert(c == "mapt"@);
    }
    assert(seq![prog, cmd, a, b].skip(2) =~= seq![a, b]);
}

/// `constraint` takes a condition, an optional match type (`is` when it
/// is left out) and a tag, in that order.
pub proof fn law_constraint_reads_fields(
    prog: Seq<char>,
    cmd: Seq<char>,
    cond: Seq<char>,
    mt: Seq<char>,
    t: Seq<char>,
    first_lower: Seq<char>,
)
    ensures
        command_from(seq![prog, cmd, cond, mt, t], "constraint"@, first_lower) == Ok::<
            CommandSpec,
            YxError,
        >(CommandSpec::Constraint { condition: cond, matchtype: mt, tag: t }),
        command_from(seq![prog, cmd, cond, t], "constraint"@, first_lower) == Ok::<
            CommandSpec,
            YxError,
        >(CommandSpec::Constraint { condition: cond, matchtype: "is"@, tag: t }),
{
    lemma_reveal_names();
    let c = "constraint"@;
    assert(c.len() == 10);
    assert(c[0] != "cpoverwrite"@[0] || c[1] != "cpoverwrite"@[1]);
    assert(c[2] != "overwritetags"@[2] || c.len() != "overwritetags"@.len());
    assert(alias_spec(c) == c);
    assert(file_edit_spec(c) is None);
    assert(c[0] != "create"@[0] || c[1] != "create"@[1]);
    assert(c[1] != "scribe"@[1]);
    assert(seq![prog, cmd, cond, mt, t].skip(2) =~= seq![cond, mt, t]);
    assert(seq![prog, cmd, cond, t].skip(2) =~= seq![cond, t]);
}


/// Scribing touches only the entries of the files it scribes: an entry
/// whose path is not that of any file scribed stays as it was, and no
/// entry appears for it.
pub proof fn law_scribe_leaves_others(
    m: IndexView,
    files: Seq<Seq<char>>,
    delim: Seq<char>,
    ignores: Set<Seq<char>>,
    cwd: Seq<char>,
    index: Seq<char>,
    k: Seq<char>,
)
    requires
        forall|i: int|
            0 <= i < files.len() && !scribe_skips(ignores, #[trigger] files[i], cwd, index)
                ==> path_key_spec(relative_to_index_spec(files[i], cwd, index)->Ok_0) != k,
    ensures
        scribe_fold(m, files, delim, ignores, cwd, index).0.contains_key(k) == m.contains_key(k),
        m.contains_key(k) ==> scribe_fold(m, files, delim, ignores, cwd, index).0[k] == m[k],
    decreases files.len(),
{
    if files.len() > 0 {
        let f = files[0];
        let rest = files.drop_first();
        assert forall|i: int|
            0 <= i < rest.len() && !scribe_skips(ignores, #[trigger] rest[i], cwd, index)
                implies path_key_spec(relative_to_index_spec(rest[i], cwd, index)->Ok_0) != k by {
            assert(rest[i] == files[i + 1]);
        }
        if !scribe_skips(ignores, f, cwd, index) {
            if let Some(stem) = path_file_stem(f) {
                if let Ok(rel) = relative_to_index_spec(f, cwd, index) {
                    let m2 = add_tags_spec(m, path_key_spec(rel), split_spec(stem, delim).to_set());
                    law_scribe_leaves_others(m2, rest, delim, ignores, cwd, index, k);
                }
            }
        } else {
            law_scribe_leaves_others(m, rest, delim, ignores, cwd, index, k);
        }
    }
}

/// When scribing runs to the end, every file that was not skipped has a
/// file stem, and its entry has every piece of that stem as a tag.
pub proof fn law_scribed_files_get_their_words(
    m: IndexView,
    files: Seq<Seq<char>>,
    delim: Seq<char>,
    ignores: Set<Seq<char>>,
    cwd: Seq<char>,
    index: Seq<char>,
    i: int,
)
    requires
        scribe_fold(m, files, delim, ignores, cwd, index).2 is None,
        0 <= i < files.len(),
        !scribe_skips(ignores, files[i], cwd, index),
    ensures
        path_file_stem(files[i]) is Some,
        ({
            let key = path_key_spec(relative_to_index_spec(files[i], cwd, index)->Ok_0);
            let out = scribe_fold(m, files, delim, ignores, cwd, index).0;
            &&& out.contains_key(key)
            &&& split_spec(path_file_stem(files[i])->Some_0, delim).to_set().subset_of(out[key])
        }),
    decreases files.len(),
{
    let f = files[0];
    let rest = files.drop_first();
    if scribe_skips(ignores, f, cwd, index) {
        assert(rest[i - 1] == files[i]);
        law_scribed_files_get_their_words(m, rest, delim, ignores, cwd, index, i - 1);
    } else {
        let stem = path_file_stem(f)->Some_0;
        let rel = relative_to_index_spec(f, cwd, index)->Ok_0;
        let m2 = add_tags_spec(m, path_key_spec(rel), split_spec(stem, delim).to_set());
        if i == 0 {
            law_scribe_keeps_tags(m2, rest, delim, ignores, cwd, index, path_key_spec(rel));
        } else {
            assert(rest[i - 1] == files[i]);
            law_scribed_files_get_their_words(m2, rest, delim, ignores, cwd, index, i - 1);
        }
    }
}

/// The path relative to the index depends on the index file only through
/// the folder it is in.
pub proof fn law_relative_path_through_index_folder(
    p: Seq<char>,
    cwd: Seq<char>,
    index1: Seq<char>,
    index2: Seq<char>,
)
    requires
        crate::paths::index_dir_spec(index1) == crate::paths::index_dir_spec(index2),
    ensures
        relative_to_index_spec(p, cwd, index1) == relative_to_index_spec(p, cwd, index2),
{
}


/// A file that lies under an ignored path is passed over by scribing: the
/// result is that of scribing the other files alone.
pub proof fn law_ignored_file_not_scribed(
    m: IndexView,
    f: Seq<char>,
    rest: Seq<Seq<char>>,
    delim: Seq<char>,
    ignores: Set<Seq<char>>,
    ig: Seq<char>,
    cwd: Seq<char>,
    index: Seq<char>,
)
    requires
        relative_to_index_spec(f, cwd, index) is Ok,
        ignores.contains(ig),
        path_starts_with(relative_to_index_spec(f, cwd, index)->Ok_0, ig),
    ensures
        scribe_fold(m, seq![f] + rest, delim, ignores, cwd, index) == scribe_fold(
            m,
            rest,
            delim,
            ignores,
            cwd,
            index,
        ),
{
    assert((seq![f] + rest)[0] == f);
    assert((seq![f] + rest).drop_first() =~= rest);
    assert(relative_to_index_spec(f, cwd, index) == Ok::<Seq<char>, YxError>(
        relative_to_index_spec(f, cwd, index)->Ok_0,
    ));
    assert(scribe_skips(ignores, f, cwd, index));
}

/// A file that can be written relative to the index, lies under no
/// ignored path and has a file stem is scribed: its entry gets the pieces
/// of its stem on top of the tags it had.
pub proof fn law_unignored_file_scribed(
    m: IndexView,
    f: Seq<char>,
    delim: Seq<char>,
    ignores: Set<Seq<char>>,
    cwd: Seq<char>,
    index: Seq<char>,
)
    requires
        relative_to_index_spec(f, cwd, index) is Ok,
        forall|ig: Seq<char>|
            ignores.contains(ig) ==> !#[trigger] path_starts_with(
                relative_to_index_spec(f, cwd, index)->Ok_0,
                ig,
            ),
        path_file_stem(f) is Some,
    ensures
        ({
            let key = path_key_spec(relative_to_index_spec(f, cwd, index)->Ok_0);
            let out = scribe_fold(m, seq![f], delim, ignores, cwd, index).0;
            &&& out.contains_key(key)
            &&& out[key] == (if m.contains_key(key) {
                m[key]
            } else {
                Set::empty()
            }).union(split_spec(path_file_stem(f)->Some_0, delim).to_set())
        }),
{
    assert(relative_to_index_spec(f, cwd, index) == Ok::<Seq<char>, YxError>(
        relative_to_index_spec(f, cwd, index)->Ok_0,
    ));
    assert(!scribe_skips(ignores, f, cwd, index));
    law_scribe_one_file(m, f, delim, ignores, cwd, index);
}

} // verus!
