//! `yx scribe`: tags taken from the names of files.
use vstd::prelude::*;
use crate::classes::ProgramState;
use crate::error::YxError;
use crate::paths::{
    file_stem_of,
    is_absolute_path,
    path_file_stem,
    path_has_prefix,
    path_relative_to_index,
    path_starts_with,
    relative_to_index_spec,
};
use crate::stringset::StringSet;
use crate::pathkey::path_key_spec;
use crate::sub::{IndexView, add_tags_spec, add_tags_to, index_became, tags_set};
use crate::text::{split_spec, split_str, strings_view, strs_view};

verus! {

/// How tags are read out of a file name.
#[derive(Debug)]
pub enum ScribeMethod<'a> {
    /// The file stem cut at every occurrence of the delimiter.
    SplitBy(&'a str),
}

/// The delimiter of a method.
pub open spec fn method_delim(method: ScribeMethod) -> Seq<char> {
    match method {
        ScribeMethod::SplitBy(d) => d@,
    }
}

/// The tags that `method` reads out of `path`.
pub fn process_into_tags(path: &str, method: &ScribeMethod) -> (r: Vec<String>)
    ensures
        strings_view(r@) == split_spec(path@, method_delim(*method)),
{
    match method {
        ScribeMethod::SplitBy(delim) => split_str(path, delim),
    }
}

/// Whether some ignored path is a prefix of `rel`.
pub open spec fn ignored_by(ignores: Set<Seq<char>>, rel: Seq<char>) -> bool {
    exists|ig: Seq<char>| ignores.contains(ig) && #[trigger] path_starts_with(rel, ig)
}

/// Whether the file at `e`, written relative to the index, lies under an
/// ignored path.
pub fn check_ignored(ignores: &StringSet, e: &str, cwd: &str, index_path: &str) -> (r: Result<
    bool,
    YxError,
>)
    requires
        is_absolute_path(cwd@),
    ensures
        match relative_to_index_spec(e@, cwd@, index_path@) {
            Ok(rel) => r == Ok::<bool, YxError>(ignored_by(ignores@, rel)),
            Err(x) => r == Err::<bool, YxError>(x),
        },
{
    let rel = match path_relative_to_index(e, cwd, index_path) {
        Ok(rel) => rel,
        Err(x) => return Err(x),
    };
    let mut i: usize = 0;
    while i < ignores.items.len()
        invariant
            i <= ignores.items@.len(),
            relative_to_index_spec(e@, cwd@, index_path@) == Ok::<Seq<char>, YxError>(rel@),
            forall|j: int| 0 <= j < i ==> !path_starts_with(rel@, #[trigger] ignores.items@[j]@),
        decreases ignores.items@.len() - i,
    {
        if path_has_prefix(rel.as_str(), ignores.items[i].as_str()) {
            assert(ignores.seq()[i as int] == ignores.items@[i as int]@);
            assert(ignores@.contains(ignores.items@[i as int]@));
            assert(ignored_by(ignores@, rel@));
            return Ok(true);
        }
        i = i + 1;
    }
    assert forall|ig: Seq<char>| ignores@.contains(ig) implies !path_starts_with(rel@, ig) by {
        let j = choose|j: int| 0 <= j < ignores.seq().len() && ignores.seq()[j] == ig;
        assert(ignores.seq()[j] == ignores.items@[j]@);
    }
    Ok(false)
}

/// A file is skipped by `yx scribe` when it lies under an ignored path,
/// or when it cannot be written relative to the index.
pub open spec fn scribe_skips(
    ignores: Set<Seq<char>>,
    f: Seq<char>,
    cwd: Seq<char>,
    index: Seq<char>,
) -> bool {
    match relative_to_index_spec(f, cwd, index) {
        Ok(rel) => ignored_by(ignores, rel),
        Err(_) => true,
    }
}

/// What scribing `files` in turn does to the index `m`: the index after,
/// the files tagged with their tags, and the error that stopped it, if
/// one did. A file that is not skipped gets the pieces of its file stem
/// as tags; one without a file stem stops it.
pub open spec fn scribe_fold(
    m: IndexView,
    files: Seq<Seq<char>>,
    delim: Seq<char>,
    ignores: Set<Seq<char>>,
    cwd: Seq<char>,
    index: Seq<char>,
) -> (IndexView, Seq<(Seq<char>, Seq<Seq<char>>)>, Option<YxError>)
    decreases files.len(),
{
    if files.len() == 0 {
        (m, Seq::empty(), None)
    } else {
        let f = files[0];
        let rest = files.drop_first();
        if scribe_skips(ignores, f, cwd, index) {
            scribe_fold(m, rest, delim, ignores, cwd, index)
        } else {
            match path_file_stem(f) {
                None => (m, Seq::empty(), Some(YxError::NoFileStem)),
                Some(stem) => {
                    let tags = split_spec(stem, delim);
                    match relative_to_index_spec(f, cwd, index) {
                        Err(e) => (m, Seq::empty(), Some(e)),
                        Ok(rel) => {
                            let next = scribe_fold(
                                add_tags_spec(m, path_key_spec(rel), tags.to_set()),
                                rest,
                                delim,
                                ignores,
                                cwd,
                                index,
                            );
                            (next.0, seq![(f, tags)] + next.1, next.2)
                        },
                    }
                },
            }
        }
    }
}

/// The view of a report of tagged files.
pub open spec fn report_view(r: Seq<(String, Vec<String>)>) -> Seq<(Seq<char>, Seq<Seq<char>>)> {
    r.map_values(|p: (String, Vec<String>)| (p.0@, strings_view(p.1@)))
}

/// What scribing `files` with `method` leaves: the state `new_st` differs
/// from `old_st` only in its index, which is the one `scribe_fold` gives;
/// the result is the report of the files tagged, or the error that stopped
/// the fold.
pub open spec fn scribed(
    old_st: ProgramState,
    new_st: ProgramState,
    r: Result<Vec<(String, Vec<String>)>, YxError>,
    files: Seq<Seq<char>>,
    method: ScribeMethod,
    cwd: Seq<char>,
    index: Seq<char>,
) -> bool {
    let fold = scribe_fold(old_st.index@, files, method_delim(method), old_st.ignores@, cwd, index);
    &&& index_became(old_st, new_st, fold.0)
    &&& match r {
        Ok(report) => fold.2 is None && report_view(report@) == fold.1,
        Err(e) => fold.2 == Some(e),
    }
}

/// String slices of the strings of `v`.
fn as_strs(v: &Vec<String>) -> (r: Vec<&str>)
    ensures
        strs_view(r@) == strings_view(v@),
{
    let mut r: Vec<&str> = Vec::new();
    let mut i: usize = 0;
    while i < v.len()
        invariant
            i <= v@.len(),
            strs_view(r@) =~= strings_view(v@).take(i as int),
        decreases v@.len() - i,
    {
        let ghost before = r@;
        let s = v[i].as_str();
        r.push(s);
        assert(r@ =~= before.push(s));
        assert(strs_view(r@) =~= strs_view(before).push(v@[i as int]@));
        i = i + 1;
        assert(strs_view(r@) =~= strings_view(v@).take(i as int));
    }
    assert(strings_view(v@).take(v@.len() as int) =~= strings_view(v@));
    r
}

/// Tags each of `files` (the files found under the target, in the order
/// in which they were found) with the pieces of its file stem, skipping
/// those under an ignored path. Returns the files tagged with their tags.
pub fn import_from_names(
    st: &mut ProgramState,
    files: &Vec<String>,
    method: ScribeMethod,
    cwd: &str,
    index_path: &str,
) -> (r: Result<Vec<(String, Vec<String>)>, YxError>)
    requires
        old(st).wf(),
        is_absolute_path(cwd@),
    ensures
        scribed(*old(st), *final(st), r, strings_view(files@), method, cwd@, index_path@),
{
    let ignores_list = st.ignores.copy();
    let ghost delim = method_delim(method);
    let ghost fs = strings_view(files@);
    let ghost goal = scribe_fold(old(st).index@, fs, delim, old(st).ignores@, cwd@, index_path@);
    let mut report: Vec<(String, Vec<String>)> = Vec::new();
    let mut i: usize = 0;
    assert(fs.skip(0) =~= fs);
    assert(report_view(report@) + goal.1 =~= goal.1);
    while i < files.len()
        invariant
            i <= files@.len(),
            fs == strings_view(files@),
            delim == method_delim(method),
            goal == scribe_fold(old(st).index@, fs, delim, old(st).ignores@, cwd@, index_path@),
            ignores_list@ == old(st).ignores@,
            is_absolute_path(cwd@),
            index_became(*old(st), *st, st.index@),
            ({
                let here = scribe_fold(st.index@, fs.skip(i as int), delim, old(st).ignores@, cwd@, index_path@);
                &&& goal.0 == here.0
                &&& goal.2 == here.2
                &&& goal.1 == report_view(report@) + here.1
            }),
        decreases files@.len() - i,
    {
        let f = files[i].as_str();
        assert(fs.skip(i as int)[0] == f@);
        assert(fs.skip(i as int).drop_first() =~= fs.skip(i + 1));
        let skip = match check_ignored(&ignores_list, f, cwd, index_path) {
            Ok(b) => b,
            Err(_) => true,
        };
        if !skip {
            assert(!scribe_skips(old(st).ignores@, f@, cwd@, index_path@));
            let stem = match file_stem_of(f) {
                Some(s) => s,
                None => {
                    assert(fs.skip(i as int).len() > 0);
                    assert(scribe_fold(st.index@, fs.skip(i as int), delim, old(st).ignores@, cwd@, index_path@).2
                        == Some(YxError::NoFileStem));
                    return Err(YxError::NoFileStem);
                },
            };
            let tags = process_into_tags(stem.as_str(), &method);
            let tag_refs = as_strs(&tags);
            assert(tags_set(tag_refs@) == split_spec(stem@, delim).to_set());
            match add_tags_to(st, f, tag_refs.as_slice(), cwd, index_path) {
                Ok(()) => {},
                Err(e) => return Err(e),
            }
            let ghost before = report_view(report@);
            report.push((files[i].clone(), tags));
            assert(report_view(report@) =~= before.push((f@, split_spec(stem@, delim))));
        }
        i = i + 1;
    }
    assert(fs.skip(files@.len() as int) =~= Seq::<Seq<char>>::empty());
    assert(report_view(report@) =~= goal.1);
    Ok(report)
}

/// `yx scribe`: tags the files found under the target with the words of
/// their names, cut at single spaces.
pub fn c_scribe(st: &mut ProgramState, files: &Vec<String>, cwd: &str, index_path: &str) -> (r: Result<
    Vec<(String, Vec<String>)>,
    YxError,
>)
    requires
        old(st).wf(),
        is_absolute_path(cwd@),
    ensures
        scribed(
            *old(st),
            *final(st),
            r,
            strings_view(files@),
            ScribeMethod::SplitBy(" "),
            cwd@,
            index_path@,
        ),
{
    import_from_names(st, files, ScribeMethod::SplitBy(" "), cwd, index_path)
}

} // verus!
