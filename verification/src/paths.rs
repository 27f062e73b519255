//! Paths: how a path given on the command line is written relative to the
//! index. Most of the path arithmetic is std's (`Path`) and that of the
//! crates `pathdiff` and `path-absolutize`; each such call has a name for
//! its result, over the characters of the paths.
use vstd::prelude::*;
use std::path::Path;
use path_absolutize::Absolutize;
use crate::error::YxError;

verus! {

/// What `Path::parent` gives for a path: the path without its final
/// component, if it has one.
pub uninterp spec fn path_parent(p: Seq<char>) -> Option<Seq<char>>;

/// What `Path::file_name` gives for a path: its final component, if that
/// is a normal one.
pub uninterp spec fn path_file_name(p: Seq<char>) -> Option<Seq<char>>;

/// What `Path::file_stem` gives for a path: its file name without the
/// extension, if it has a file name.
pub uninterp spec fn path_file_stem(p: Seq<char>) -> Option<Seq<char>>;

/// What `Path::starts_with` gives: whether the components of `base` are a
/// prefix of those of `p`.
pub uninterp spec fn path_starts_with(p: Seq<char>, base: Seq<char>) -> bool;

/// What `pathdiff::diff_paths` gives: `path` written relative to `base`,
/// if that can be done.
pub uninterp spec fn path_relative(path: Seq<char>, base: Seq<char>) -> Option<Seq<char>>;

/// What `Absolutize::absolutize_from` gives for `path` with the working
/// directory `cwd`: the absolute path with its dots resolved.
pub uninterp spec fn path_absolutized(path: Seq<char>, cwd: Seq<char>) -> Option<Seq<char>>;

/// An absolute Unix path: one that starts at the root.
pub open spec fn is_absolute_path(p: Seq<char>) -> bool {
    p.len() > 0 && p[0] == '/'
}

/// Calls `Path::parent`. The result is named `path_parent`; when there is
/// a parent it is a proper prefix of the path, so it is shorter.
#[verifier::external_body]
pub(crate) fn parent_of(p: &str) -> (r: Option<String>)
    ensures
        match r {
            Some(q) => path_parent(p@) == Some(q@) && q@.len() < p@.len(),
            None => path_parent(p@) is None,
        },
{
    match Path::new(p).parent() {
        Some(q) => Some(q.to_string_lossy().into_owned()),
        None => None,
    }
}

/// Calls `Path::file_name`; the result is named `path_file_name`.
#[verifier::external_body]
pub(crate) fn file_name_of(p: &str) -> (r: Option<String>)
    ensures
        match r {
            Some(q) => path_file_name(p@) == Some(q@),
            None => path_file_name(p@) is None,
        },
{
    match Path::new(p).file_name() {
        Some(q) => Some(q.to_string_lossy().into_owned()),
        None => None,
    }
}

/// Calls `Path::file_stem`; the result is named `path_file_stem`.
#[verifier::external_body]
pub(crate) fn file_stem_of(p: &str) -> (r: Option<String>)
    ensures
        match r {
            Some(q) => path_file_stem(p@) == Some(q@),
            None => path_file_stem(p@) is None,
        },
{
    match Path::new(p).file_stem() {
        Some(q) => Some(q.to_string_lossy().into_owned()),
        None => None,
    }
}

/// `p` joined onto `base` as `Path::join` does it on Unix: an absolute
/// `p` replaces `base`; otherwise `p` follows `base`, with a `/` between
/// them unless `base` is empty or already ends in one.
pub open spec fn path_join(base: Seq<char>, p: Seq<char>) -> Seq<char> {
    if is_absolute_path(p) {
        p
    } else if base.len() > 0 && base.last() != '/' {
        base + seq!['/'] + p
    } else {
        base + p
    }
}

/// Joins `p` onto `base`, as `path_join` says.
pub(crate) fn join_path(base: &str, p: &str) -> (r: String)
    ensures
        r@ == path_join(base@, p@),
{
    proof {
        reveal_strlit("/");
    }
    assert("/"@ =~= seq!['/']);
    let mut r = String::new();
    let pn = p.unicode_len();
    if pn > 0 && p.get_char(0) == '/' {
        r.append(p);
        assert(r@ =~= p@);
        return r;
    }
    r.append(base);
    let bn = base.unicode_len();
    if bn > 0 && base.get_char(bn - 1) != '/' {
        r.append("/");
    }
    r.append(p);
    assert(r@ =~= path_join(base@, p@));
    r
}

/// Calls `Path::starts_with`; the result is named `path_starts_with`.
#[verifier::external_body]
pub(crate) fn path_has_prefix(p: &str, base: &str) -> (r: bool)
    ensures
        r == path_starts_with(p@, base@),
{
    Path::new(p).starts_with(base)
}

/// Calls `pathdiff::diff_paths`; the result is named `path_relative`.
#[verifier::external_body]
pub(crate) fn diff_paths(path: &str, base: &str) -> (r: Option<String>)
    ensures
        match r {
            Some(q) => path_relative(path@, base@) == Some(q@),
            None => path_relative(path@, base@) is None,
        },
{
    match pathdiff::diff_paths(path, base) {
        Some(q) => Some(q.to_string_lossy().into_owned()),
        None => None,
    }
}

/// Calls `Absolutize::absolutize_from` with the working directory `cwd`;
/// the result is named `path_absolutized`. The call is made only with an
/// absolute `cwd`: with a relative one it can underflow a length and panic.
#[verifier::external_body]
pub(crate) fn absolutize_from(path: &str, cwd: &str) -> (r: Option<String>)
    requires
        is_absolute_path(cwd@),
    ensures
        match r {
            Some(q) => path_absolutized(path@, cwd@) == Some(q@),
            None => path_absolutized(path@, cwd@) is None,
        },
{
    match Path::new(path).absolutize_from(cwd) {
        Ok(q) => Some(q.to_string_lossy().into_owned()),
        Err(_) => None,
    }
}

/// The directory of the index file `index`: `PathBuf::pop`, which keeps
/// the path as it is when it has no parent.
pub open spec fn index_dir_spec(index: Seq<char>) -> Seq<char> {
    match path_parent(index) {
        Some(d) => d,
        None => index,
    }
}

/// `path` written relative to the directory of the index file `index`,
/// with `cwd` as the working directory: the parent of the absolute path,
/// relative to the index's directory, with the file name appended.
pub open spec fn relative_to_index_spec(path: Seq<char>, cwd: Seq<char>, index: Seq<char>) -> Result<
    Seq<char>,
    YxError,
> {
    match path_absolutized(path, cwd) {
        None => Err(YxError::PathUnresolved),
        Some(cleaned) => match path_file_name(cleaned) {
            None => Err(YxError::NoFileName),
            Some(fname) => match path_parent(cleaned) {
                None => Err(YxError::NoParent),
                Some(parent) => match path_relative(parent, index_dir_spec(index)) {
                    None => Err(YxError::NotRelativeToIndex),
                    Some(rel) => Ok(path_join(rel, fname)),
                },
            },
        },
    }
}

/// A string result seen through the view of its string.
pub open spec fn result_view(r: Result<String, YxError>) -> Result<Seq<char>, YxError> {
    match r {
        Ok(s) => Ok(s@),
        Err(e) => Err(e),
    }
}

/// The directory of the index file `index`.
pub fn index_dir(index: &str) -> (r: String)
    ensures
        r@ == index_dir_spec(index@),
{
    match parent_of(index) {
        Some(d) => d,
        None => index.to_owned(),
    }
}

/// Converts a path into one relative to the directory of the index file
/// `index`, resolving it against the working directory `cwd`.
pub fn path_relative_to_index(path: &str, cwd: &str, index: &str) -> (r: Result<String, YxError>)
    requires
        is_absolute_path(cwd@),
    ensures
        result_view(r) == relative_to_index_spec(path@, cwd@, index@),
{
    let current_index = index_dir(index);
    let cleaned = match absolutize_from(path, cwd) {
        Some(c) => c,
        None => return Err(YxError::PathUnresolved),
    };
    let fname = match file_name_of(cleaned.as_str()) {
        Some(f) => f,
        None => return Err(YxError::NoFileName),
    };
    let parent = match parent_of(cleaned.as_str()) {
        Some(p) => p,
        None => return Err(YxError::NoParent),
    };
    let rel = match diff_paths(parent.as_str(), current_index.as_str()) {
        Some(r) => r,
        None => return Err(YxError::NotRelativeToIndex),
    };
    Ok(join_path(rel.as_str(), fname.as_str()))
}

/// The folder that `yx render` fills: `yx-out` beside the index file.
pub open spec fn render_dir_spec(index: Seq<char>) -> Seq<char> {
    path_join(index_dir_spec(index), "yx-out"@)
}

/// The folder that `yx render` fills: `yx-out` beside the index file
/// `index`.
pub fn render_dir(index: &str) -> (r: String)
    ensures
        r@ == render_dir_spec(index@),
{
    let dir = index_dir(index);
    join_path(dir.as_str(), "yx-out")
}

/// Where `yx render` takes the file of the entry `rel` from (the path
/// joined to the index's directory), and where it puts it (its file name
/// in the render folder); none when the path has no file name.
pub fn render_paths(index: &str, rel: &str) -> (r: Option<(String, String)>)
    ensures
        match path_file_name(rel@) {
            Some(fname) => match r {
                Some(p) => p.0@ == path_join(index_dir_spec(index@), rel@) && p.1@ == path_join(
                    render_dir_spec(index@),
                    fname,
                ),
                None => false,
            },
            None => r is None,
        },
{
    let fname = match file_name_of(rel) {
        Some(f) => f,
        None => return None,
    };
    let dir = index_dir(index);
    let from = join_path(dir.as_str(), rel);
    let out = render_dir(index);
    let to = join_path(out.as_str(), fname.as_str());
    Some((from, to))
}

} // verus!
