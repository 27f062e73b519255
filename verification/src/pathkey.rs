//! When two paths name the same place: std compares `Path`s (and so the
//! keys of a map of `PathBuf`s) by their components. On Unix, repeated
//! separators and a trailing separator are ignored, `.` is dropped except
//! at the start of a relative path, and nothing else is normalized (so
//! `a/c` and `a/b/../c` differ). Two paths are equal exactly when their
//! keys below are.
use vstd::prelude::*;
use crate::text::{join_spec, lemma_join_push, split_spec, split_str, str_eq, strings_view};

verus! {

/// A piece between separators that is a component of its own: not empty
/// and not `.`.
pub open spec fn is_normal_piece(x: Seq<char>) -> bool {
    x.len() > 0 && x != seq!['.']
}

/// The pieces that are components of their own, in order.
pub open spec fn normal_pieces(parts: Seq<Seq<char>>) -> Seq<Seq<char>>
    decreases parts.len(),
{
    if parts.len() == 0 {
        Seq::empty()
    } else if is_normal_piece(parts.last()) {
        normal_pieces(parts.drop_last()).push(parts.last())
    } else {
        normal_pieces(parts.drop_last())
    }
}

/// The path starts at the root.
pub open spec fn path_has_root(p: Seq<char>) -> bool {
    p.len() > 0 && p[0] == '/'
}

/// The path is relative and starts with the component `.`.
pub open spec fn path_has_curdir(p: Seq<char>) -> bool {
    !path_has_root(p) && p.len() > 0 && p[0] == '.' && (p.len() == 1 || p[1] == '/')
}

/// The components of a path written out in one way: `/` for the root or
/// `./` for a leading `.`, then the other components joined with `/`.
pub open spec fn path_key_spec(p: Seq<char>) -> Seq<char> {
    (if path_has_root(p) {
        seq!['/']
    } else if path_has_curdir(p) {
        seq!['.', '/']
    } else {
        Seq::<char>::empty()
    }) + join_spec(normal_pieces(split_spec(p, seq!['/'])), seq!['/'])
}

/// The components of `p`, written out as `path_key_spec` says.
pub fn path_key(p: &str) -> (r: String)
    ensures
        r@ == path_key_spec(p@),
{
    proof {
        reveal_strlit("/");
        reveal_strlit("./");
        reveal_strlit(".");
    }
    assert("/"@ =~= seq!['/']);
    assert("./"@ =~= seq!['.', '/']);
    assert("."@ =~= seq!['.']);
    let parts = split_str(p, "/");
    let ghost ps = strings_view(parts@);
    let mut joined = String::new();
    let mut count: usize = 0;
    let mut i: usize = 0;
    while i < parts.len()
        invariant
            ps == strings_view(parts@),
            "/"@ == seq!['/'],
            "."@ == seq!['.'],
            i <= parts@.len(),
            joined@ == join_spec(normal_pieces(ps.take(i as int)), seq!['/']),
            count == normal_pieces(ps.take(i as int)).len(),
            count <= i,
        decreases parts@.len() - i,
    {
        let piece = parts[i].as_str();
        let ghost pre = normal_pieces(ps.take(i as int));
        assert(ps.take(i + 1).drop_last() =~= ps.take(i as int));
        assert(ps[i as int] == piece@);
        if piece.unicode_len() > 0 && !str_eq(piece, ".") {
            assert(is_normal_piece(piece@));
            if count > 0 {
                joined.append("/");
                joined.append(piece);
                proof {
                    lemma_join_push(pre, seq!['/'], piece@);
                }
                assert(joined@ =~= join_spec(pre, seq!['/']) + seq!['/'] + piece@);
            } else {
                assert(pre.push(piece@) =~= seq![piece@]);
                assert(join_spec(seq![piece@], seq!['/']) == piece@);
                joined.append(piece);
                assert(joined@ =~= piece@);
            }
            assert(normal_pieces(ps.take(i + 1)) == pre.push(piece@));
            count = count + 1;
        }
        i = i + 1;
    }
    assert(ps.take(parts@.len() as int) =~= ps);
    let n = p.unicode_len();
    let mut r = String::new();
    if n > 0 && p.get_char(0) == '/' {
        r.append("/");
    } else if n > 0 && p.get_char(0) == '.' && (n == 1 || p.get_char(1) == '/') {
        r.append("./");
    }
    r.append(joined.as_str());
    assert(r@ =~= path_key_spec(p@));
    r
}

/// Whether two paths have the same components, as `Path`'s `==` says.
pub fn same_path(a: &str, b: &str) -> (r: bool)
    ensures
        r == (path_key_spec(a@) == path_key_spec(b@)),
{
    path_key(a) == path_key(b)
}

} // verus!
