//! Text helpers: comparing, splitting and cleaning strings.
use vstd::prelude::*;
use vstd::string::*;

verus! {

/// The pieces of `s` cut at every occurrence of `d` that a scan from
/// position `pos` finds, the current piece having started at `start`.
/// Occurrences are taken leftmost first and never overlap.
pub open spec fn split_scan(s: Seq<char>, d: Seq<char>, start: int, pos: int) -> Seq<Seq<char>>
    decreases s.len() - pos,
{
    if d.len() == 0 || pos < 0 || pos + d.len() > s.len() {
        seq![s.subrange(start, s.len() as int)]
    } else if s.subrange(pos, pos + d.len()) == d {
        seq![s.subrange(start, pos)] + split_scan(s, d, pos + d.len(), pos + d.len())
    } else {
        split_scan(s, d, start, pos + 1)
    }
}

/// The number of occurrences of `d` that a scan from `pos` finds, taken
/// leftmost first and without overlap, as `str::matches` counts them.
pub open spec fn match_count_scan(s: Seq<char>, d: Seq<char>, pos: int) -> nat
    decreases s.len() - pos,
{
    if d.len() == 0 || pos < 0 || pos + d.len() > s.len() {
        0
    } else if s.subrange(pos, pos + d.len()) == d {
        1 + match_count_scan(s, d, pos + d.len())
    } else {
        match_count_scan(s, d, pos + 1)
    }
}

/// The number of non-overlapping occurrences of a non-empty `d` in `s`.
pub open spec fn match_count(s: Seq<char>, d: Seq<char>) -> nat {
    match_count_scan(s, d, 0)
}

/// What `str::split` gives for the pattern `d`: with an empty pattern, an
/// empty piece, every character on its own, and an empty piece; otherwise
/// the pieces between the leftmost non-overlapping occurrences of `d`.
pub open spec fn split_spec(s: Seq<char>, d: Seq<char>) -> Seq<Seq<char>> {
    if d.len() == 0 {
        seq![Seq::<char>::empty()] + s.map_values(|c: char| seq![c]) + seq![Seq::<char>::empty()]
    } else {
        split_scan(s, d, 0, 0)
    }
}

/// The pieces joined back together with `d` between each two of them.
pub open spec fn join_spec(parts: Seq<Seq<char>>, d: Seq<char>) -> Seq<char>
    decreases parts.len(),
{
    if parts.len() == 0 {
        Seq::empty()
    } else if parts.len() == 1 {
        parts[0]
    } else {
        parts[0] + d + join_spec(parts.drop_first(), d)
    }
}

/// Joining one more piece adds the separator and the piece.
pub proof fn lemma_join_push(parts: Seq<Seq<char>>, d: Seq<char>, x: Seq<char>)
    requires
        parts.len() >= 1,
    ensures
        join_spec(parts.push(x), d) == join_spec(parts, d) + d + x,
    decreases parts.len(),
{
    if parts.len() == 1 {
        assert(parts.push(x).drop_first() =~= seq![x]);
        assert(join_spec(seq![x], d) == x);
        assert(join_spec(parts, d) == parts[0]);
        assert(join_spec(parts.push(x), d) == parts[0] + d + join_spec(seq![x], d));
    } else {
        lemma_join_push(parts.drop_first(), d, x);
        assert(parts.push(x).drop_first() =~= parts.drop_first().push(x));
        assert(join_spec(parts.push(x), d) == parts[0] + d + join_spec(parts.drop_first().push(x), d));
        assert(parts[0] + d + (join_spec(parts.drop_first(), d) + d + x) =~= parts[0] + d
            + join_spec(parts.drop_first(), d) + d + x);
    }
}

/// The views of a vector of strings.
pub open spec fn strings_view(v: Seq<String>) -> Seq<Seq<char>> {
    v.map_values(|s: String| s@)
}

/// The views of a sequence of string slices.
pub open spec fn strs_view(v: Seq<&str>) -> Seq<Seq<char>> {
    v.map_values(|s: &str| s@)
}

/// The characters for which `char::is_whitespace` holds: those with the
/// Unicode property `White_Space`.
pub open spec fn is_whitespace(c: char) -> bool {
    let u = c as u32;
    ||| 0x09 <= u <= 0x0d
    ||| u == 0x20
    ||| u == 0x85
    ||| u == 0xa0
    ||| u == 0x1680
    ||| 0x2000 <= u <= 0x200a
    ||| u == 0x2028
    ||| u == 0x2029
    ||| u == 0x202f
    ||| u == 0x205f
    ||| u == 0x3000
}

/// `s` with every whitespace character taken out.
pub open spec fn strip_whitespace_spec(s: Seq<char>) -> Seq<char>
    decreases s.len(),
{
    if s.len() == 0 {
        Seq::empty()
    } else if is_whitespace(s.last()) {
        strip_whitespace_spec(s.drop_last())
    } else {
        strip_whitespace_spec(s.drop_last()).push(s.last())
    }
}

/// What `str::to_lowercase` returns for a string: its lowercase form by the
/// Unicode property `Lowercase`.
pub uninterp spec fn lowercase(s: Seq<char>) -> Seq<char>;

/// Calls `str::to_lowercase`; its result is named `lowercase` of the
/// argument. Nothing more is claimed of it: the Unicode case tables stay
/// with std.
#[verifier::external_body]
pub(crate) fn to_lowercase(s: &str) -> (r: String)
    ensures
        r@ == lowercase(s@),
{
    s.to_lowercase()
}

/// Whether two strings hold the same characters.
pub fn str_eq(a: &str, b: &str) -> (r: bool)
    ensures
        r == (a@ == b@),
{
    let n = a.unicode_len();
    let m = b.unicode_len();
    if n != m {
        return false;
    }
    let mut i: usize = 0;
    while i < n
        invariant
            n == a@.len(),
            m == b@.len(),
            n == m,
            i <= n,
            forall|j: int| 0 <= j < i ==> a@[j] == b@[j],
        decreases n - i,
    {
        if a.get_char(i) != b.get_char(i) {
            return false;
        }
        i = i + 1;
    }
    assert(a@ =~= b@);
    true
}

/// Whether `d` occurs in `s` at position `pos`.
fn matches_at(s: &str, d: &str, pos: usize, n: usize, m: usize) -> (r: bool)
    requires
        n == s@.len(),
        m == d@.len(),
        pos + m <= n,
    ensures
        r == (s@.subrange(pos as int, pos + m) == d@),
{
    let mut k: usize = 0;
    while k < m
        invariant
            n == s@.len(),
            m == d@.len(),
            pos + m <= n,
            k <= m,
            forall|j: int| 0 <= j < k ==> s@[pos + j] == d@[j],
        decreases m - k,
    {
        if s.get_char(pos + k) != d.get_char(k) {
            assert(s@.subrange(pos as int, pos + m)[k as int] != d@[k as int]);
            return false;
        }
        k = k + 1;
    }
    assert(s@.subrange(pos as int, pos + m) =~= d@);
    true
}

/// `str::split`: the pieces of `s` between the occurrences of `d`.
pub fn split_str(s: &str, d: &str) -> (parts: Vec<String>)
    ensures
        strings_view(parts@) == split_spec(s@, d@),
{
    let n = s.unicode_len();
    let m = d.unicode_len();
    let mut parts: Vec<String> = Vec::new();
    if m == 0 {
        parts.push(String::new());
        let mut i: usize = 0;
        while i < n
            invariant
                n == s@.len(),
                i <= n,
                strings_view(parts@) =~= seq![Seq::<char>::empty()] + s@.take(i as int).map_values(
                    |c: char| seq![c],
                ),
            decreases n - i,
        {
            let piece = s.substring_char(i, i + 1).to_owned();
            assert(piece@ =~= seq![s@[i as int]]);
            let ghost before = strings_view(parts@);
            parts.push(piece);
            assert(strings_view(parts@) =~= before.push(seq![s@[i as int]]));
            assert(s@.take(i + 1).map_values(|c: char| seq![c]) =~= s@.take(i as int).map_values(
                |c: char| seq![c],
            ).push(seq![s@[i as int]]));
            i = i + 1;
        }
        parts.push(String::new());
        assert(s@.take(n as int) =~= s@);
        assert(strings_view(parts@) =~= split_spec(s@, d@));
        return parts;
    }
    let mut start: usize = 0;
    let mut pos: usize = 0;
    while m <= n - pos
        invariant
            n == s@.len(),
            m == d@.len(),
            m > 0,
            start <= pos,
            pos <= n,
            strings_view(parts@) + split_scan(s@, d@, start as int, pos as int) == split_spec(
                s@,
                d@,
            ),
        decreases n - pos,
    {
        if matches_at(s, d, pos, n, m) {
            let piece = s.substring_char(start, pos).to_owned();
            let ghost before = strings_view(parts@);
            parts.push(piece);
            assert(strings_view(parts@) =~= before.push(s@.subrange(start as int, pos as int)));
            assert(strings_view(parts@) + split_scan(s@, d@, (pos + m) as int, (pos + m) as int)
                =~= before + split_scan(s@, d@, start as int, pos as int));
            pos = pos + m;
            start = pos;
        } else {
            pos = pos + 1;
        }
    }
    let piece = s.substring_char(start, n).to_owned();
    let ghost before = strings_view(parts@);
    parts.push(piece);
    assert(strings_view(parts@) =~= before + split_scan(s@, d@, start as int, pos as int));
    parts
}

/// `s` with every whitespace character taken out, as
/// `s.split_whitespace().collect::<String>()` gives it.
pub fn strip_whitespace(s: &str) -> (r: String)
    ensures
        r@ == strip_whitespace_spec(s@),
{
    let n = s.unicode_len();
    let mut r = String::new();
    let mut i: usize = 0;
    while i < n
        invariant
            n == s@.len(),
            i <= n,
            r@ == strip_whitespace_spec(s@.take(i as int)),
        decreases n - i,
    {
        let c = s.get_char(i);
        assert(s@.take(i + 1).drop_last() =~= s@.take(i as int));
        if !char_is_whitespace(c) {
            r.append(s.substring_char(i, i + 1));
            assert(r@ =~= strip_whitespace_spec(s@.take(i + 1)));
        }
        i = i + 1;
    }
    assert(s@.take(n as int) =~= s@);
    r
}

/// `char::is_whitespace`.
pub fn char_is_whitespace(c: char) -> (r: bool)
    ensures
        r == is_whitespace(c),
{
    let u = c as u32;
    (0x09 <= u && u <= 0x0d) || u == 0x20 || u == 0x85 || u == 0xa0 || u == 0x1680 || (0x2000
        <= u && u <= 0x200a) || u == 0x2028 || u == 0x2029 || u == 0x202f || u == 0x205f || u
        == 0x3000
}

/// The first character of `s`, if it has one.
pub fn first_char(s: &str) -> (r: Option<char>)
    ensures
        r == (if s@.len() == 0 {
            None::<char>
        } else {
            Some(s@[0])
        }),
{
    if s.unicode_len() == 0 {
        None
    } else {
        Some(s.get_char(0))
    }
}

/// The decimal digit for `d` (at most 9).
pub open spec fn digit_spec(d: nat) -> char {
    "0123456789"@[d as int]
}

/// The decimal numeral of `n`, without leading zeros.
pub open spec fn decimal_spec(n: nat) -> Seq<char>
    decreases n,
{
    if n < 10 {
        seq![digit_spec(n)]
    } else {
        decimal_spec(n / 10).push(digit_spec(n % 10))
    }
}

/// The decimal numeral of `n`, as `n.to_string()` writes it.
pub fn decimal(n: usize) -> (r: String)
    ensures
        r@ == decimal_spec(n as nat),
    decreases n,
{
    proof {
        reveal_strlit("0123456789");
    }
    let digits = "0123456789";
    if n < 10 {
        let r = digits.substring_char(n, n + 1).to_owned();
        assert(r@ =~= seq![digit_spec(n as nat)]);
        r
    } else {
        let mut r = decimal(n / 10);
        let d = n % 10;
        let piece = digits.substring_char(d, d + 1);
        assert(piece@ =~= seq![digit_spec(d as nat)]);
        r.append(piece);
        assert(r@ =~= decimal_spec(n as nat));
        r
    }
}

} // verus!
