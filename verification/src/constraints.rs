//! `yx constraint` and `yx free`: the entries that the constraints keep.
use vstd::prelude::*;
use crate::classes::{
    ProgramState,
    ProgramStatePathed,
    YxConstraints,
    YxFilterSpec,
    all_filters_pass,
    constraint_filter_spec,
    constraint_readable,
    filters_view,
    passes_all,
};
use crate::error::YxError;
use crate::text::{split_str, strings_view};
use crate::index::{YxIndex, YxIndexKV, entry_key, lemma_entry_at};
use crate::sub::{IndexView, retrieve_where};

verus! {

/// The filters that a list of constraints stands for.
pub open spec fn constraint_filters(cons: Seq<String>) -> Seq<YxFilterSpec> {
    cons.map_values(|c: String| constraint_filter_spec(c@))
}

/// The entries of the index whose records pass every filter.
pub open spec fn constrained_spec(m: IndexView, fs: Seq<YxFilterSpec>) -> IndexView {
    Map::new(|k: Seq<char>| m.contains_key(k) && all_filters_pass(fs, m[k]), |k: Seq<char>| m[k])
}

/// Returns every entry of the index whose record follows all the
/// constraints.
pub fn retrieve_where_constraint(st: &mut ProgramState) -> (r: YxIndex)
    requires
        old(st).wf(),
        old(st).constraints.readable(),
    ensures
        *final(st) == *old(st),
        r.wf(),
        r@ == constrained_spec(old(st).index@, constraint_filters(old(st).constraints.cons@)),
{
    let r = select_entries(st, None);
    assert(r@ =~= constrained_spec(
        st.index@,
        constraint_filters(st.constraints.cons@),
    ));
    r
}

/// The entries that a listing shows: those whose records pass every
/// constraint and, when a tag is asked for, have that tag.
pub open spec fn listed_spec(m: IndexView, fs: Seq<YxFilterSpec>, tag: Option<Seq<char>>) -> IndexView {
    Map::new(
        |k: Seq<char>|
            constrained_spec(m, fs).contains_key(k) && match tag {
                Some(t) => m[k].contains(t),
                None => true,
            },
        |k: Seq<char>| m[k],
    )
}

/// A string slice that may be absent, seen as characters.
pub open spec fn opt_str_view(s: Option<&str>) -> Option<Seq<char>> {
    match s {
        Some(t) => Some(t@),
        None => None,
    }
}

/// The entries of the index that commands act on: those that follow every
/// constraint in force and, with `by_tag`, have that tag.
pub fn select_entries(st: &ProgramState, by_tag: Option<&str>) -> (r: YxIndex)
    requires
        st.wf(),
        st.constraints.readable(),
    ensures
        r.wf(),
        r@ == listed_spec(st.index@, constraint_filters(st.constraints.cons@), opt_str_view(by_tag)),
{
    let filters = st.constraints.to_filter_closures();
    let ghost fs = filters_view(filters@);
    assert(fs =~= constraint_filters(st.constraints.cons@)) by {
        assert forall|i: int| 0 <= i < fs.len() implies fs[i] == constraint_filters(
            st.constraints.cons@,
        )[i] by {
            assert(fs[i] == filters@[i]@);
        }
    }
    let idx = st.index.copy();
    let ghost m = idx@;
    let ghost entries = idx.entries@;
    let keep = |kv: &YxIndexKV| -> (b: bool)
        ensures
            b == (all_filters_pass(filters_view(filters@), kv.1@) && match by_tag {
                Some(t) => kv.1@.contains(t@),
                None => true,
            }),
        {
            passes_all(&filters, &kv.1) && match by_tag {
                Some(t) => kv.1.tags.contains(t),
                None => true,
            }
        };
    let r = retrieve_where(idx, keep);
    let ghost want = listed_spec(m, fs, opt_str_view(by_tag));
    assert forall|k: Seq<char>| #[trigger] r@.contains_key(k) <==> want.contains_key(k) by {
        if m.contains_key(k) {
            let j = choose|j: int|
                0 <= j < crate::index::entry_keys(entries).len() && crate::index::entry_keys(
                    entries,
                )[j] == k;
            assert(entry_key(entries[j]) == k);
            lemma_entry_at(entries, j);
        }
    }
    assert(r@ =~= want);
    r
}

impl YxConstraints {
    /// Whether every constraint can be read.
    pub fn all_readable(&self) -> (r: bool)
        ensures
            r == self.readable(),
    {
        let mut i: usize = 0;
        while i < self.cons.len()
            invariant
                i <= self.cons@.len(),
                forall|j: int| 0 <= j < i ==> constraint_readable(#[trigger] self.cons@[j]@),
            decreases self.cons@.len() - i,
        {
            if !constraint_is_readable(self.cons[i].as_str()) {
                return false;
            }
            i = i + 1;
        }
        true
    }
}

/// Whether a constraint can be read: it is three words between single
/// spaces.
pub fn constraint_is_readable(con: &str) -> (r: bool)
    ensures
        r == constraint_readable(con@),
{
    proof {
        reveal_strlit(" ");
    }
    assert(" "@ =~= seq![' ']);
    split_str(con, " ").len() == 3
}

/// The constraint written by `yx constraint`: its words between single
/// spaces.
pub open spec fn constraint_text(condition: Seq<char>, matchtype: Seq<char>, tag: Seq<char>) -> Seq<
    char,
> {
    condition + " "@ + matchtype + " "@ + tag
}

/// `yx constraint`: puts a constraint in force, so that commands act only
/// on the files that follow it. A constraint that would not read back as
/// three words is refused.
pub fn c_constraint(st: &mut ProgramStatePathed, condition: &str, matchtype: &str, tag: &str) -> (r:
    Result<(), YxError>)
    ensures
        final(st).path == old(st).path,
        final(st).state.index == old(st).state.index,
        final(st).state.ignores == old(st).state.ignores,
        constraint_readable(constraint_text(condition@, matchtype@, tag@)) ==> r is Ok && strings_view(
            final(st).state.constraints.cons@,
        ) == strings_view(old(st).state.constraints.cons@).push(
            constraint_text(condition@, matchtype@, tag@),
        ),
        !constraint_readable(constraint_text(condition@, matchtype@, tag@)) ==> r
            == Err::<(), YxError>(YxError::UnreadableConstraint) && final(st).state.constraints
            == old(st).state.constraints,
{
    let mut text = String::new();
    text.append(condition);
    text.append(" ");
    text.append(matchtype);
    text.append(" ");
    text.append(tag);
    assert(text@ =~= constraint_text(condition@, matchtype@, tag@));
    if !constraint_is_readable(text.as_str()) {
        return Err(YxError::UnreadableConstraint);
    }
    let ghost before = strings_view(st.state.constraints.cons@);
    st.state.constraints.cons.push(text);
    assert(strings_view(st.state.constraints.cons@) =~= before.push(
        constraint_text(condition@, matchtype@, tag@),
    ));
    Ok(())
}

/// `yx free`: lifts every constraint; the index and the ignored paths stay
/// as they are.
pub fn c_free(st: &mut ProgramStatePathed)
    ensures
        final(st).path == old(st).path,
        final(st).state.index == old(st).state.index,
        final(st).state.ignores == old(st).state.ignores,
        final(st).state.constraints.cons@.len() == 0,
{
    st.state.constraints.cons.clear();
}

} // verus!
