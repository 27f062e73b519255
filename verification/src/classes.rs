//! The program's state and the types that describe what it is asked to do.
use vstd::prelude::*;
use crate::index::{YxFileRecord, YxIndex};
use crate::stringset::StringSet;
use crate::text::{
    lowercase,
    split_spec,
    split_str,
    str_eq,
    strings_view,
    strip_whitespace,
    strip_whitespace_spec,
    to_lowercase,
};

verus! {

/// Everything an index file holds: the tags of each file, the constraints
/// that are in force, and the paths that are ignored.
#[derive(Debug)]
pub struct ProgramState {
    pub index: YxIndex,
    pub constraints: YxConstraints,
    pub ignores: StringSet,
}

impl ProgramState {
    /// The index and the ignore list are well formed.
    pub open spec fn wf(&self) -> bool {
        self.index.wf() && self.ignores.wf()
    }

    /// A state with no entries, no constraints and nothing ignored.
    pub fn new() -> (r: ProgramState)
        ensures
            r.wf(),
            r.index@ == Map::<Seq<char>, Set<Seq<char>>>::empty(),
            r.constraints.cons@.len() == 0,
            r.ignores@ == Set::<Seq<char>>::empty(),
    {
        ProgramState {
            index: YxIndex::new(),
            constraints: YxConstraints { cons: Vec::new() },
            ignores: StringSet::new(),
        }
    }
}

/// A state together with the path of the index file that it belongs to.
#[derive(Debug)]
pub struct ProgramStatePathed {
    pub path: String,
    pub state: ProgramState,
}

impl ProgramStatePathed {
    /// A fresh state for the index file at `path`.
    pub fn new(path: String) -> (r: ProgramStatePathed)
        ensures
            r.path@ == path@,
            r.state.wf(),
            r.state.index@ == Map::<Seq<char>, Set<Seq<char>>>::empty(),
            r.state.constraints.cons@.len() == 0,
            r.state.ignores@ == Set::<Seq<char>>::empty(),
    {
        ProgramStatePathed { path, state: ProgramState::new() }
    }
}

/// How `yx render` lays out files.
#[derive(Debug)]
pub enum YxRenderMethod {
    Hardlink,
    Copy,
}

/// The options of `yx render`.
#[derive(Debug)]
pub struct YxRenderOptions {
    pub method: YxRenderMethod,
    pub rename: bool,
    pub iall: bool,
}

/// The constraints in force, each written as `<condition> <match> <tag>`,
/// such as `tag is music`.
#[derive(Debug)]
pub struct YxConstraints {
    pub cons: Vec<String>,
}

/// What a constraint asks of a file's tags.
pub enum YxFilterSpec {
    /// The file has (`present`) or lacks (`!present`) the tag.
    Tag { tag: Seq<char>, present: bool },
    /// Every file passes.
    Any,
}

/// A constraint, read: the test that a file's record must pass.
#[derive(Debug)]
pub enum YxConstraintFilter {
    /// The file has (`present`) or lacks (`!present`) the tag.
    Tag { tag: String, present: bool },
    /// Every file passes: the condition is not one that is known.
    Any,
}

impl View for YxConstraintFilter {
    type V = YxFilterSpec;

    open spec fn view(&self) -> YxFilterSpec {
        match self {
            YxConstraintFilter::Tag { tag, present } => YxFilterSpec::Tag {
                tag: tag@,
                present: *present,
            },
            YxConstraintFilter::Any => YxFilterSpec::Any,
        }
    }
}

/// Whether a record with the tags `tags` passes the filter.
pub open spec fn filter_passes(f: YxFilterSpec, tags: Set<Seq<char>>) -> bool {
    match f {
        YxFilterSpec::Tag { tag, present } => tags.contains(tag) == present,
        YxFilterSpec::Any => true,
    }
}

/// Whether a record with the tags `tags` passes every filter.
pub open spec fn all_filters_pass(fs: Seq<YxFilterSpec>, tags: Set<Seq<char>>) -> bool {
    forall|i: int| 0 <= i < fs.len() ==> filter_passes(#[trigger] fs[i], tags)
}

/// The filter given by a condition, a match type and a tag, each already
/// in lower case: the condition `tag` tests for the tag, which the match
/// type `is` asks to be present and every other match type to be absent;
/// any other condition lets everything through.
pub open spec fn filter_from_parts_spec(
    condition: Seq<char>,
    matchtype: Seq<char>,
    tag: Seq<char>,
) -> YxFilterSpec {
    if condition == "tag"@ {
        YxFilterSpec::Tag { tag, present: matchtype == "is"@ }
    } else {
        YxFilterSpec::Any
    }
}

/// The pieces of a constraint: the text cut at each single space.
pub open spec fn constraint_parts(con: Seq<char>) -> Seq<Seq<char>> {
    split_spec(con, seq![' '])
}

/// A constraint can be read: it has exactly three pieces.
pub open spec fn constraint_readable(con: Seq<char>) -> bool {
    constraint_parts(con).len() == 3
}

/// The filter that a readable constraint stands for: its pieces in lower
/// case, the match type also without whitespace.
pub open spec fn constraint_filter_spec(con: Seq<char>) -> YxFilterSpec {
    let parts = constraint_parts(con);
    filter_from_parts_spec(
        lowercase(parts[0]),
        strip_whitespace_spec(lowercase(parts[1])),
        lowercase(parts[2]),
    )
}

/// The filters of a sequence of constraints.
pub open spec fn filters_view(fs: Seq<YxConstraintFilter>) -> Seq<YxFilterSpec> {
    fs.map_values(|f: YxConstraintFilter| f@)
}

impl YxConstraintFilter {
    /// The filter given by a condition, a match type and a tag, each
    /// already in lower case.
    pub fn from_parts(condition: &str, matchtype: &str, tag: String) -> (r: YxConstraintFilter)
        ensures
            r@ == filter_from_parts_spec(condition@, matchtype@, tag@),
    {
        if str_eq(condition, "tag") {
            YxConstraintFilter::Tag { tag, present: str_eq(matchtype, "is") }
        } else {
            YxConstraintFilter::Any
        }
    }

    /// Whether `rec` passes the filter.
    pub fn passes(&self, rec: &YxFileRecord) -> (r: bool)
        ensures
            r == filter_passes(self@, rec@),
    {
        match self {
            YxConstraintFilter::Tag { tag, present } => rec.tags.contains(tag.as_str()) == *present,
            YxConstraintFilter::Any => true,
        }
    }
}

/// Whether `rec` passes every filter.
pub fn passes_all(filters: &Vec<YxConstraintFilter>, rec: &YxFileRecord) -> (r: bool)
    ensures
        r == all_filters_pass(filters_view(filters@), rec@),
{
    let mut i: usize = 0;
    while i < filters.len()
        invariant
            i <= filters@.len(),
            forall|j: int| 0 <= j < i ==> filter_passes(filters@[j]@, rec@),
        decreases filters@.len() - i,
    {
        if !filters[i].passes(rec) {
            assert(filters_view(filters@)[i as int] == filters@[i as int]@);
            return false;
        }
        i = i + 1;
    }
    assert forall|j: int| 0 <= j < filters_view(filters@).len() implies filter_passes(
        #[trigger] filters_view(filters@)[j],
        rec@,
    ) by {
        assert(filters_view(filters@)[j] == filters@[j]@);
    }
    true
}

impl YxConstraints {
    /// Every constraint can be read.
    pub open spec fn readable(&self) -> bool {
        forall|i: int| 0 <= i < self.cons@.len() ==> constraint_readable(#[trigger] self.cons@[i]@)
    }

    /// The filters of all the constraints, in order.
    pub fn to_filter_closures(&self) -> (r: Vec<YxConstraintFilter>)
        requires
            self.readable(),
        ensures
            r@.len() == self.cons@.len(),
            forall|i: int|
                0 <= i < r@.len() ==> (#[trigger] r@[i])@ == constraint_filter_spec(
                    self.cons@[i]@,
                ),
    {
        let mut r: Vec<YxConstraintFilter> = Vec::new();
        let mut i: usize = 0;
        while i < self.cons.len()
            invariant
                self.readable(),
                i <= self.cons@.len(),
                r@.len() == i,
                forall|j: int|
                    0 <= j < i ==> (#[trigger] r@[j])@ == constraint_filter_spec(self.cons@[j]@),
            decreases self.cons@.len() - i,
        {
            assert(constraint_readable(self.cons@[i as int]@));
            r.push(YxConstraints::to_filter_closure(self.cons[i].as_str()));
            i = i + 1;
        }
        r
    }

    /// Reads one constraint: `<condition> <match> <tag>`, cut at single
    /// spaces. The condition `tag` keeps the files that have the tag when
    /// the match is `is`, and those that lack it otherwise; any other
    /// condition keeps every file.
    pub fn to_filter_closure(con: &str) -> (r: YxConstraintFilter)
        requires
            constraint_readable(con@),
        ensures
            r@ == constraint_filter_spec(con@),
    {
        proof {
            reveal_strlit(" ");
        }
        let parts = split_str(con, " ");
        assert(" "@ =~= seq![' ']);
        assert(strings_view(parts@)[0] == parts@[0]@);
        assert(strings_view(parts@)[1] == parts@[1]@);
        assert(strings_view(parts@)[2] == parts@[2]@);
        let condition = to_lowercase(parts[0].as_str());
        let matchtype = strip_whitespace(to_lowercase(parts[1].as_str()).as_str());
        let tag = to_lowercase(parts[2].as_str());
        YxConstraintFilter::from_parts(condition.as_str(), matchtype.as_str(), tag)
    }
}

} // verus!
