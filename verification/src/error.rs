//! The errors that the library reports.
use vstd::prelude::*;

verus! {

/// The numbers of arguments that a subcommand takes.
#[derive(Clone, Copy, Debug)]
pub enum ArgCounts {
    Zero,
    One,
    Two,
    ZeroOrOne,
    ZeroToTwo,
    TwoOrThree,
    TwoOrMore,
}

/// Whether `n` arguments are a number that is taken.
pub open spec fn argc_allows(a: ArgCounts, n: nat) -> bool {
    match a {
        ArgCounts::Zero => n == 0,
        ArgCounts::One => n == 1,
        ArgCounts::Two => n == 2,
        ArgCounts::ZeroOrOne => n <= 1,
        ArgCounts::ZeroToTwo => n <= 2,
        ArgCounts::TwoOrThree => n == 2 || n == 3,
        ArgCounts::TwoOrMore => n >= 2,
    }
}

/// How the numbers taken are written in a message: the counts joined
/// with `|`.
pub open spec fn argc_text_spec(a: ArgCounts) -> Seq<char> {
    match a {
        ArgCounts::Zero => "0"@,
        ArgCounts::One => "1"@,
        ArgCounts::Two => "2"@,
        ArgCounts::ZeroOrOne => "0|1"@,
        ArgCounts::ZeroToTwo => "0|1|2"@,
        ArgCounts::TwoOrThree => "2|3"@,
        ArgCounts::TwoOrMore => "2 or more"@,
    }
}

impl ArgCounts {
    /// The numbers taken, as a message writes them.
    pub fn text(&self) -> (r: &'static str)
        ensures
            r@ == argc_text_spec(*self),
    {
        match self {
            ArgCounts::Zero => "0",
            ArgCounts::One => "1",
            ArgCounts::Two => "2",
            ArgCounts::ZeroOrOne => "0|1",
            ArgCounts::ZeroToTwo => "0|1|2",
            ArgCounts::TwoOrThree => "2|3",
            ArgCounts::TwoOrMore => "2 or more",
        }
    }

    /// Whether `n` arguments are a number that is taken.
    pub fn allows(&self, n: usize) -> (r: bool)
        ensures
            r == argc_allows(*self, n as nat),
    {
        match self {
            ArgCounts::Zero => n == 0,
            ArgCounts::One => n == 1,
            ArgCounts::Two => n == 2,
            ArgCounts::ZeroOrOne => n <= 1,
            ArgCounts::ZeroToTwo => n <= 2,
            ArgCounts::TwoOrThree => n == 2 || n == 3,
            ArgCounts::TwoOrMore => n >= 2,
        }
    }
}

/// What can go wrong in `yx`.
#[derive(Debug)]
pub enum YxError {
    /// There is already an index where one was to be created.
    IndexExists,
    /// No index file lies in the current directory or above it.
    IndexNotFound,
    /// A path could not be made absolute.
    PathUnresolved,
    /// A path has no final file name.
    NoFileName,
    /// A path has no parent.
    NoParent,
    /// A path cannot be written relative to the index.
    NotRelativeToIndex,
    /// The file has no entry in the index.
    FileNotInIndex,
    /// A file to be scribed has no file stem.
    NoFileStem,
    /// The file does not have the tag that is to be removed.
    FileLacksTag,
    /// `yx la` got an ordering that it does not know.
    InvalidListAllMode,
    /// A constraint does not read as three words.
    UnreadableConstraint,
    /// A subcommand got a number of arguments that it does not take.
    WrongArgCount { allowed: ArgCounts, given: usize },
}

/// The text of the message for each error.
pub open spec fn message_spec(e: YxError) -> Seq<char> {
    match e {
        YxError::IndexExists => "An index already exists here! Consider deleting it."@,
        YxError::IndexNotFound => ".yx_index not found in current path!"@,
        YxError::PathUnresolved => "Could not resolve path"@,
        YxError::NoFileName => "Could not get file name"@,
        YxError::NoParent => "Could not get path parent"@,
        YxError::NotRelativeToIndex => "Failed to parse path as relative to index"@,
        YxError::FileNotInIndex => "File not in index!"@,
        YxError::NoFileStem => "No file name"@,
        YxError::FileLacksTag => "File doesn't have this tag!"@,
        YxError::InvalidListAllMode => "Invalid `yx la` mode!"@,
        YxError::UnreadableConstraint => "Wrong number of arguments in constraint!"@,
        YxError::WrongArgCount { .. } => "Wrong number of arguments for this subcommand!"@,
    }
}

impl YxError {
    /// The message that the user is shown for this error.
    pub fn message(&self) -> (r: &'static str)
        ensures
            r@ == message_spec(*self),
    {
        match self {
            YxError::IndexExists => "An index already exists here! Consider deleting it.",
            YxError::IndexNotFound => ".yx_index not found in current path!",
            YxError::PathUnresolved => "Could not resolve path",
            YxError::NoFileName => "Could not get file name",
            YxError::NoParent => "Could not get path parent",
            YxError::NotRelativeToIndex => "Failed to parse path as relative to index",
            YxError::FileNotInIndex => "File not in index!",
            YxError::NoFileStem => "No file name",
            YxError::FileLacksTag => "File doesn't have this tag!",
            YxError::InvalidListAllMode => "Invalid `yx la` mode!",
            YxError::UnreadableConstraint => "Wrong number of arguments in constraint!",
            YxError::WrongArgCount { .. } => "Wrong number of arguments for this subcommand!",
        }
    }
}

} // verus!
