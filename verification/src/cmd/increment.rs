//! The `increment` subcommand: the next version, written without a prefix.

use vstd::prelude::*;
use vstd::string::*;
use crate::conventional_commits::max_increment;
use crate::error::Error;
use crate::git::{available, texts_view, RepositoryView, SemanticRepository};
use crate::increment::Increment;
use crate::text::same_text;
use crate::version::version_text;

verus! {

/// The increment that a user can ask for.
#[derive(Debug, Copy, Clone, PartialEq, Eq, PartialOrd, Ord, Hash, Structural)]
pub enum IncrementArg {
    PATCH,
    MINOR,
    MAJOR,
    /// The increment that the commits since the last version ask for.
    AUTO,
}

/// The choice that a word on the command line stands for.
pub open spec fn increment_arg_of(value: Seq<char>) -> Option<IncrementArg> {
    if value == "patch"@ {
        Some(IncrementArg::PATCH)
    } else if value == "minor"@ {
        Some(IncrementArg::MINOR)
    } else if value == "major"@ {
        Some(IncrementArg::MAJOR)
    } else if value == "auto"@ {
        Some(IncrementArg::AUTO)
    } else {
        None
    }
}

/// What is said of a word that stands for no choice.
pub open spec fn invalid_increment() -> Seq<char> {
    "increment should be one of [patch, minor, major, auto]"@
}

/// The increment level that a choice comes to; `messages` holds the messages
/// of the commits since the highest version.
pub open spec fn chosen_increment(
    arg: IncrementArg,
    messages: Seq<Option<Seq<char>>>,
) -> Increment {
    match arg {
        IncrementArg::PATCH => Increment::PATCH,
        IncrementArg::MINOR => Increment::MINOR,
        IncrementArg::MAJOR => Increment::MAJOR,
        IncrementArg::AUTO => max_increment(available(messages)),
    }
}

/// What a subcommand writes for `increment`: the prefix and the next
/// version, or the failure. `None` where the next version does not fit in
/// 64-bit numbers.
pub open spec fn written(repository: RepositoryView, increment: Increment) -> Option<
    Result<Seq<char>, Error>,
> {
    if repository.can_bump(increment) {
        Some(
            match repository.next(increment) {
                Ok(version) => Ok(repository.prefix + version_text(version)),
                Err(error) => Err(error),
            },
        )
    } else {
        None
    }
}

/// An explicit choice does not look at the commits: whatever their messages
/// are, the increment, the next version and what is written are the same.
pub proof fn lemma_explicit_choice_ignores_commits(
    repository: RepositoryView,
    arg: IncrementArg,
    first: Seq<Option<Seq<char>>>,
    second: Seq<Option<Seq<char>>>,
)
    requires
        arg != IncrementArg::AUTO,
    ensures
        chosen_increment(arg, first) == chosen_increment(arg, second),
        repository.next(chosen_increment(arg, first)) == repository.next(
            chosen_increment(arg, second),
        ),
        written(repository, chosen_increment(arg, first)) == written(
            repository,
            chosen_increment(arg, second),
        ),
{
}

/// Whether `result` is `expected`, the line taken as a mathematical value.
pub open spec fn is_written(
    result: Option<Result<String, Error>>,
    expected: Option<Result<Seq<char>, Error>>,
) -> bool {
    match result {
        Some(Ok(line)) => expected == Some(Ok::<Seq<char>, Error>(line@)),
        Some(Err(error)) => expected == Some(Err::<Seq<char>, Error>(error)),
        None => expected is None,
    }
}

impl IncrementArg {
    /// Reads a choice: `patch`, `minor`, `major` or `auto`.
    pub fn try_from(value: &str) -> (r: Result<IncrementArg, String>)
        ensures
            match increment_arg_of(value@) {
                Some(arg) => r == Ok::<IncrementArg, String>(arg),
                None => r matches Err(said) && said@ == invalid_increment(),
            },
    {
        if same_text(value, "patch") {
            Ok(IncrementArg::PATCH)
        } else if same_text(value, "minor") {
            Ok(IncrementArg::MINOR)
        } else if same_text(value, "major") {
            Ok(IncrementArg::MAJOR)
        } else if same_text(value, "auto") {
            Ok(IncrementArg::AUTO)
        } else {
            Err(String::from_str("increment should be one of [patch, minor, major, auto]"))
        }
    }
}

/// Accepts the words that stand for a choice of increment.
pub fn validate_increment_arg(s: String) -> (r: Result<(), String>)
    ensures
        r is Ok <==> increment_arg_of(s@) is Some,
        r matches Err(said) ==> said@ == invalid_increment(),
{
    match IncrementArg::try_from(s.as_str()) {
        Ok(_) => Ok(()),
        Err(said) => Err(said),
    }
}

/// The range of revisions whose commit messages the choice `arg` needs: for
/// `AUTO`, the commits since the highest version. `None` for the other
/// choices, which look at no commit, and where no tag stands for a version.
pub fn range_needed(repository: &SemanticRepository, arg: IncrementArg) -> (r: Option<String>)
    ensures
        match r {
            Some(range) => {
                &&& arg == IncrementArg::AUTO
                &&& repository@.highest() matches Some(version)
                &&& range@ == repository@.range_since(version)
            },
            None => arg != IncrementArg::AUTO || repository@.highest() is None,
        },
{
    match arg {
        IncrementArg::AUTO => match repository.highest_version() {
            Ok(version) => Some(repository.commits_since(&version)),
            Err(_) => None,
        },
        _ => None,
    }
}

/// The line that stands for the next version of `repository` by the choice
/// `arg`: its prefix and the version.
///
/// `messages` holds the messages of the commits since the highest version,
/// `None` for a commit without one; only the choice `AUTO` looks at them.
/// The result is `None` where the next version does not fit in 64-bit
/// numbers.
pub fn next_line(
    repository: &SemanticRepository,
    arg: IncrementArg,
    messages: &Vec<Option<String>>,
) -> (r: Option<Result<String, Error>>)
    ensures
        is_written(r, written(repository@, chosen_increment(arg, texts_view(messages@)))),
{
    let increment = match arg {
        IncrementArg::PATCH => Increment::PATCH,
        IncrementArg::MINOR => Increment::MINOR,
        IncrementArg::MAJOR => Increment::MAJOR,
        IncrementArg::AUTO => SemanticRepository::increment_since(messages),
    };
    if !repository.can_bump(increment) {
        return None;
    }
    let new_version = match arg {
        IncrementArg::AUTO => repository.automatic_next_version(messages),
        _ => repository.next_version(increment),
    };
    match new_version {
        Ok(version) => {
            let mut line = String::from_str(repository.prefix());
            line.append(version.to_string().as_str());
            Some(Ok(line))
        },
        Err(error) => Some(Err(error)),
    }
}

/// What the subcommand writes: the next version by the choice `arg`, of a
/// repository with the tags `tags` whose versions are tagged without a
/// prefix.
///
/// `messages` holds the messages of the commits since the highest version;
/// only the choice `AUTO` looks at them. The result is `None` where the next
/// version does not fit in 64-bit numbers.
pub fn exec(arg: IncrementArg, tags: Vec<Option<String>>, messages: &Vec<Option<String>>) -> (r:
    Option<Result<String, Error>>)
    ensures
        is_written(
            r,
            written(
                RepositoryView { prefix: Seq::empty(), tags: texts_view(tags@) },
                chosen_increment(arg, texts_view(messages@)),
            ),
        ),
{
    let repository = SemanticRepository::open(tags);
    next_line(&repository, arg, messages)
}

} // verus!
