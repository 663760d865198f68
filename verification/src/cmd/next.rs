//! The `next` subcommand: the next version, written under the tag prefix.

use vstd::prelude::*;
use vstd::string::*;
use crate::cmd::increment::{chosen_increment, is_written, next_line, written, IncrementArg};
use crate::error::Error;
use crate::git::{texts_view, RepositoryView, SemanticRepository};

verus! {

/// What the `next` subcommand was asked.
#[derive(Debug, Clone, Copy, PartialEq, Eq, Structural)]
pub struct NextOpts {
    /// The type of version increment to use.
    pub increment: IncrementArg,
    /// Whether the versions are tagged, and written, without the prefix `v`.
    pub no_prefix: bool,
}

impl NextOpts {
    /// The prefix of the version tags: `v`, or nothing.
    pub open spec fn spec_prefix(self) -> Seq<char> {
        if self.no_prefix {
            Seq::empty()
        } else {
            "v"@
        }
    }

    /// The options for `increment`, with or without the prefix `v`.
    pub fn new(increment: IncrementArg, no_prefix: bool) -> (opts: NextOpts)
        ensures
            opts == (NextOpts { increment, no_prefix }),
    {
        NextOpts { increment, no_prefix }
    }

    /// The prefix of the version tags: `v`, or nothing.
    pub fn prefix(&self) -> (prefix: &'static str)
        ensures
            prefix@ == self.spec_prefix(),
    {
        if self.no_prefix {
            proof {
                reveal_strlit("");
                assert(""@ =~= Seq::<char>::empty());
            }
            ""
        } else {
            "v"
        }
    }
}

impl Default for NextOpts {
    /// The increment that the commits ask for, under the prefix `v`.
    fn default() -> (opts: NextOpts)
        ensures
            opts == (NextOpts { increment: IncrementArg::AUTO, no_prefix: false }),
    {
        NextOpts { increment: IncrementArg::AUTO, no_prefix: false }
    }
}

/// What the subcommand writes: the prefix and the next version, of a
/// repository with the tags `tags`.
///
/// `messages` holds the messages of the commits since the highest version,
/// `None` for a commit without one; only the choice `AUTO` looks at them.
/// The result is `None` where the next version does not fit in 64-bit
/// numbers.
pub fn exec(next: &NextOpts, tags: Vec<Option<String>>, messages: &Vec<Option<String>>) -> (r:
    Option<Result<String, Error>>)
    ensures
        is_written(
            r,
            written(
                RepositoryView { prefix: next.spec_prefix(), tags: texts_view(tags@) },
                chosen_increment(next.increment, texts_view(messages@)),
            ),
        ),
{
    let repository = SemanticRepository::open_with_prefix(next.prefix(), tags);
    next_line(&repository, next.increment, messages)
}

} // verus!
