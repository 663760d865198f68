//! The repository as the version engine sees it: its tag names and the
//! prefix under which its versions are tagged.
//!
//! Nothing here reads a repository. Whoever does hands over the names of the
//! tags, and later the messages of the commits in the range that
//! [`SemanticRepository::commits_since`] names.

use vstd::prelude::*;
use vstd::string::*;
use crate::conventional_commits::{max_increment, max_semantic_increment};
use crate::error::Error;
use crate::increment::Increment;
use crate::text::{holds_at, to_chars};
use crate::version::{
    bump, bumped, can_bump, highest_among, highest_of, is_highest_at, lemma_highest_is_maximum,
    outranks, parsed_version, version_text, versions_compared, versions_view, Precedence,
    Version, VersionView,
};

verus! {

/// A [`SemanticRepository`] as a mathematical value.
pub struct RepositoryView {
    /// What a tag's name begins with to count as a version.
    pub prefix: Seq<char>,
    /// The names of the tags, in the order in which they were handed over;
    /// `None` for a name that is no text.
    pub tags: Seq<Option<Seq<char>>>,
}

/// The version that a tag stands for: what its name reads as behind the
/// prefix. `None` for a tag without a readable name, for one whose name does
/// not begin with the prefix, and for one whose rest is no version.
pub open spec fn candidate(prefix: Seq<char>, tag: Option<Seq<char>>) -> Option<VersionView> {
    match tag {
        Some(name) => if prefix.is_prefix_of(name) {
            parsed_version(name.skip(prefix.len() as int))
        } else {
            None
        },
        None => None,
    }
}

/// The versions that the tags stand for, tag by tag.
pub open spec fn candidates(prefix: Seq<char>, tags: Seq<Option<Seq<char>>>) -> Seq<
    Option<VersionView>,
> {
    tags.map_values(|tag: Option<Seq<char>>| candidate(prefix, tag))
}

/// The highest version among the tags: the highest of the versions that they
/// stand for.
pub open spec fn highest(prefix: Seq<char>, tags: Seq<Option<Seq<char>>>) -> Option<VersionView> {
    highest_among(candidates(prefix, tags))
}

/// The messages that are there, in their order.
pub open spec fn available(messages: Seq<Option<Seq<char>>>) -> Seq<Seq<char>>
    decreases messages.len(),
{
    if messages.len() == 0 {
        Seq::empty()
    } else {
        match messages.last() {
            Some(message) => available(messages.drop_last()).push(message),
            None => available(messages.drop_last()),
        }
    }
}

/// Tag names or messages as mathematical values; `None` stays `None`.
pub open spec fn texts_view(tags: Seq<Option<String>>) -> Seq<Option<Seq<char>>> {
    tags.map_values(
        |tag: Option<String>|
            match tag {
                Some(name) => Some(name@),
                None => None,
            },
    )
}

impl RepositoryView {
    /// The highest version among the tags.
    pub open spec fn highest(self) -> Option<VersionView> {
        highest(self.prefix, self.tags)
    }

    /// What a lookup of the highest version comes to.
    pub open spec fn lookup(self) -> Result<VersionView, Error> {
        match self.highest() {
            Some(version) => Ok(version),
            None => Err(Error::NoTagFound),
        }
    }

    /// Whether `increment` fits in the numbers of the highest version.
    pub open spec fn can_bump(self, increment: Increment) -> bool {
        match self.highest() {
            Some(version) => can_bump(version, increment),
            None => true,
        }
    }

    /// The version that follows the highest one by `increment`.
    pub open spec fn next(self, increment: Increment) -> Result<VersionView, Error> {
        match self.highest() {
            None => Err(Error::NoTagFound),
            Some(version) => if increment == Increment::NONE {
                Err(Error::NoVersionChange)
            } else {
                Ok(bumped(version, increment))
            },
        }
    }

    /// The range of revisions from the tag of `version`, exclusive, up to the
    /// tip of the current branch.
    pub open spec fn range_since(self, version: VersionView) -> Seq<char> {
        self.prefix + version_text(version) + "..HEAD"@
    }
}

/// Whether `result` is `expected`, the version taken as a mathematical value.
pub open spec fn is_outcome(
    result: Result<Version, Error>,
    expected: Result<VersionView, Error>,
) -> bool {
    match result {
        Ok(version) => expected == Ok::<VersionView, Error>(version@),
        Err(error) => expected == Err::<VersionView, Error>(error),
    }
}

/// The highest version is the maximum of the versions that the tags stand
/// for: it is one of them, and none of them stands above it. There is none
/// exactly when no tag stands for a version.
pub proof fn lemma_highest_version_is_maximum(prefix: Seq<char>, tags: Seq<Option<Seq<char>>>)
    ensures
        match highest(prefix, tags) {
            Some(best) => {
                &&& exists|at: int|
                    0 <= at < tags.len() && #[trigger] candidate(prefix, tags[at]) == Some(best)
                &&& forall|at: int|
                    0 <= at < tags.len() ==> (#[trigger] candidate(prefix, tags[at]) matches Some(
                        version,
                    ) ==> versions_compared(version, best) != Precedence::Higher)
            },
            None => forall|at: int|
                0 <= at < tags.len() ==> (#[trigger] candidate(prefix, tags[at])) is None,
        },
{
    let versions = candidates(prefix, tags);
    lemma_highest_is_maximum(versions);
    assert forall|at: int| 0 <= at < tags.len() implies #[trigger] candidate(prefix, tags[at])
        == versions[at] by {}
    match highest(prefix, tags) {
        Some(best) => {
            let held = choose|at: int|
                #![trigger is_highest_at(versions, at)]
                is_highest_at(versions, at) && versions[at] == Some(best);
            assert(candidate(prefix, tags[held]) == Some(best));
            assert forall|at: int| 0 <= at < tags.len() implies (#[trigger] candidate(
                prefix,
                tags[at],
            ) matches Some(version) ==> versions_compared(version, best)
                != Precedence::Higher) by {
                match versions[at] {
                    Some(version) => {
                        assert(outranks(best, held, version, at));
                    },
                    None => {},
                }
            }
        },
        None => {},
    }
}

/// Where only one tag stands for a version, that version is the highest.
pub proof fn lemma_only_candidate_is_highest(
    prefix: Seq<char>,
    tags: Seq<Option<Seq<char>>>,
    at: int,
)
    requires
        0 <= at < tags.len(),
        candidate(prefix, tags[at]) is Some,
        forall|other: int|
            0 <= other < tags.len() && other != at ==> (#[trigger] candidate(
                prefix,
                tags[other],
            )) is None,
    ensures
        highest(prefix, tags) == candidate(prefix, tags[at]),
{
    lemma_highest_version_is_maximum(prefix, tags);
}

/// Where no tag stands for a version, the lookup fails with `NoTagFound`,
/// and so does every next version, whatever the increment.
pub proof fn lemma_no_tag_found(repository: RepositoryView, increment: Increment)
    requires
        forall|at: int|
            0 <= at < repository.tags.len() ==> (#[trigger] candidate(
                repository.prefix,
                repository.tags[at],
            )) is None,
    ensures
        repository.lookup() == Err::<VersionView, Error>(Error::NoTagFound),
        repository.next(increment) == Err::<VersionView, Error>(Error::NoTagFound),
        repository.can_bump(increment),
{
    lemma_highest_version_is_maximum(repository.prefix, repository.tags);
}

/// Whether two outcomes are one: the same version, or the same failure.
pub open spec fn agree(first: Result<Version, Error>, second: Result<Version, Error>) -> bool {
    match (first, second) {
        (Ok(a), Ok(b)) => a@ == b@,
        (Err(a), Err(b)) => a == b,
        _ => false,
    }
}

/// Looking twice finds the same: the outcomes of two lookups of the highest
/// version in one repository agree, and so do the ranges since one version.
pub proof fn lemma_lookups_agree(
    repository: RepositoryView,
    first: Result<Version, Error>,
    second: Result<Version, Error>,
)
    requires
        is_outcome(first, repository.lookup()),
        is_outcome(second, repository.lookup()),
    ensures
        agree(first, second),
        first matches Ok(a) ==> second matches Ok(b) ==> repository.range_since(a@)
            == repository.range_since(b@),
{
}

/// The tags of a repository and the prefix of its version tags.
#[derive(Debug, Clone)]
pub struct SemanticRepository {
    prefix: String,
    tags: Vec<Option<String>>,
}

impl View for SemanticRepository {
    type V = RepositoryView;

    closed spec fn view(&self) -> RepositoryView {
        RepositoryView { prefix: self.prefix@, tags: texts_view(self.tags@) }
    }
}

impl SemanticRepository {
    /// A repository whose versions are tagged without a prefix.
    pub fn open(tags: Vec<Option<String>>) -> (repository: SemanticRepository)
        ensures
            repository@ == (RepositoryView { prefix: Seq::empty(), tags: texts_view(tags@) }),
    {
        SemanticRepository { prefix: String::new(), tags }
    }

    /// A repository whose versions are tagged under `prefix`.
    pub fn open_with_prefix(prefix: &str, tags: Vec<Option<String>>) -> (repository:
        SemanticRepository)
        ensures
            repository@ == (RepositoryView { prefix: prefix@, tags: texts_view(tags@) }),
    {
        SemanticRepository { prefix: String::from_str(prefix), tags }
    }

    /// The prefix of the version tags.
    pub fn prefix(&self) -> (prefix: &str)
        ensures
            prefix@ == self@.prefix,
    {
        self.prefix.as_str()
    }

    /// The version that the tag at `at` stands for.
    fn candidate_at(&self, at: usize, prefix: &Vec<char>) -> (r: Option<Version>)
        requires
            at < self@.tags.len(),
            prefix@ == self@.prefix,
        ensures
            match r {
                Some(version) => candidate(self@.prefix, self@.tags[at as int]) == Some(version@),
                None => candidate(self@.prefix, self@.tags[at as int]) is None,
            },
    {
        match &self.tags[at] {
            Some(name) => {
                let chars = to_chars(name.as_str());
                if holds_at(&chars, 0, prefix) {
                    let rest = name.as_str().substring_char(prefix.len(), chars.len());
                    assert(rest@ == name@.skip(prefix@.len() as int));
                    Version::parse(rest)
                } else {
                    None
                }
            },
            None => None,
        }
    }

    /// The highest version among the tags.
    ///
    /// Tags that stand for no version are passed over. Fails with
    /// `NoTagFound` exactly when no tag stands for a version.
    pub fn highest_version(&self) -> (r: Result<Version, Error>)
        ensures
            is_outcome(r, self@.lookup()),
    {
        let prefix = to_chars(self.prefix.as_str());
        let mut found: Vec<Option<Version>> = Vec::new();
        let mut at: usize = 0;
        while at < self.tags.len()
            invariant
                at <= self.tags.len(),
                self.tags.len() == self@.tags.len(),
                prefix@ == self@.prefix,
                found@.len() == at,
                versions_view(found@) == candidates(self@.prefix, self@.tags).take(at as int),
            decreases self.tags.len() - at,
        {
            let ghost before = found@;
            let version = self.candidate_at(at, &prefix);
            found.push(version);
            proof {
                let all = candidates(self@.prefix, self@.tags);
                assert forall|other: int| 0 <= other < found@.len() implies versions_view(
                    found@,
                )[other] == all.take(at + 1)[other] by {
                    if other < at {
                        assert(found@[other] == before[other]);
                        assert(versions_view(before)[other] == all.take(at as int)[other]);
                    }
                }
                assert(versions_view(found@) =~= all.take(at + 1));
            }
            at += 1;
        }
        proof {
            assert(candidates(self@.prefix, self@.tags).take(at as int) =~= candidates(
                self@.prefix,
                self@.tags,
            ));
        }
        match highest_of(found) {
            Some(version) => Ok(version),
            None => Err(Error::NoTagFound),
        }
    }

    /// The range of revisions whose commits came since `version` was tagged:
    /// from its tag, exclusive, up to the tip of the current branch.
    pub fn commits_since(&self, version: &Version) -> (range: String)
        ensures
            range@ == self@.range_since(version@),
    {
        let mut range = String::from_str(self.prefix.as_str());
        range.append(version.to_string().as_str());
        range.append("..HEAD");
        range
    }

    /// Whether `increment` fits in the numbers of the highest version.
    pub fn can_bump(&self, increment: Increment) -> (r: bool)
        ensures
            r == self@.can_bump(increment),
    {
        match self.highest_version() {
            Ok(version) => version.fits(increment),
            Err(_) => true,
        }
    }

    /// The version that follows the highest one by `increment`.
    ///
    /// Fails with `NoTagFound` when no tag stands for a version, else with
    /// `NoVersionChange` when `increment` is `NONE`.
    pub fn next_version(&self, increment: Increment) -> (r: Result<Version, Error>)
        requires
            self@.can_bump(increment),
        ensures
            is_outcome(r, self@.next(increment)),
    {
        match self.highest_version() {
            Ok(version) => bump(version, increment),
            Err(error) => Err(error),
        }
    }

    /// The increment that the commits since the highest version ask for:
    /// the highest level that any of their messages asks for. A commit
    /// without a message asks for nothing.
    pub fn increment_since(messages: &Vec<Option<String>>) -> (r: Increment)
        ensures
            r == max_increment(available(texts_view(messages@))),
    {
        let mut there: Vec<&str> = Vec::new();
        let mut at: usize = 0;
        while at < messages.len()
            invariant
                at <= messages.len(),
                there@.map_values(|message: &str| message@) == available(
                    texts_view(messages@).take(at as int),
                ),
            decreases messages.len() - at,
        {
            proof {
                assert(texts_view(messages@).take(at + 1).drop_last() =~= texts_view(
                    messages@,
                ).take(at as int));
            }
            match &messages[at] {
                Some(message) => {
                    there.push(message.as_str());
                    assert(there@.map_values(|message: &str| message@) =~= available(
                        texts_view(messages@).take(at as int),
                    ).push(message@));
                },
                None => {},
            }
            at += 1;
        }
        proof {
            assert(texts_view(messages@).take(at as int) =~= texts_view(messages@));
        }
        max_semantic_increment(there)
    }

    /// The version that follows the highest one by what the commits since
    /// then ask for; `messages` holds their messages, `None` for a commit
    /// without one.
    ///
    /// Fails with `NoTagFound` when no tag stands for a version, else with
    /// `NoVersionChange` when no message asks for an increment.
    pub fn automatic_next_version(&self, messages: &Vec<Option<String>>) -> (r: Result<
        Version,
        Error,
    >)
        requires
            self@.can_bump(max_increment(available(texts_view(messages@)))),
        ensures
            is_outcome(r, self@.next(max_increment(available(texts_view(messages@))))),
    {
        let increment = Self::increment_since(messages);
        self.next_version(increment)
    }
}

} // verus!
