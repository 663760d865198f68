//! Semantic versions: reading them, ordering them, writing them and
//! incrementing them.
//!
//! Reading, ordering and writing are the `semver` crate's; a version is held
//! here as plain values, field for field as that crate holds it.

use std::cmp::Ordering;
use vstd::prelude::*;
use vstd::string::*;
use crate::error::Error;
use crate::increment::Increment;
use crate::text::{find_from, first_index, to_chars};

verus! {

/// One dot-separated part of a pre-release or of build metadata.
#[derive(Clone, Debug, PartialEq, Eq)]
pub enum Identifier {
    /// A part made of digits alone.
    Numeric(u64),
    /// A part with letters, digits and hyphens.
    AlphaNumeric(String),
}

/// An [`Identifier`] as a mathematical value.
pub enum IdentifierView {
    Numeric(u64),
    AlphaNumeric(Seq<char>),
}

impl View for Identifier {
    type V = IdentifierView;

    open spec fn view(&self) -> IdentifierView {
        match self {
            Identifier::Numeric(number) => IdentifierView::Numeric(*number),
            Identifier::AlphaNumeric(text) => IdentifierView::AlphaNumeric(text@),
        }
    }
}

/// A semantic version.
#[derive(Clone, Debug)]
pub struct Version {
    pub major: u64,
    pub minor: u64,
    pub patch: u64,
    /// The pre-release identifiers; none for a release.
    pub pre: Vec<Identifier>,
    /// The build metadata, which has no part in the order of versions.
    pub build: Vec<Identifier>,
}

/// A [`Version`] as a mathematical value.
pub struct VersionView {
    pub major: u64,
    pub minor: u64,
    pub patch: u64,
    pub pre: Seq<IdentifierView>,
    pub build: Seq<IdentifierView>,
}

impl View for Version {
    type V = VersionView;

    open spec fn view(&self) -> VersionView {
        VersionView {
            major: self.major,
            minor: self.minor,
            patch: self.patch,
            pre: self.pre@.map_values(|part: Identifier| part@),
            build: self.build@.map_values(|part: Identifier| part@),
        }
    }
}

/// How one value stands to another in an order.
#[derive(Clone, Copy, Debug, PartialEq, Eq, Structural)]
pub enum Precedence {
    Lower,
    Same,
    Higher,
}

impl Precedence {
    /// The same relation read from the other side.
    pub open spec fn reversed(self) -> Precedence {
        match self {
            Precedence::Lower => Precedence::Higher,
            Precedence::Same => Precedence::Same,
            Precedence::Higher => Precedence::Lower,
        }
    }
}

/// How the number `a` stands to the number `b`.
pub open spec fn numbers_compared(a: u64, b: u64) -> Precedence {
    if a < b {
        Precedence::Lower
    } else if a == b {
        Precedence::Same
    } else {
        Precedence::Higher
    }
}

/// How the text `a` stands to the text `b`: by the first character in which
/// they differ, and a text before every text that it begins.
pub open spec fn texts_compared(a: Seq<char>, b: Seq<char>) -> Precedence
    decreases a.len(),
{
    if a.len() == 0 {
        if b.len() == 0 {
            Precedence::Same
        } else {
            Precedence::Lower
        }
    } else if b.len() == 0 {
        Precedence::Higher
    } else if a[0] < b[0] {
        Precedence::Lower
    } else if a[0] > b[0] {
        Precedence::Higher
    } else {
        texts_compared(a.drop_first(), b.drop_first())
    }
}

/// How the identifier `a` stands to the identifier `b`: a number before every
/// text, numbers by their value, texts as texts.
pub open spec fn identifier_compared(a: IdentifierView, b: IdentifierView) -> Precedence {
    match (a, b) {
        (IdentifierView::Numeric(x), IdentifierView::Numeric(y)) => numbers_compared(x, y),
        (IdentifierView::Numeric(_), IdentifierView::AlphaNumeric(_)) => Precedence::Lower,
        (IdentifierView::AlphaNumeric(_), IdentifierView::Numeric(_)) => Precedence::Higher,
        (IdentifierView::AlphaNumeric(x), IdentifierView::AlphaNumeric(y)) => texts_compared(x, y),
    }
}

/// How the identifiers `a` stand to the identifiers `b`: by the first place
/// in which they differ, and a list before every list that it begins.
pub open spec fn identifiers_compared(
    a: Seq<IdentifierView>,
    b: Seq<IdentifierView>,
) -> Precedence
    decreases a.len(),
{
    if a.len() == 0 {
        if b.len() == 0 {
            Precedence::Same
        } else {
            Precedence::Lower
        }
    } else if b.len() == 0 {
        Precedence::Higher
    } else {
        match identifier_compared(a[0], b[0]) {
            Precedence::Same => identifiers_compared(a.drop_first(), b.drop_first()),
            other => other,
        }
    }
}

/// How the pre-release `a` stands to the pre-release `b`: a release, which
/// has no identifiers, stands above every pre-release.
pub open spec fn pre_releases_compared(
    a: Seq<IdentifierView>,
    b: Seq<IdentifierView>,
) -> Precedence {
    if a.len() == 0 && b.len() == 0 {
        Precedence::Same
    } else if a.len() == 0 {
        Precedence::Higher
    } else if b.len() == 0 {
        Precedence::Lower
    } else {
        identifiers_compared(a, b)
    }
}

/// How the version `a` stands to the version `b`: by major, then minor, then
/// patch, then pre-release. Build metadata has no part in it.
pub open spec fn versions_compared(a: VersionView, b: VersionView) -> Precedence {
    if a.major != b.major {
        numbers_compared(a.major, b.major)
    } else if a.minor != b.minor {
        numbers_compared(a.minor, b.minor)
    } else if a.patch != b.patch {
        numbers_compared(a.patch, b.patch)
    } else {
        pre_releases_compared(a.pre, b.pre)
    }
}

/// Two texts stand alike exactly when they are one text.
pub proof fn lemma_texts_alike(a: Seq<char>, b: Seq<char>)
    ensures
        texts_compared(a, b) == Precedence::Same <==> a == b,
    decreases a.len(),
{
    if a.len() == 0 || b.len() == 0 {
        if a.len() == 0 && b.len() == 0 {
            assert(a =~= b);
        }
    } else if a[0] == b[0] {
        lemma_texts_alike(a.drop_first(), b.drop_first());
        if a.drop_first() == b.drop_first() {
            assert forall|i: int| 0 <= i < a.len() implies a[i] == b[i] by {
                if i > 0 {
                    assert(a[i] == a.drop_first()[i - 1]);
                    assert(b[i] == b.drop_first()[i - 1]);
                }
            }
            assert(a.len() == a.drop_first().len() + 1);
            assert(b.len() == b.drop_first().len() + 1);
            assert(a =~= b);
        }
    }
}

/// As `a` stands to `b`, so `b` stands to `a` the other way round.
pub proof fn lemma_texts_reversed(a: Seq<char>, b: Seq<char>)
    ensures
        texts_compared(b, a) == texts_compared(a, b).reversed(),
    decreases a.len(),
{
    if a.len() > 0 && b.len() > 0 && a[0] == b[0] {
        lemma_texts_reversed(a.drop_first(), b.drop_first());
    }
}

/// A text below a text that is below a third is below the third.
pub proof fn lemma_texts_lower(a: Seq<char>, b: Seq<char>, c: Seq<char>)
    requires
        texts_compared(a, b) == Precedence::Lower,
        texts_compared(b, c) == Precedence::Lower,
    ensures
        texts_compared(a, c) == Precedence::Lower,
    decreases a.len(),
{
    if a.len() > 0 && b.len() > 0 && c.len() > 0 && a[0] == b[0] && b[0] == c[0] {
        lemma_texts_lower(a.drop_first(), b.drop_first(), c.drop_first());
    }
}

/// Two identifiers stand alike exactly when they are one identifier.
pub proof fn lemma_identifier_alike(a: IdentifierView, b: IdentifierView)
    ensures
        identifier_compared(a, b) == Precedence::Same <==> a == b,
{
    match (a, b) {
        (IdentifierView::AlphaNumeric(x), IdentifierView::AlphaNumeric(y)) => {
            lemma_texts_alike(x, y);
        },
        _ => {},
    }
}

/// As `a` stands to `b`, so `b` stands to `a` the other way round.
pub proof fn lemma_identifier_reversed(a: IdentifierView, b: IdentifierView)
    ensures
        identifier_compared(b, a) == identifier_compared(a, b).reversed(),
{
    match (a, b) {
        (IdentifierView::AlphaNumeric(x), IdentifierView::AlphaNumeric(y)) => {
            lemma_texts_reversed(x, y);
        },
        _ => {},
    }
}

/// An identifier below one that is below a third is below the third.
pub proof fn lemma_identifier_lower(a: IdentifierView, b: IdentifierView, c: IdentifierView)
    requires
        identifier_compared(a, b) == Precedence::Lower,
        identifier_compared(b, c) == Precedence::Lower,
    ensures
        identifier_compared(a, c) == Precedence::Lower,
{
    match (a, b, c) {
        (
            IdentifierView::AlphaNumeric(x),
            IdentifierView::AlphaNumeric(y),
            IdentifierView::AlphaNumeric(z),
        ) => {
            lemma_texts_lower(x, y, z);
        },
        _ => {},
    }
}

/// Two lists of identifiers stand alike exactly when they are one list.
pub proof fn lemma_identifiers_alike(a: Seq<IdentifierView>, b: Seq<IdentifierView>)
    ensures
        identifiers_compared(a, b) == Precedence::Same <==> a == b,
    decreases a.len(),
{
    if a.len() == 0 || b.len() == 0 {
        if a.len() == 0 && b.len() == 0 {
            assert(a =~= b);
        }
    } else {
        lemma_identifier_alike(a[0], b[0]);
        if a[0] == b[0] {
            lemma_identifiers_alike(a.drop_first(), b.drop_first());
            if a.drop_first() == b.drop_first() {
                assert forall|i: int| 0 <= i < a.len() implies a[i] == b[i] by {
                    if i > 0 {
                        assert(a[i] == a.drop_first()[i - 1]);
                        assert(b[i] == b.drop_first()[i - 1]);
                    }
                }
                assert(a.len() == a.drop_first().len() + 1);
                assert(b.len() == b.drop_first().len() + 1);
                assert(a =~= b);
            }
        }
    }
}

/// As `a` stands to `b`, so `b` stands to `a` the other way round.
pub proof fn lemma_identifiers_reversed(a: Seq<IdentifierView>, b: Seq<IdentifierView>)
    ensures
        identifiers_compared(b, a) == identifiers_compared(a, b).reversed(),
    decreases a.len(),
{
    if a.len() > 0 && b.len() > 0 {
        lemma_identifier_reversed(a[0], b[0]);
        lemma_identifiers_reversed(a.drop_first(), b.drop_first());
    }
}

/// A list below a list that is below a third is below the third.
pub proof fn lemma_identifiers_lower(
    a: Seq<IdentifierView>,
    b: Seq<IdentifierView>,
    c: Seq<IdentifierView>,
)
    requires
        identifiers_compared(a, b) == Precedence::Lower,
        identifiers_compared(b, c) == Precedence::Lower,
    ensures
        identifiers_compared(a, c) == Precedence::Lower,
    decreases a.len(),
{
    if a.len() > 0 && b.len() > 0 && c.len() > 0 {
        lemma_identifier_alike(a[0], b[0]);
        lemma_identifier_alike(b[0], c[0]);
        lemma_identifier_alike(a[0], c[0]);
        if identifier_compared(a[0], b[0]) == Precedence::Lower && identifier_compared(b[0], c[0])
            == Precedence::Lower {
            lemma_identifier_lower(a[0], b[0], c[0]);
        } else if a[0] == b[0] && b[0] == c[0] {
            lemma_identifiers_lower(a.drop_first(), b.drop_first(), c.drop_first());
        }
    }
}

/// Two versions stand alike exactly when they agree in everything but their
/// build metadata.
pub proof fn lemma_versions_alike(a: VersionView, b: VersionView)
    ensures
        versions_compared(a, b) == Precedence::Same <==> {
            &&& a.major == b.major
            &&& a.minor == b.minor
            &&& a.patch == b.patch
            &&& a.pre == b.pre
        },
{
    lemma_identifiers_alike(a.pre, b.pre);
    if a.pre.len() == 0 && b.pre.len() == 0 {
        assert(a.pre =~= b.pre);
    }
}

/// The order of versions is one order read from either side: as `a` stands
/// to `b`, so `b` stands to `a` the other way round.
pub proof fn lemma_versions_reversed(a: VersionView, b: VersionView)
    ensures
        versions_compared(b, a) == versions_compared(a, b).reversed(),
{
    lemma_identifiers_reversed(a.pre, b.pre);
}

/// The order of versions is transitive: a version that is not above a second
/// one, which is not above a third, is not above the third.
pub proof fn lemma_versions_transitive(a: VersionView, b: VersionView, c: VersionView)
    requires
        versions_compared(a, b) != Precedence::Higher,
        versions_compared(b, c) != Precedence::Higher,
    ensures
        versions_compared(a, c) != Precedence::Higher,
{
    lemma_versions_alike(a, b);
    lemma_versions_alike(b, c);
    if versions_compared(a, b) == Precedence::Lower && versions_compared(b, c)
        == Precedence::Lower {
        if a.major == b.major && b.major == c.major && a.minor == b.minor && b.minor == c.minor
            && a.patch == b.patch && b.patch == c.patch {
            if c.pre.len() > 0 {
                lemma_identifiers_lower(a.pre, b.pre, c.pre);
            }
        }
    }
}

/// Versions as mathematical values; `None` stays `None`.
pub open spec fn versions_view(versions: Seq<Option<Version>>) -> Seq<Option<VersionView>> {
    versions.map_values(
        |version: Option<Version>|
            match version {
                Some(version) => Some(version@),
                None => None,
            },
    )
}

/// The highest of the versions, taken one by one: a later version replaces
/// the one held unless the one held stands above it. `None` stands for no
/// version and is passed over.
pub open spec fn highest_among(versions: Seq<Option<VersionView>>) -> Option<VersionView>
    decreases versions.len(),
{
    if versions.len() == 0 {
        None
    } else {
        let held = highest_among(versions.drop_last());
        match (held, versions.last()) {
            (_, None) => held,
            (None, Some(version)) => Some(version),
            (Some(best), Some(version)) => if versions_compared(best, version)
                == Precedence::Higher {
                Some(best)
            } else {
                Some(version)
            },
        }
    }
}

/// Whether `best` stands to the version at `other` as the highest version
/// at `at` does: not below it, and above it where it comes later.
pub open spec fn outranks(best: VersionView, at: int, version: VersionView, other: int) -> bool {
    if other > at {
        versions_compared(version, best) == Precedence::Lower
    } else {
        versions_compared(version, best) != Precedence::Higher
    }
}

/// Whether the version at `at` is the highest: none of the versions stands
/// above it, and every later one stands below it.
pub open spec fn is_highest_at(versions: Seq<Option<VersionView>>, at: int) -> bool {
    &&& 0 <= at < versions.len()
    &&& versions[at] is Some
    &&& forall|other: int|
        0 <= other < versions.len() ==> (#[trigger] versions[other] matches Some(version)
            ==> outranks(versions[at]->0, at, version, other))
}

/// The version at `at`, the highest of all but the last, is the highest of
/// all when the last is no version or stands below it.
proof fn lemma_highest_stays(versions: Seq<Option<VersionView>>, at: int)
    requires
        versions.len() > 0,
        is_highest_at(versions.drop_last(), at),
        versions.last() matches Some(version) ==> versions_compared(version, versions[at]->0)
            == Precedence::Lower,
    ensures
        is_highest_at(versions, at),
{
    let before = versions.drop_last();
    assert(before[at] == versions[at]);
    assert forall|other: int| 0 <= other < versions.len() implies (
    #[trigger] versions[other] matches Some(version) ==> outranks(
        versions[at]->0,
        at,
        version,
        other,
    )) by {
        if other < before.len() {
            assert(before[other] == versions[other]);
        }
    }
}

/// The highest version is the maximum of the versions, and of those that
/// stand alike the one that comes last. There is none exactly when there is
/// no version.
pub proof fn lemma_highest_is_maximum(versions: Seq<Option<VersionView>>)
    ensures
        match highest_among(versions) {
            Some(best) => exists|at: int|
                #![trigger is_highest_at(versions, at)]
                is_highest_at(versions, at) && versions[at] == Some(best),
            None => forall|at: int| 0 <= at < versions.len() ==> (#[trigger] versions[at]) is None,
        },
    decreases versions.len(),
{
    if versions.len() > 0 {
        let before = versions.drop_last();
        let last = versions.len() - 1;
        lemma_highest_is_maximum(before);
        assert forall|at: int| 0 <= at < before.len() implies #[trigger] before[at]
            == versions[at] by {}
        match (highest_among(before), versions.last()) {
            (None, None) => {
                assert forall|at: int| 0 <= at < versions.len() implies (
                #[trigger] versions[at]) is None by {
                    if at < last {
                        assert(before[at] is None);
                    }
                }
            },
            (Some(best), None) => {
                let held = choose|at: int|
                    #![trigger is_highest_at(before, at)]
                    is_highest_at(before, at) && before[at] == Some(best);
                lemma_highest_stays(versions, held);
            },
            (None, Some(version)) => {
                lemma_versions_alike(version, version);
                assert forall|other: int| 0 <= other < versions.len() implies (
                #[trigger] versions[other] matches Some(seen) ==> outranks(
                    version,
                    last,
                    seen,
                    other,
                )) by {
                    if other < last {
                        assert(before[other] is None);
                    }
                }
                assert(is_highest_at(versions, last));
            },
            (Some(best), Some(version)) => {
                let held = choose|at: int|
                    #![trigger is_highest_at(before, at)]
                    is_highest_at(before, at) && before[at] == Some(best);
                lemma_versions_reversed(best, version);
                if versions_compared(best, version) == Precedence::Higher {
                    lemma_highest_stays(versions, held);
                } else {
                    lemma_versions_alike(version, version);
                    assert forall|other: int| 0 <= other < versions.len() implies (
                    #[trigger] versions[other] matches Some(seen) ==> outranks(
                        version,
                        last,
                        seen,
                        other,
                    )) by {
                        if other < last {
                            match before[other] {
                                Some(seen) => {
                                    lemma_versions_transitive(seen, best, version);
                                },
                                None => {},
                            }
                        }
                    }
                    assert(is_highest_at(versions, last));
                }
            },
        }
    }
}

/// Only one of the versions is the highest in the way that
/// [`is_highest_at`] says: the highest version is determined by the versions.
pub proof fn lemma_highest_is_unique(versions: Seq<Option<VersionView>>, first: int, second: int)
    requires
        is_highest_at(versions, first),
        is_highest_at(versions, second),
    ensures
        first == second,
{
    lemma_versions_reversed(versions[first]->0, versions[second]->0);
}

/// What an increment does to the numbers of a version, and that it leaves
/// the version above the one it came from.
pub proof fn lemma_bumped(version: VersionView, increment: Increment)
    requires
        can_bump(version, increment),
        increment != Increment::NONE,
    ensures
        increment == Increment::PATCH ==> {
            &&& bumped(version, increment).major == version.major
            &&& bumped(version, increment).minor == version.minor
            &&& bumped(version, increment).patch == version.patch + 1
        },
        increment == Increment::MINOR ==> {
            &&& bumped(version, increment).major == version.major
            &&& bumped(version, increment).minor == version.minor + 1
            &&& bumped(version, increment).patch == 0
        },
        increment == Increment::MAJOR ==> {
            &&& bumped(version, increment).major == version.major + 1
            &&& bumped(version, increment).minor == 0
            &&& bumped(version, increment).patch == 0
        },
        bumped(version, increment).pre.len() == 0,
        bumped(version, increment).build.len() == 0,
        versions_compared(version, bumped(version, increment)) == Precedence::Lower,
{
}

/// The version that the `semver` crate reads in a text, or `None` where it
/// reads none.
pub uninterp spec fn semver_parsed(text: Seq<char>) -> Option<VersionView>;

/// The most hyphens that one identifier may hold to be read: the parser of
/// the `semver` crate panics on an identifier of more than 256 parts joined by
/// hyphens.
pub const MAX_HYPHENS: usize = 255;

/// Where the hyphen stands that opens the pre-release: the first hyphen of
/// the text, where it comes before every plus sign. The length of the text
/// where no hyphen opens a pre-release.
pub open spec fn opening_hyphen(text: Seq<char>) -> int {
    let hyphen = first_index(text, 0, '-');
    if hyphen < first_index(text, 0, '+') {
        hyphen
    } else {
        text.len() as int
    }
}

/// The hyphens inside the identifier that runs up to `end`: those behind the
/// last dot or plus sign before `end`, the hyphen that opens the pre-release
/// left out.
pub open spec fn hyphens_inside(text: Seq<char>, end: int) -> nat
    decreases end,
{
    if end <= 0 || end > text.len() {
        0
    } else if text[end - 1] == '.' || text[end - 1] == '+' {
        0
    } else if text[end - 1] == '-' && end - 1 != opening_hyphen(text) {
        hyphens_inside(text, end - 1) + 1
    } else {
        hyphens_inside(text, end - 1)
    }
}

/// Whether no identifier of the text holds more than [`MAX_HYPHENS`]
/// hyphens. Every text in which the `semver` crate reads a version is such a
/// text; on the others its parser fails or panics.
pub open spec fn within_parser(text: Seq<char>) -> bool {
    forall|end: int| 0 <= end <= text.len() ==> hyphens_inside(text, end) <= MAX_HYPHENS
}

/// The version that a text stands for, where it stands for one: what the
/// `semver` crate reads in it. A text with an identifier of more than
/// [`MAX_HYPHENS`] hyphens stands for none.
pub open spec fn parsed_version(text: Seq<char>) -> Option<VersionView> {
    if within_parser(text) {
        semver_parsed(text)
    } else {
        None
    }
}

/// The character that writes the digit `d`.
pub open spec fn digit(d: int) -> char {
    if d == 0 {
        '0'
    } else if d == 1 {
        '1'
    } else if d == 2 {
        '2'
    } else if d == 3 {
        '3'
    } else if d == 4 {
        '4'
    } else if d == 5 {
        '5'
    } else if d == 6 {
        '6'
    } else if d == 7 {
        '7'
    } else if d == 8 {
        '8'
    } else {
        '9'
    }
}

/// A number in decimal digits, without leading zeros.
pub open spec fn decimal(n: nat) -> Seq<char>
    decreases n,
{
    if n < 10 {
        seq![digit(n as int)]
    } else {
        decimal(n / 10).push(digit((n % 10) as int))
    }
}

/// An identifier as it is written.
pub open spec fn identifier_text(part: IdentifierView) -> Seq<char> {
    match part {
        IdentifierView::Numeric(number) => decimal(number as nat),
        IdentifierView::AlphaNumeric(text) => text,
    }
}

/// Identifiers as they are written, with a dot between each two.
pub open spec fn identifiers_text(parts: Seq<IdentifierView>) -> Seq<char>
    decreases parts.len(),
{
    if parts.len() == 0 {
        Seq::empty()
    } else if parts.len() == 1 {
        identifier_text(parts[0])
    } else {
        identifiers_text(parts.drop_last()) + seq!['.'] + identifier_text(parts.last())
    }
}

/// A version as it is written: `major.minor.patch`, then `-` and the
/// pre-release where there is one, then `+` and the build metadata where
/// there is any.
pub open spec fn version_text(version: VersionView) -> Seq<char> {
    decimal(version.major as nat) + seq!['.'] + decimal(version.minor as nat) + seq!['.']
        + decimal(version.patch as nat) + if version.pre.len() > 0 {
        seq!['-'] + identifiers_text(version.pre)
    } else {
        Seq::empty()
    } + if version.build.len() > 0 {
        seq!['+'] + identifiers_text(version.build)
    } else {
        Seq::empty()
    }
}

/// Whether the increment `increment` of `version` fits in its numbers.
pub open spec fn can_bump(version: VersionView, increment: Increment) -> bool {
    match increment {
        Increment::NONE => true,
        Increment::PATCH => version.patch < u64::MAX,
        Increment::MINOR => version.minor < u64::MAX,
        Increment::MAJOR => version.major < u64::MAX,
    }
}

/// The version that follows `version` by `increment`: a patch increment adds
/// one to patch; a minor increment adds one to minor and sets patch to zero;
/// a major increment adds one to major and sets minor and patch to zero.
/// Each of them leaves a release without build metadata.
pub open spec fn bumped(version: VersionView, increment: Increment) -> VersionView {
    match increment {
        Increment::NONE => version,
        Increment::PATCH => VersionView {
            major: version.major,
            minor: version.minor,
            patch: (version.patch + 1) as u64,
            pre: Seq::empty(),
            build: Seq::empty(),
        },
        Increment::MINOR => VersionView {
            major: version.major,
            minor: (version.minor + 1) as u64,
            patch: 0,
            pre: Seq::empty(),
            build: Seq::empty(),
        },
        Increment::MAJOR => VersionView {
            major: (version.major + 1) as u64,
            minor: 0,
            patch: 0,
            pre: Seq::empty(),
            build: Seq::empty(),
        },
    }
}

/// `semver::Version::parse`: reads a version in a text.
///
/// The result is that crate's and depends on the text alone. Its parser
/// counts the hyphens inside each identifier, from zero behind every dot,
/// behind the plus sign and behind the hyphen that opens the pre-release, and
/// panics when it has passed more than 255 of them: such texts are not let in
/// here.
#[verifier::external_body]
fn semver_parse(text: &str) -> (r: Option<Version>)
    requires
        within_parser(text@),
    ensures
        match r {
            Some(version) => semver_parsed(text@) == Some(version@),
            None => semver_parsed(text@) is None,
        },
{
    let plain = |part: semver::Identifier| match part {
        semver::Identifier::Numeric(number) => Identifier::Numeric(number),
        semver::Identifier::AlphaNumeric(text) => Identifier::AlphaNumeric(text),
    };
    match semver::Version::parse(text) {
        Ok(read) => Some(Version {
            major: read.major,
            minor: read.minor,
            patch: read.patch,
            pre: read.pre.into_iter().map(plain).collect(),
            build: read.build.into_iter().map(plain).collect(),
        }),
        Err(_) => None,
    }
}

/// `Ord::cmp` of `semver::Version`: the order of two versions.
///
/// That crate compares major, then minor, then patch as numbers. Of two
/// versions that agree in these, one without pre-release identifiers stands
/// above one with some, and two with some stand as their lists of identifiers
/// do: place by place, a number before a text, numbers by value, texts in
/// the order of `String`. Build metadata is not looked at.
#[verifier::external_body]
fn semver_compare(a: &Version, b: &Version) -> (r: Precedence)
    ensures
        r == versions_compared(a@, b@),
{
    let outside = |part: &Identifier| match part {
        Identifier::Numeric(number) => semver::Identifier::Numeric(*number),
        Identifier::AlphaNumeric(text) => semver::Identifier::AlphaNumeric(text.clone()),
    };
    let whole = |of: &Version| semver::Version {
        major: of.major, minor: of.minor, patch: of.patch,
        pre: of.pre.iter().map(outside).collect(),
        build: of.build.iter().map(outside).collect(),
    };
    match whole(a).cmp(&whole(b)) {
        Ordering::Less => Precedence::Lower,
        Ordering::Equal => Precedence::Same,
        Ordering::Greater => Precedence::Higher,
    }
}

/// `Display` of `semver::Version`: a version as it is written.
///
/// That crate writes the three numbers in decimal with dots between them,
/// then a hyphen and the pre-release identifiers where there are some, then
/// a plus sign and the build identifiers where there are some, the
/// identifiers of each list with dots between them.
#[verifier::external_body]
fn semver_text(version: &Version) -> (r: String)
    ensures
        r@ == version_text(version@),
{
    let outside = |part: &Identifier| match part {
        Identifier::Numeric(number) => semver::Identifier::Numeric(*number),
        Identifier::AlphaNumeric(text) => semver::Identifier::AlphaNumeric(text.clone()),
    };
    let whole = semver::Version {
        major: version.major,
        minor: version.minor,
        patch: version.patch,
        pre: version.pre.iter().map(outside).collect(),
        build: version.build.iter().map(outside).collect(),
    };
    whole.to_string()
}

/// Whether no identifier of the text holds more than [`MAX_HYPHENS`] hyphens.
fn fits_parser(text: &Vec<char>) -> (r: bool)
    ensures
        r == within_parser(text@),
{
    let hyphen = find_from(text, 0, '-');
    let plus = find_from(text, 0, '+');
    let opening = if hyphen < plus {
        hyphen
    } else {
        text.len()
    };
    let mut inside: usize = 0;
    let mut at: usize = 0;
    while at < text.len()
        invariant
            at <= text.len(),
            opening == opening_hyphen(text@),
            inside == hyphens_inside(text@, at as int),
            forall|end: int| 0 <= end <= at ==> hyphens_inside(text@, end) <= MAX_HYPHENS,
        decreases text.len() - at,
    {
        let c = text[at];
        if c == '.' || c == '+' {
            inside = 0;
        } else if c == '-' && at != opening {
            if inside == MAX_HYPHENS {
                assert(hyphens_inside(text@, at + 1) > MAX_HYPHENS);
                return false;
            }
            inside += 1;
        }
        at += 1;
    }
    true
}

impl Version {
    /// The release `major.minor.patch`.
    pub fn new(major: u64, minor: u64, patch: u64) -> (version: Version)
        ensures
            version@ == (VersionView {
                major,
                minor,
                patch,
                pre: Seq::empty(),
                build: Seq::empty(),
            }),
    {
        let version = Version { major, minor, patch, pre: Vec::new(), build: Vec::new() };
        assert(version@.pre =~= Seq::empty());
        assert(version@.build =~= Seq::empty());
        version
    }

    /// Reads a version in a text: `None` where the text stands for none, as
    /// [`parsed_version`] says.
    pub fn parse(text: &str) -> (r: Option<Version>)
        ensures
            match r {
                Some(version) => parsed_version(text@) == Some(version@),
                None => parsed_version(text@) is None,
            },
    {
        let chars = to_chars(text);
        if fits_parser(&chars) {
            semver_parse(text)
        } else {
            None
        }
    }

    /// How this version stands to another in the order of versions.
    pub fn precedence(&self, other: &Version) -> (r: Precedence)
        ensures
            r == versions_compared(self@, other@),
    {
        semver_compare(self, other)
    }

    /// The version as it is written.
    pub fn to_string(&self) -> (r: String)
        ensures
            r@ == version_text(self@),
    {
        semver_text(self)
    }

    /// Moves to the next patch version.
    pub fn increment_patch(&mut self)
        requires
            old(self).patch < u64::MAX,
        ensures
            final(self)@ == bumped(old(self)@, Increment::PATCH),
    {
        self.patch = self.patch + 1;
        self.pre = Vec::new();
        self.build = Vec::new();
        assert(self@.pre =~= Seq::empty());
        assert(self@.build =~= Seq::empty());
    }

    /// Moves to the next minor version.
    pub fn increment_minor(&mut self)
        requires
            old(self).minor < u64::MAX,
        ensures
            final(self)@ == bumped(old(self)@, Increment::MINOR),
    {
        self.minor = self.minor + 1;
        self.patch = 0;
        self.pre = Vec::new();
        self.build = Vec::new();
        assert(self@.pre =~= Seq::empty());
        assert(self@.build =~= Seq::empty());
    }

    /// Moves to the next major version.
    pub fn increment_major(&mut self)
        requires
            old(self).major < u64::MAX,
        ensures
            final(self)@ == bumped(old(self)@, Increment::MAJOR),
    {
        self.major = self.major + 1;
        self.minor = 0;
        self.patch = 0;
        self.pre = Vec::new();
        self.build = Vec::new();
        assert(self@.pre =~= Seq::empty());
        assert(self@.build =~= Seq::empty());
    }

    /// Whether the increment fits in this version's numbers.
    pub fn fits(&self, increment: Increment) -> (r: bool)
        ensures
            r == can_bump(self@, increment),
    {
        match increment {
            Increment::NONE => true,
            Increment::PATCH => self.patch < u64::MAX,
            Increment::MINOR => self.minor < u64::MAX,
            Increment::MAJOR => self.major < u64::MAX,
        }
    }
}

impl PartialEq for Version {
    /// Two versions are equal when they stand alike in the order of
    /// versions: when they agree in everything but their build metadata.
    fn eq(&self, other: &Version) -> (r: bool) {
        match self.precedence(other) {
            Precedence::Same => true,
            _ => false,
        }
    }
}

impl vstd::std_specs::cmp::PartialEqSpecImpl for Version {
    open spec fn obeys_eq_spec() -> bool {
        true
    }

    open spec fn eq_spec(&self, other: &Version) -> bool {
        versions_compared(self@, other@) == Precedence::Same
    }
}

impl PartialOrd for Version {
    /// The order of versions.
    fn partial_cmp(&self, other: &Version) -> (r: Option<Ordering>) {
        match self.precedence(other) {
            Precedence::Lower => Some(Ordering::Less),
            Precedence::Same => Some(Ordering::Equal),
            Precedence::Higher => Some(Ordering::Greater),
        }
    }
}

impl vstd::std_specs::cmp::PartialOrdSpecImpl for Version {
    open spec fn obeys_partial_cmp_spec() -> bool {
        true
    }

    open spec fn partial_cmp_spec(&self, other: &Version) -> Option<Ordering> {
        match versions_compared(self@, other@) {
            Precedence::Lower => Some(Ordering::Less),
            Precedence::Same => Some(Ordering::Equal),
            Precedence::Higher => Some(Ordering::Greater),
        }
    }
}

/// The highest of the versions; `None` stands for no version and is passed
/// over. Of versions that stand alike the last is taken; there is no highest
/// exactly when there is no version.
pub fn highest_of(versions: Vec<Option<Version>>) -> (r: Option<Version>)
    ensures
        match r {
            Some(best) => highest_among(versions_view(versions@)) == Some(best@),
            None => highest_among(versions_view(versions@)) is None,
        },
{
    let ghost all = versions_view(versions@);
    let mut best: Option<Version> = None;
    for found in it: versions.into_iter()
        invariant
            all == versions_view(it.seq()),
            match best {
                Some(held) => highest_among(all.take(it.index() as int)) == Some(held@),
                None => highest_among(all.take(it.index() as int)) is None,
            },
    {
        proof {
            assert(all.take(it.index() + 1).drop_last() =~= all.take(it.index() as int));
        }
        match found {
            Some(version) => {
                best = match best {
                    Some(held) => match held.precedence(&version) {
                        Precedence::Higher => Some(held),
                        _ => Some(version),
                    },
                    None => Some(version),
                };
            },
            None => {},
        }
    }
    proof {
        assert(all.take(all.len() as int) =~= all);
    }
    best
}

/// The version that follows `version` by `increment`.
///
/// Fails with `NoVersionChange` exactly when the increment is `NONE`.
pub fn bump(version: Version, increment: Increment) -> (r: Result<Version, Error>)
    requires
        can_bump(version@, increment),
    ensures
        match r {
            Ok(next) => increment != Increment::NONE && next@ == bumped(version@, increment),
            Err(error) => increment == Increment::NONE && error == Error::NoVersionChange,
        },
{
    let mut next = version;
    match increment {
        Increment::MAJOR => next.increment_major(),
        Increment::MINOR => next.increment_minor(),
        Increment::PATCH => next.increment_patch(),
        Increment::NONE => {
            return Err(Error::NoVersionChange);
        },
    }
    Ok(next)
}

} // verus!
