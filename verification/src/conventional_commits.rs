//! Commit messages read as Conventional Commits, and the increment level
//! that each of them asks for.
//!
//! A message follows the convention when it begins with a header line of
//! this shape, after which anything may come:
//!
//! 1. a change type: `feat`, `fix` or `BREAKING CHANGE`;
//! 2. optionally a scope in parentheses: one or more characters, none of
//!    them a line feed, up to the first `)` that is not escaped. A `)` is
//!    escaped, and part of the scope, where it follows a backslash;
//! 3. optionally the breaking marker `!`;
//! 4. a colon and a space;
//! 5. the short description: at least one character other than a line feed.
//!
//! A footer token, `BREAKING-CHANGE: ` or `BREAKING CHANGE: `, that begins
//! anywhere behind the first character of the description marks the commit
//! as breaking, as the marker does. The description is greedy but leaves
//! room for the footer: it runs to the end of its line, and where the last
//! footer token begins on that line it stops there.

use vstd::prelude::*;
use vstd::string::*;
use crate::increment::Increment;
use crate::text::{
    char_at, find_from, first_index, holds_at, lemma_first_index, same_text, to_chars, token_at,
};

verus! {

/// Where the parts of a header stand in a message.
pub struct Header {
    /// The end of the change type, which begins the message.
    pub type_end: int,
    /// The scope's first position and the position of its closing parenthesis.
    pub scope: Option<(int, int)>,
    /// Whether the breaking marker is there.
    pub marked: bool,
    /// The first position of the short description.
    pub description_start: int,
}

/// A message as the convention reads it.
pub struct CommitView {
    pub change_type: Seq<char>,
    pub scope: Option<Seq<char>>,
    pub is_breaking: bool,
    pub short_description: Seq<char>,
}

/// The end of the change type that begins `text`.
pub open spec fn type_end_of(text: Seq<char>) -> Option<int> {
    if token_at(text, 0, "feat"@) {
        Some("feat"@.len() as int)
    } else if token_at(text, 0, "fix"@) {
        Some("fix"@.len() as int)
    } else if token_at(text, 0, "BREAKING CHANGE"@) {
        Some("BREAKING CHANGE"@.len() as int)
    } else {
        None
    }
}

/// Whether a scope closes at `at`: with a `)` that does not follow a
/// backslash.
pub open spec fn closes_at(text: Seq<char>, at: int) -> bool {
    char_at(text, at, ')') && !char_at(text, at - 1, '\\')
}

/// The first position at or after `from` where a scope closes, or the length
/// of `text` where it closes nowhere.
pub open spec fn first_close(text: Seq<char>, from: int) -> int
    decreases text.len() - from,
{
    if from < 0 || from >= text.len() {
        text.len() as int
    } else if closes_at(text, from) {
        from
    } else {
        first_close(text, from + 1)
    }
}

/// `first_close` is the least position from `from` on where a scope closes.
pub proof fn lemma_first_close(text: Seq<char>, from: int)
    requires
        0 <= from <= text.len(),
    ensures
        from <= first_close(text, from) <= text.len(),
        first_close(text, from) < text.len() ==> closes_at(text, first_close(text, from)),
        forall|at: int| from <= at < first_close(text, from) ==> !closes_at(text, at),
    decreases text.len() - from,
{
    if from < text.len() && !closes_at(text, from) {
        lemma_first_close(text, from + 1);
    }
}

/// The rest of a header from `at` on, the position behind the change type
/// or behind the scope: the optional marker, the separator and the first
/// character of the description.
pub open spec fn header_rest(
    text: Seq<char>,
    type_end: int,
    scope: Option<(int, int)>,
    at: int,
) -> Option<Header> {
    let marked = char_at(text, at, '!');
    let colon = if marked {
        at + 1
    } else {
        at
    };
    if token_at(text, colon, ": "@) && colon + ": "@.len() < text.len() && text[colon + ": "@.len()]
        != '\n' {
        Some(Header { type_end, scope, marked, description_start: colon + ": "@.len() })
    } else {
        None
    }
}

/// The header of `text`, where it has one.
pub open spec fn header_of(text: Seq<char>) -> Option<Header> {
    match type_end_of(text) {
        None => None,
        Some(type_end) => {
            if char_at(text, type_end, '(') {
                let close = first_close(text, type_end + 1);
                if type_end + 1 < close < first_index(text, type_end + 1, '\n') {
                    header_rest(text, type_end, Some((type_end + 1, close)), close + 1)
                } else {
                    None
                }
            } else {
                header_rest(text, type_end, None, type_end)
            }
        },
    }
}

/// Whether a footer token begins at `at`.
pub open spec fn footer_at(text: Seq<char>, at: int) -> bool {
    token_at(text, at, "BREAKING-CHANGE: "@) || token_at(text, at, "BREAKING CHANGE: "@)
}

/// The last position from `from` up to `end` where a footer token begins.
pub open spec fn last_footer(text: Seq<char>, from: int, end: int) -> Option<int>
    decreases end - from,
{
    if end <= from {
        None
    } else if footer_at(text, end - 1) {
        Some(end - 1)
    } else {
        last_footer(text, from, end - 1)
    }
}

/// Where the short description ends.
pub open spec fn description_end(text: Seq<char>, start: int) -> int {
    let line_end = first_index(text, start, '\n');
    match last_footer(text, start + 1, text.len() as int) {
        Some(footer) if footer < line_end => footer,
        _ => line_end,
    }
}

/// What the convention reads in `text`; `None` where `text` does not follow it.
pub open spec fn parsed_commit(text: Seq<char>) -> Option<CommitView> {
    match header_of(text) {
        None => None,
        Some(header) => Some(
            CommitView {
                change_type: text.subrange(0, header.type_end),
                scope: match header.scope {
                    Some((first, close)) => Some(text.subrange(first, close)),
                    None => None,
                },
                is_breaking: header.marked || last_footer(
                    text,
                    header.description_start + 1,
                    text.len() as int,
                ) is Some,
                short_description: text.subrange(
                    header.description_start,
                    description_end(text, header.description_start),
                ),
            },
        ),
    }
}

/// The increment level that a commit asks for.
pub open spec fn increment_of(commit: CommitView) -> Increment {
    if commit.is_breaking {
        Increment::MAJOR
    } else if commit.change_type == "fix"@ {
        Increment::PATCH
    } else if commit.change_type == "feat"@ {
        Increment::MINOR
    } else {
        Increment::NONE
    }
}

/// The increment level that a message asks for: `NONE` where it does not
/// follow the convention.
pub open spec fn increment_for(text: Seq<char>) -> Increment {
    match parsed_commit(text) {
        Some(commit) => increment_of(commit),
        None => Increment::NONE,
    }
}

/// `last_footer` finds a footer token exactly where one begins in the range,
/// and then the last of them.
pub proof fn lemma_last_footer(text: Seq<char>, from: int, end: int)
    ensures
        last_footer(text, from, end) is Some <==> exists|at: int|
            from <= at < end && footer_at(text, at),
        last_footer(text, from, end) matches Some(last) ==> {
            &&& from <= last < end
            &&& footer_at(text, last)
            &&& forall|at: int| last < at < end ==> !footer_at(text, at)
        },
    decreases end - from,
{
    if end > from {
        lemma_last_footer(text, from, end - 1);
        if footer_at(text, end - 1) {
        } else {
            assert forall|at: int| from <= at < end && footer_at(text, at) implies from <= at < end
                - 1 by {}
        }
    }
}

/// Whether `header` says where the parts of a header stand in `text`: the
/// grammar of the header line, part by part.
pub open spec fn is_header(text: Seq<char>, header: Header) -> bool {
    let after = match header.scope {
        Some((_, close)) => close + 1,
        None => header.type_end,
    };
    let colon = if header.marked {
        after + 1
    } else {
        after
    };
    &&& type_end_of(text) == Some(header.type_end)
    &&& header.scope matches Some((first, close)) ==> {
        &&& char_at(text, header.type_end, '(')
        &&& first == header.type_end + 1
        &&& first < close
        &&& closes_at(text, close)
        &&& forall|at: int| first <= at < close ==> !closes_at(text, at) && text[at] != '\n'
    }
    &&& header.marked ==> char_at(text, after, '!')
    &&& token_at(text, colon, ": "@)
    &&& header.description_start == colon + 2
    &&& header.description_start < text.len()
    &&& text[header.description_start] != '\n'
}

/// The header of a text is the one header that the grammar finds in it.
pub proof fn lemma_header_of(text: Seq<char>, header: Header)
    ensures
        header_of(text) == Some(header) <==> is_header(text, header),
{
    reveal_strlit(": ");
    assert(": "@.len() == 2);
    if type_end_of(text) is Some {
        let type_end = type_end_of(text)->0;
        assert(0 <= type_end <= text.len());
        if type_end < text.len() {
            lemma_first_close(text, type_end + 1);
            lemma_first_index(text, type_end + 1, '\n');
        }
        if is_header(text, header) {
            let after = match header.scope {
                Some((_, close)) => close + 1,
                None => header.type_end,
            };
            let colon = if header.marked {
                after + 1
            } else {
                after
            };
            assert(text[colon] == ':') by {
                assert(text.subrange(colon, colon + 2)[0] == ':');
            }
        }
    }
}

/// A commit is breaking exactly when its header has the marker or a footer
/// token begins behind the first character of its description.
pub proof fn lemma_breaking(text: Seq<char>)
    requires
        header_of(text) is Some,
    ensures
        parsed_commit(text) is Some,
        parsed_commit(text)->0.is_breaking <==> header_of(text)->0.marked || exists|at: int|
            header_of(text)->0.description_start < at < text.len() && footer_at(text, at),
{
    let start = header_of(text)->0.description_start;
    lemma_last_footer(text, start + 1, text.len() as int);
}

/// The short description begins the rest of its line, holds no line feed and
/// at least one character, and ends before a footer token where one begins
/// behind its first character.
pub proof fn lemma_short_description(text: Seq<char>)
    requires
        header_of(text) is Some,
    ensures
        ({
            let start = header_of(text)->0.description_start;
            let end = description_end(text, start);
            &&& start < end <= first_index(text, start, '\n') <= text.len()
            &&& parsed_commit(text)->0.short_description == text.subrange(start, end)
            &&& forall|at: int| start <= at < end ==> text[at] != '\n'
            &&& (exists|at: int| start < at < text.len() && footer_at(text, at)) ==> exists|
                at: int,
            |
                end <= at < text.len() && footer_at(text, at)
            &&& end < first_index(text, start, '\n') ==> footer_at(text, end) && forall|at: int|
                end < at < text.len() ==> !footer_at(text, at)
        }),
{
    let header = header_of(text)->0;
    lemma_header_of(text, header);
    let start = header.description_start;
    lemma_first_index(text, start, '\n');
    lemma_last_footer(text, start + 1, text.len() as int);
    let end = description_end(text, start);
    match last_footer(text, start + 1, text.len() as int) {
        Some(footer) => {
            assert(footer_at(text, footer));
            assert(end <= footer);
        },
        None => {},
    }
}

/// Whether a commit is one that the convention can read in a message: its
/// change type is one of the three, its scope and its short description hold
/// at least one character and no line feed, and its scope no `)` but behind
/// a backslash and no backslash at its end.
pub open spec fn well_formed(commit: CommitView) -> bool {
    &&& commit.change_type == "feat"@ || commit.change_type == "fix"@ || commit.change_type
        == "BREAKING CHANGE"@
    &&& commit.scope matches Some(scope) ==> {
        &&& scope.len() > 0
        &&& scope.last() != '\\'
        &&& forall|at: int|
            #![trigger scope[at]]
            0 <= at < scope.len() ==> scope[at] != '\n' && (scope[at] == ')' ==> at > 0
                && scope[at - 1] == '\\')
    }
    &&& commit.short_description.len() > 0
    &&& forall|at: int|
        0 <= at < commit.short_description.len() ==> commit.short_description[at] != '\n'
}

/// What the convention reads in a message is well formed.
pub proof fn lemma_parsed_commit_well_formed(text: Seq<char>)
    requires
        parsed_commit(text) is Some,
    ensures
        well_formed(parsed_commit(text)->0),
{
    let header = header_of(text)->0;
    lemma_header_of(text, header);
    lemma_short_description(text);
}

/// What is said when a message does not follow the convention.
pub open spec fn parse_failure() -> Seq<char> {
    "could not parse string into conventional commit"@
}

/// A commit message that follows the convention.
#[derive(Debug)]
pub struct ConventionalCommit {
    change_type: String,
    scope: Option<String>,
    is_breaking: bool,
    short_description: String,
}

impl View for ConventionalCommit {
    type V = CommitView;

    closed spec fn view(&self) -> CommitView {
        CommitView {
            change_type: self.change_type@,
            scope: match self.scope {
                Some(scope) => Some(scope@),
                None => None,
            },
            is_breaking: self.is_breaking,
            short_description: self.short_description@,
        }
    }
}

impl ConventionalCommit {
    #[verifier::type_invariant]
    spec fn is_well_formed(&self) -> bool {
        well_formed(self@)
    }

}

/// The first position at or after `from` where a scope closes, or the length
/// of `text` where it closes nowhere.
fn find_close(text: &Vec<char>, from: usize) -> (r: usize)
    requires
        1 <= from <= text.len(),
    ensures
        r == first_close(text@, from as int),
        from <= r <= text.len(),
{
    let mut at: usize = from;
    while at < text.len() && !(text[at] == ')' && text[at - 1] != '\\')
        invariant
            1 <= from <= at <= text.len(),
            first_close(text@, from as int) == first_close(text@, at as int),
        decreases text.len() - at,
    {
        at += 1;
    }
    at
}

/// Reads the rest of a header from `at` on.
fn read_header_rest(text: &Vec<char>, at: usize) -> (r: Option<(bool, usize)>)
    requires
        at <= text.len(),
    ensures
        forall|type_end: int, scope: Option<(int, int)>|
            #![trigger header_rest(text@, type_end, scope, at as int)]
            match r {
                Some((marked, start)) => header_rest(text@, type_end, scope, at as int) == Some(
                    Header { type_end, scope, marked, description_start: start as int },
                ),
                None => header_rest(text@, type_end, scope, at as int) is None,
            },
        r matches Some((_, start)) ==> start < text.len(),
{
    let marked = at < text.len() && text[at] == '!';
    let colon = if marked {
        at + 1
    } else {
        at
    };
    let separator = to_chars(": ");
    if !holds_at(text, colon, &separator) {
        return None;
    }
    let start = colon + separator.len();
    if start < text.len() && text[start] != '\n' {
        Some((marked, start))
    } else {
        None
    }
}

/// Reads the header of a message.
fn read_header(text: &Vec<char>) -> (r: Option<(usize, Option<(usize, usize)>, bool, usize)>)
    ensures
        match r {
            Some((type_end, scope, marked, start)) => {
                &&& header_of(text@) == Some(
                    Header {
                        type_end: type_end as int,
                        scope: match scope {
                            Some((first, close)) => Some((first as int, close as int)),
                            None => None,
                        },
                        marked,
                        description_start: start as int,
                    },
                )
                &&& type_end <= start < text.len()
                &&& scope matches Some((first, close)) ==> type_end < first <= close < start
            },
            None => header_of(text@) is None,
        },
{
    let feat = to_chars("feat");
    let fix = to_chars("fix");
    let breaking = to_chars("BREAKING CHANGE");
    let type_end = if holds_at(text, 0, &feat) {
        feat.len()
    } else if holds_at(text, 0, &fix) {
        fix.len()
    } else if holds_at(text, 0, &breaking) {
        breaking.len()
    } else {
        return None;
    };
    if type_end < text.len() && text[type_end] == '(' {
        let first = type_end + 1;
        let close = find_close(text, first);
        let line_end = find_from(text, first, '\n');
        if first < close && close < line_end {
            match read_header_rest(text, close + 1) {
                Some((marked, start)) => Some((type_end, Some((first, close)), marked, start)),
                None => None,
            }
        } else {
            None
        }
    } else {
        match read_header_rest(text, type_end) {
            Some((marked, start)) => Some((type_end, None, marked, start)),
            None => None,
        }
    }
}

/// Finds the last footer token that begins at or after `from`.
fn find_last_footer(text: &Vec<char>, from: usize) -> (r: Option<usize>)
    ensures
        match r {
            Some(at) => last_footer(text@, from as int, text.len() as int) == Some(at as int)
                && from <= at < text.len(),
            None => last_footer(text@, from as int, text.len() as int) is None,
        },
{
    let hyphened = to_chars("BREAKING-CHANGE: ");
    let spaced = to_chars("BREAKING CHANGE: ");
    let mut end = text.len();
    while end > from
        invariant
            end <= text.len(),
            hyphened@ == "BREAKING-CHANGE: "@,
            spaced@ == "BREAKING CHANGE: "@,
            last_footer(text@, from as int, text.len() as int) == last_footer(
                text@,
                from as int,
                end as int,
            ),
        decreases end,
    {
        end -= 1;
        if holds_at(text, end, &hyphened) || holds_at(text, end, &spaced) {
            return Some(end);
        }
    }
    None
}

impl ConventionalCommit {
    /// Reads a message as a Conventional Commit.
    ///
    /// Succeeds exactly on the messages that follow the convention, with
    /// what [`parsed_commit`] reads in them.
    pub fn from_str(s: &str) -> (r: Result<ConventionalCommit, String>)
        ensures
            match parsed_commit(s@) {
                Some(commit) => r matches Ok(read) && read@ == commit,
                None => r matches Err(said) && said@ == parse_failure(),
            },
    {
        let text = to_chars(s);
        match read_header(&text) {
            None => Err(String::from_str("could not parse string into conventional commit")),
            Some((type_end, scope, marked, start)) => {
                let footer = find_last_footer(&text, start + 1);
                let line_end = find_from(&text, start, '\n');
                let end = match footer {
                    Some(at) => if at < line_end {
                        at
                    } else {
                        line_end
                    },
                    None => line_end,
                };
                proof {
                    lemma_parsed_commit_well_formed(text@);
                }
                let scope_text = match scope {
                    Some((first, close)) => Some(s.substring_char(first, close).to_owned()),
                    None => None,
                };
                Ok(
                    ConventionalCommit {
                        change_type: s.substring_char(0, type_end).to_owned(),
                        scope: scope_text,
                        is_breaking: marked || footer.is_some(),
                        short_description: s.substring_char(start, end).to_owned(),
                    },
                )
            },
        }
    }

    /// The change type: `feat`, `fix` or `BREAKING CHANGE`.
    pub fn change_type(&self) -> (r: &str)
        ensures
            r@ == self@.change_type,
            well_formed(self@),
    {
        proof {
            use_type_invariant(self);
        }
        self.change_type.as_str()
    }

    /// The scope, without its parentheses.
    pub fn scope(&self) -> (r: Option<&str>)
        ensures
            match r {
                Some(scope) => self@.scope == Some(scope@),
                None => self@.scope is None,
            },
            well_formed(self@),
    {
        proof {
            use_type_invariant(self);
        }
        match &self.scope {
            Some(scope) => Some(scope.as_str()),
            None => None,
        }
    }

    /// Whether the commit breaks compatibility: by its marker or by a footer.
    pub fn is_breaking(&self) -> (r: bool)
        ensures
            r == self@.is_breaking,
    {
        self.is_breaking
    }

    /// The short description.
    pub fn short_description(&self) -> (r: &str)
        ensures
            r@ == self@.short_description,
            well_formed(self@),
    {
        proof {
            use_type_invariant(self);
        }
        self.short_description.as_str()
    }
}

impl std::str::FromStr for ConventionalCommit {
    type Err = String;

    /// Reads a message as a Conventional Commit, as
    /// [`ConventionalCommit::from_str`] does.
    fn from_str(s: &str) -> (r: Result<ConventionalCommit, String>)
        ensures
            match parsed_commit(s@) {
                Some(commit) => r matches Ok(read) && read@ == commit,
                None => r matches Err(said) && said@ == parse_failure(),
            },
    {
        ConventionalCommit::from_str(s)
    }
}

/// The increment level that a message asks for.
///
/// `NONE` where the message does not follow the convention; `MAJOR` where
/// the commit is breaking, whatever its change type; else `PATCH` for a
/// `fix`, `MINOR` for a `feat` and `NONE` for any other change type.
pub fn semantic_increment(message: &str) -> (r: Increment)
    ensures
        r == increment_for(message@),
{
    match ConventionalCommit::from_str(message) {
        Ok(commit) => {
            if commit.is_breaking() {
                Increment::MAJOR
            } else if same_text(commit.change_type(), "fix") {
                Increment::PATCH
            } else if same_text(commit.change_type(), "feat") {
                Increment::MINOR
            } else {
                Increment::NONE
            }
        },
        Err(_) => Increment::NONE,
    }
}

/// Whether a message of `messages` asks for `level`.
pub open spec fn asks_for(messages: Seq<Seq<char>>, level: Increment) -> bool {
    exists|at: int| 0 <= at < messages.len() && #[trigger] increment_for(messages[at]) == level
}

/// The highest level that any of `messages` asks for: `MAJOR` if one of them
/// asks for it, else `MINOR` if one asks for that, else `PATCH` if one asks
/// for that, else `NONE`.
pub open spec fn max_increment(messages: Seq<Seq<char>>) -> Increment {
    if asks_for(messages, Increment::MAJOR) {
        Increment::MAJOR
    } else if asks_for(messages, Increment::MINOR) {
        Increment::MINOR
    } else if asks_for(messages, Increment::PATCH) {
        Increment::PATCH
    } else {
        Increment::NONE
    }
}

/// The highest level is the maximum of what the messages ask for: no message
/// asks for more, and unless it is `NONE` some message asks for it. Without
/// a message it is `NONE`.
pub proof fn lemma_max_increment_is_maximum(messages: Seq<Seq<char>>)
    ensures
        forall|at: int|
            0 <= at < messages.len() ==> (#[trigger] increment_for(messages[at])).spec_rank()
                <= max_increment(messages).spec_rank(),
        max_increment(messages) != Increment::NONE ==> asks_for(
            messages,
            max_increment(messages),
        ),
        messages.len() == 0 ==> max_increment(messages) == Increment::NONE,
{
    assert forall|at: int| 0 <= at < messages.len() implies (#[trigger] increment_for(
        messages[at],
    )).spec_rank() <= max_increment(messages).spec_rank() by {
        assert(asks_for(messages, increment_for(messages[at])));
    }
}

/// One message that asks for `MAJOR` decides, wherever it stands.
pub proof fn lemma_major_dominates(messages: Seq<Seq<char>>, at: int)
    requires
        0 <= at < messages.len(),
        increment_for(messages[at]) == Increment::MAJOR,
    ensures
        max_increment(messages) == Increment::MAJOR,
{
}

/// The order of the messages has no part in the highest level.
pub proof fn lemma_max_increment_any_order(first: Seq<Seq<char>>, second: Seq<Seq<char>>)
    requires
        first.to_multiset() == second.to_multiset(),
    ensures
        max_increment(first) == max_increment(second),
{
    broadcast use vstd::seq_lib::group_to_multiset_ensures;

    assert forall|level: Increment| asks_for(first, level) == asks_for(second, level) by {
        if asks_for(first, level) {
            let at = choose|at: int|
                0 <= at < first.len() && #[trigger] increment_for(first[at]) == level;
            assert(first.contains(first[at]));
            assert(second.to_multiset().count(first[at]) > 0);
            assert(second.contains(first[at]));
            let other = choose|other: int| 0 <= other < second.len() && second[other] == first[at];
            assert(increment_for(second[other]) == level);
        }
        if asks_for(second, level) {
            let at = choose|at: int|
                0 <= at < second.len() && #[trigger] increment_for(second[at]) == level;
            assert(second.contains(second[at]));
            assert(first.to_multiset().count(second[at]) > 0);
            assert(first.contains(second[at]));
            let other = choose|other: int| 0 <= other < first.len() && first[other] == second[at];
            assert(increment_for(first[other]) == level);
        }
    }
}

/// With one more message the highest level is the larger of what it was and
/// what that message asks for.
pub proof fn lemma_max_increment_push(messages: Seq<Seq<char>>, message: Seq<char>)
    ensures
        max_increment(messages.push(message)) == max_increment(messages).spec_max(
            increment_for(message),
        ),
{
    let longer = messages.push(message);
    assert(increment_for(longer[messages.len() as int]) == increment_for(message));
    assert forall|level: Increment|
        asks_for(longer, level) == (asks_for(messages, level) || increment_for(message)
            == level) by {
        if asks_for(messages, level) {
            let at = choose|at: int|
                0 <= at < messages.len() && #[trigger] increment_for(messages[at]) == level;
            assert(increment_for(longer[at]) == level);
        }
        if asks_for(longer, level) {
            let at = choose|at: int|
                0 <= at < longer.len() && #[trigger] increment_for(longer[at]) == level;
            if at < messages.len() {
                assert(increment_for(messages[at]) == level);
            }
        }
    }
}

/// The highest increment level that any of the messages asks for; `NONE`
/// where there is no message.
pub fn max_semantic_increment(messages: Vec<&str>) -> (r: Increment)
    ensures
        r == max_increment(messages@.map_values(|message: &str| message@)),
{
    let ghost texts = messages@.map_values(|message: &str| message@);
    let mut highest = Increment::NONE;
    let mut at: usize = 0;
    while at < messages.len()
        invariant
            at <= messages.len(),
            texts == messages@.map_values(|message: &str| message@),
            highest == max_increment(texts.take(at as int)),
        decreases messages.len() - at,
    {
        proof {
            assert(texts.take(at + 1) =~= texts.take(at as int).push(messages[at as int]@));
            lemma_max_increment_push(texts.take(at as int), messages[at as int]@);
        }
        highest = highest.max(semantic_increment(messages[at]));
        at += 1;
    }
    proof {
        assert(texts.take(at as int) =~= texts);
    }
    highest
}

} // verus!
