use tak::conventional_commits::{max_semantic_increment, semantic_increment, ConventionalCommit};
use tak::increment::Increment;

fn check(message: &str, want: Increment) {
    let increment = semantic_increment(message);
    assert_eq!(
        increment, want,
        "The increment for '{}' should be '{:?}'",
        message, want
    );
}

#[test]
fn fix_results_in_patch() {
    check("fix: description\n", Increment::PATCH);
}

#[test]
fn feat_results_in_minor() {
    check("feat: description\n", Increment::MINOR);
}

#[test]
fn exclamation_mark_results_in_major() {
    check("fix!: description\n", Increment::MAJOR);
}

#[test]
fn breaking_change_with_hyphen_in_footer_results_in_major() {
    check("fix: description\n\nBREAKING-CHANGE: ", Increment::MAJOR);
}

#[test]
fn breaking_change_without_hyphen_in_footer_results_in_major() {
    check("fix: description\n\nBREAKING CHANGE: ", Increment::MAJOR);
}

#[test]
fn breaking_change_in_footer_without_newline_results_in_major() {
    check("fix: description\nBREAKING-CHANGE: ", Increment::MAJOR);
}

#[test]
fn breaking_change_in_footer_after_body_results_in_major() {
    check(
        "fix: description\nsome body\n\nonce told me\n\n\n\nBREAKING-CHANGE: ",
        Increment::MAJOR,
    );
}

#[test]
fn missing_space_causes_none() {
    check("fix:", Increment::NONE);
}

#[test]
fn footer_after_a_body_with_blank_lines_is_found() {
    check(
        "fix: description\nbody\n\nmore body\n\nBREAKING-CHANGE: ",
        Increment::MAJOR,
    );
}

#[test]
fn breaking_change_as_a_type_asks_for_nothing_by_itself() {
    check("BREAKING CHANGE: description\n", Increment::NONE);
    check("BREAKING CHANGE(api): description", Increment::NONE);
    check("BREAKING CHANGE!: description", Increment::MAJOR);
    check("BREAKING CHANGE: description\n\nBREAKING CHANGE: gone", Increment::MAJOR);
}

#[test]
fn other_types_ask_for_nothing() {
    check("chore: tidy up", Increment::NONE);
    check("docs: explain", Increment::NONE);
    check("chore!: tidy up", Increment::NONE);
    check("chore: tidy up\n\nBREAKING CHANGE: all of it", Increment::NONE);
    check("", Increment::NONE);
    check("f", Increment::NONE);
    check("fi", Increment::NONE);
    check("fix", Increment::NONE);
    check("Fix: upper case", Increment::NONE);
    check("FEAT: upper case", Increment::NONE);
    check(" fix: not at the start", Increment::NONE);
    check("\nfix: not at the start", Increment::NONE);
}

#[test]
fn the_separator_is_a_colon_and_a_space() {
    check("fix:description", Increment::NONE);
    check("fix :description", Increment::NONE);
    check("fix : description", Increment::NONE);
    check("feat:", Increment::NONE);
    check("feat:\tdescription", Increment::NONE);
    check("fix: d", Increment::PATCH);
    check("feat: d", Increment::MINOR);
}

#[test]
fn the_description_takes_a_character_of_its_line() {
    check("fix: ", Increment::NONE);
    check("fix: \n", Increment::NONE);
    check("fix: \ndescription", Increment::NONE);
    check("fix: \n\nBREAKING CHANGE: late", Increment::NONE);
    check("fix:  ", Increment::PATCH);
    check("fix: \r\n", Increment::PATCH);
    check("feat: \u{e9}", Increment::MINOR);
}

#[test]
fn the_scope_is_read() {
    check("fix(parser): description", Increment::PATCH);
    check("feat(parser): description", Increment::MINOR);
    check("feat(parser)!: description", Increment::MAJOR);
    check("feat(a b, c/d): description", Increment::MINOR);
    check("feat(\u{fc}ber): description", Increment::MINOR);
    check("feat((): description", Increment::MINOR);
}

#[test]
fn a_scope_that_is_not_closed_well_is_refused() {
    check("feat(): description", Increment::NONE);
    check("feat(parser: description", Increment::NONE);
    check("feat(parser) : description", Increment::NONE);
    check("feat(parser)x: description", Increment::NONE);
    check("feat(par\nser): description", Increment::NONE);
    check("feat(a)b): description", Increment::NONE);
    check("feat(a)(b): description", Increment::NONE);
    check("feat(", Increment::NONE);
    check("feat()", Increment::NONE);
    check("feat(a)", Increment::NONE);
    check("feat(a)!", Increment::NONE);
    check("feat(a)!:", Increment::NONE);
    check("feat(a)!: ", Increment::NONE);
}

#[test]
fn a_parenthesis_behind_a_backslash_is_part_of_the_scope() {
    check("feat(a\\)b): description", Increment::MINOR);
    check("fix(a\\))!: description", Increment::MAJOR);
    check("fix(\\)\\)x): description", Increment::PATCH);
    check("feat(a\\)b: description", Increment::NONE);
    check("feat(\\): description", Increment::NONE);
    check("feat(a\\): description", Increment::NONE);
    check("feat(a\\\\): description", Increment::NONE);
    check("feat(a\\\\)): description", Increment::MINOR);
    check("feat(a\\b): description", Increment::MINOR);
    check("feat(a\\)\nb): description", Increment::NONE);

    let commit = ConventionalCommit::from_str("feat(a\\)b): description").unwrap();
    assert_eq!(commit.scope(), Some("a\\)b"));
    assert_eq!(commit.short_description(), "description");
    let commit = ConventionalCommit::from_str("feat(a): b): c").unwrap();
    assert_eq!(commit.scope(), Some("a"));
    assert_eq!(commit.short_description(), "b): c");
}

#[test]
fn the_marker_stands_before_the_separator() {
    check("fix!: d", Increment::MAJOR);
    check("feat!: d", Increment::MAJOR);
    check("fix!!: d", Increment::NONE);
    check("fix!(scope): d", Increment::NONE);
    check("fix! : d", Increment::NONE);
    check("fix: !d", Increment::PATCH);
}

#[test]
fn a_footer_counts_behind_the_first_character_of_the_description() {
    check("fix: BREAKING CHANGE: x", Increment::PATCH);
    check("fix: BREAKING-CHANGE: x", Increment::PATCH);
    check("fix: xBREAKING CHANGE: y", Increment::MAJOR);
    check("fix: x BREAKING-CHANGE: y", Increment::MAJOR);
    check("feat: BREAKING CHANGE: BREAKING CHANGE: y", Increment::MAJOR);
    check("feat: d\n:BREAKING-CHANGE: y", Increment::MAJOR);
}

#[test]
fn a_footer_needs_its_colon_and_space() {
    check("fix: d\n\nBREAKING CHANGE:", Increment::PATCH);
    check("fix: d\n\nBREAKING CHANGE:x", Increment::PATCH);
    check("fix: d\n\nBREAKING-CHANGE", Increment::PATCH);
    check("fix: d\n\nBREAKING_CHANGE: x", Increment::PATCH);
    check("fix: d\n\nbreaking change: x", Increment::PATCH);
    check("fix: d\n\nBREAKING  CHANGE: x", Increment::PATCH);
    check("feat: d\n\nBREAKING CHANGE: ", Increment::MAJOR);
    check("feat: d\n\nsee BREAKING-CHANGE: in the middle of a line", Increment::MAJOR);
}

#[test]
fn a_message_that_follows_the_convention_is_read() {
    let commit = ConventionalCommit::from_str("feat(parser)!: read scopes\n\nbody\n").unwrap();
    assert_eq!(commit.change_type(), "feat");
    assert_eq!(commit.scope(), Some("parser"));
    assert!(commit.is_breaking());
    assert_eq!(commit.short_description(), "read scopes");

    let commit = ConventionalCommit::from_str("fix: one line").unwrap();
    assert_eq!(commit.change_type(), "fix");
    assert_eq!(commit.scope(), None);
    assert!(!commit.is_breaking());
    assert_eq!(commit.short_description(), "one line");

    let commit = ConventionalCommit::from_str("BREAKING CHANGE: all new").unwrap();
    assert_eq!(commit.change_type(), "BREAKING CHANGE");
    assert!(!commit.is_breaking());
    assert_eq!(commit.short_description(), "all new");
}

#[test]
fn the_description_leaves_room_for_the_footer() {
    let commit = ConventionalCommit::from_str("fix: drop it BREAKING CHANGE: gone").unwrap();
    assert!(commit.is_breaking());
    assert_eq!(commit.short_description(), "drop it ");

    let commit =
        ConventionalCommit::from_str("fix: a BREAKING CHANGE: b BREAKING-CHANGE: c").unwrap();
    assert!(commit.is_breaking());
    assert_eq!(commit.short_description(), "a BREAKING CHANGE: b ");

    let commit =
        ConventionalCommit::from_str("fix: a BREAKING CHANGE: b\n\nBREAKING-CHANGE: c").unwrap();
    assert!(commit.is_breaking());
    assert_eq!(commit.short_description(), "a BREAKING CHANGE: b");

    let commit = ConventionalCommit::from_str("fix: BREAKING CHANGE: b").unwrap();
    assert!(!commit.is_breaking());
    assert_eq!(commit.short_description(), "BREAKING CHANGE: b");

    let commit = ConventionalCommit::from_str("fix: \u{e9}t\u{e9}\n\u{fc}ber").unwrap();
    assert_eq!(commit.short_description(), "\u{e9}t\u{e9}");
}

#[test]
fn a_message_that_does_not_follow_the_convention_is_refused() {
    let refused = ConventionalCommit::from_str("fix:");
    assert_eq!(
        refused.err(),
        Some(String::from("could not parse string into conventional commit"))
    );
    assert!(ConventionalCommit::from_str("Initial commit.").is_err());
    assert!(ConventionalCommit::from_str("").is_err());
}

#[test]
fn no_message_asks_for_nothing() {
    assert_eq!(max_semantic_increment(vec![]), Increment::NONE);
}

#[test]
fn the_highest_level_of_the_messages_is_taken() {
    assert_eq!(
        max_semantic_increment(vec!["chore: x", "feat: y", "fix: z"]),
        Increment::MINOR
    );
    assert_eq!(
        max_semantic_increment(vec!["fix: z", "chore: x"]),
        Increment::PATCH
    );
    assert_eq!(
        max_semantic_increment(vec!["chore: x", "Initial commit."]),
        Increment::NONE
    );
    assert_eq!(max_semantic_increment(vec!["feat: y"]), Increment::MINOR);
}

#[test]
fn one_major_dominates_wherever_it_stands() {
    let major = "fix!: z";
    assert_eq!(
        max_semantic_increment(vec![major, "feat: y", "fix: z", "chore: x"]),
        Increment::MAJOR
    );
    assert_eq!(
        max_semantic_increment(vec!["feat: y", major, "fix: z", "chore: x"]),
        Increment::MAJOR
    );
    assert_eq!(
        max_semantic_increment(vec!["feat: y", "fix: z", "chore: x", major]),
        Increment::MAJOR
    );
}

#[test]
fn the_levels_are_ordered_by_rank() {
    let levels = [
        Increment::NONE,
        Increment::PATCH,
        Increment::MINOR,
        Increment::MAJOR,
    ];
    for (i, low) in levels.into_iter().enumerate() {
        assert_eq!(low.rank() as usize, i);
        assert!(low <= low && low >= low && !(low < low));
        for high in levels.into_iter().skip(i) {
            assert_eq!(Increment::max(low, high), high);
            assert_eq!(Increment::max(high, low), high);
            assert_eq!(low < high, low != high);
            assert!(low <= high);
            assert!(!(high < low));
            assert_eq!(low.partial_cmp(&high), Some(low.rank().cmp(&high.rank())));
            assert_eq!(low.cmp(&high), low.rank().cmp(&high.rank()));
        }
    }
    assert!(Increment::NONE < Increment::PATCH);
    assert!(Increment::PATCH < Increment::MINOR);
    assert!(Increment::MINOR < Increment::MAJOR);
}

/// The increment that a regular expression for the header line and a search
/// for the footer give; the description's first character is not searched.
fn by_pattern(header: &regex::Regex, footer: &regex::Regex, message: &str) -> Increment {
    match header.captures(message) {
        None => Increment::NONE,
        Some(found) => {
            let rest = &message[found.get(0).unwrap().end()..];
            if found.get(3).is_some() || footer.is_match(rest) {
                Increment::MAJOR
            } else {
                match found.get(1).unwrap().as_str() {
                    "fix" => Increment::PATCH,
                    "feat" => Increment::MINOR,
                    _ => Increment::NONE,
                }
            }
        }
    }
}

#[test]
fn the_classifier_agrees_with_the_pattern() {
    let types = ["feat", "fix", "BREAKING CHANGE", "chore", "fea", "fixx", ""];
    let scopes = [
        "", "(a)", "()", "(a b)", "(a", "(a)b)", "(a\nb)", "(\u{e9})", "(a\\)b)", "(\\)", "(a\\)",
        "(a\\\\))", "(\\a)", "(a\\\n))",
    ];
    let markers = ["", "!", "!!", " "];
    let separators = [": ", ":", " : ", ""];
    let rests = [
        "",
        "d",
        "\n",
        "d\n",
        "d\n\nBREAKING CHANGE: x",
        "BREAKING CHANGE: x",
        "d BREAKING-CHANGE: x",
        "d\nbody\n\nBREAKING-CHANGE:",
        "\u{e9}\n\nBREAKING-CHANGE: \u{fc}",
    ];
    let header = regex::Regex::new(
        r"^(feat|fix|BREAKING CHANGE)(?:\(((?:[^)\n\\]|\\+[^\n\\])+)\))?(!)?: ([^\n])",
    )
    .unwrap();
    let footer = regex::Regex::new(r"BREAKING[- ]CHANGE: ").unwrap();
    let mut seen = 0;
    for t in types {
        for s in scopes {
            for m in markers {
                for p in separators {
                    for r in rests {
                        let message = format!("{}{}{}{}{}", t, s, m, p, r);
                        assert_eq!(
                            semantic_increment(&message),
                            by_pattern(&header, &footer, &message),
                            "for {:?}",
                            message
                        );
                        seen += 1;
                    }
                }
            }
        }
    }
    assert_eq!(seen, 7 * 14 * 4 * 4 * 9);
}

#[test]
fn a_message_is_parsed_as_a_string_is() {
    let commit: ConventionalCommit = "feat(cli): add a flag".parse().unwrap();
    assert_eq!(commit.change_type(), "feat");
    assert_eq!(commit.scope(), Some("cli"));
    assert_eq!(commit.short_description(), "add a flag");
    let refused: Result<ConventionalCommit, String> = "add a flag".parse();
    assert_eq!(
        refused.err(),
        Some(String::from("could not parse string into conventional commit"))
    );
}
