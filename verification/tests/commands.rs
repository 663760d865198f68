use tak::cmd::increment::{range_needed, validate_increment_arg, IncrementArg};
use tak::cmd::{increment, next};
use tak::cmd::next::NextOpts;
use tak::error::Error;
use tak::git::SemanticRepository;

fn names(tags: &[&str]) -> Vec<Option<String>> {
    tags.iter().map(|tag| Some(String::from(*tag))).collect()
}

fn written(result: Option<Result<String, Error>>) -> String {
    match result {
        Some(Ok(line)) => line,
        Some(Err(error)) => panic!("it failed: {}", error.to_string()),
        None => panic!("the next version does not fit"),
    }
}

#[test]
fn major_works() {
    let arg = String::from("major");
    let result = validate_increment_arg(arg);
    assert!(result.is_ok());
}

#[test]
fn minor_works() {
    let arg = String::from("minor");
    let result = validate_increment_arg(arg);
    assert!(result.is_ok());
}

#[test]
fn patch_works() {
    let arg = String::from("patch");
    let result = validate_increment_arg(arg);
    assert!(result.is_ok());
}

#[test]
fn auto_works() {
    let arg = String::from("auto");
    let result = validate_increment_arg(arg);
    assert!(result.is_ok());
}

#[test]
fn bogus_does_not_work() {
    let arg = String::from("bogus");
    let result = validate_increment_arg(arg);
    assert!(result.is_err());
}

#[test]
fn a_choice_is_read_from_its_word() {
    assert_eq!(IncrementArg::try_from("patch"), Ok(IncrementArg::PATCH));
    assert_eq!(IncrementArg::try_from("minor"), Ok(IncrementArg::MINOR));
    assert_eq!(IncrementArg::try_from("major"), Ok(IncrementArg::MAJOR));
    assert_eq!(IncrementArg::try_from("auto"), Ok(IncrementArg::AUTO));
    for word in ["", "none", "Patch", "MAJOR", "auto ", " auto", "automatic", "majo"] {
        assert_eq!(
            IncrementArg::try_from(word),
            Err(String::from(
                "increment should be one of [patch, minor, major, auto]"
            )),
            "for {:?}",
            word
        );
        assert_eq!(
            validate_increment_arg(String::from(word)),
            Err(String::from(
                "increment should be one of [patch, minor, major, auto]"
            ))
        );
    }
}

#[test]
fn test_increment() {
    // Only consider SemVer versions
    let tags = names(&["1.0.0", "1.1", "2"]);
    let none = vec![Some(String::from("Initial commit."))];

    assert_eq!(
        written(increment::exec(IncrementArg::PATCH, tags.clone(), &none)),
        "1.0.1"
    );
    assert_eq!(
        written(increment::exec(IncrementArg::MINOR, tags.clone(), &none)),
        "1.1.0"
    );
    assert_eq!(
        written(increment::exec(IncrementArg::MAJOR, tags.clone(), &none)),
        "2.0.0"
    );

    // Check auto increment
    let since = vec![Some(String::from("feat: some feature"))];
    assert_eq!(
        written(increment::exec(IncrementArg::AUTO, tags, &since)),
        "1.1.0"
    );
}

#[test]
fn test_next_no_prefix() {
    let tags = names(&["1.0.0", "1.1", "2"]);
    let since = vec![Some(String::from("feat: some feature"))];

    let opts = NextOpts::new(IncrementArg::PATCH, true);
    assert_eq!(written(next::exec(&opts, tags.clone(), &since)), "1.0.1");

    let opts = NextOpts::new(IncrementArg::MINOR, true);
    assert_eq!(written(next::exec(&opts, tags.clone(), &since)), "1.1.0");

    let opts = NextOpts::new(IncrementArg::MAJOR, true);
    assert_eq!(written(next::exec(&opts, tags.clone(), &since)), "2.0.0");

    let opts = NextOpts::new(IncrementArg::AUTO, true);
    assert_eq!(written(next::exec(&opts, tags, &since)), "1.1.0");
}

#[test]
fn test_next_prefix() {
    let tags = names(&["v1.0.0", "v1.1", "v2"]);
    let since = vec![Some(String::from("feat: some feature"))];

    let opts = NextOpts::default();
    assert_eq!(opts, NextOpts::new(IncrementArg::AUTO, false));
    assert_eq!(written(next::exec(&opts, tags, &since)), "v1.1.0");
}

#[test]
fn the_prefix_is_v_or_nothing() {
    assert_eq!(NextOpts::new(IncrementArg::AUTO, false).prefix(), "v");
    assert_eq!(NextOpts::new(IncrementArg::AUTO, true).prefix(), "");
}

#[test]
fn an_explicit_choice_does_not_look_at_the_commits() {
    let tags = names(&["v1.0.0"]);
    let breaking = vec![Some(String::from("feat!: all new"))];
    let opts = NextOpts::new(IncrementArg::PATCH, false);
    assert_eq!(written(next::exec(&opts, tags.clone(), &breaking)), "v1.0.1");
    assert_eq!(written(next::exec(&opts, tags.clone(), &vec![])), "v1.0.1");
    let opts = NextOpts::new(IncrementArg::MAJOR, false);
    assert_eq!(written(next::exec(&opts, tags, &vec![])), "v2.0.0");
}

#[test]
fn without_a_version_tag_every_choice_fails() {
    let since = vec![Some(String::from("feat: some feature"))];
    for arg in [
        IncrementArg::PATCH,
        IncrementArg::MINOR,
        IncrementArg::MAJOR,
        IncrementArg::AUTO,
    ] {
        assert_eq!(
            increment::exec(arg, vec![], &since),
            Some(Err(Error::NoTagFound))
        );
        assert_eq!(
            next::exec(&NextOpts::new(arg, false), names(&["1.0.0"]), &since),
            Some(Err(Error::NoTagFound))
        );
        assert_eq!(
            next::exec(&NextOpts::new(arg, true), names(&["v1.0.0"]), &since),
            Some(Err(Error::NoTagFound))
        );
    }
}

#[test]
fn commits_that_ask_for_nothing_fail_the_automatic_choice() {
    let tags = names(&["v1.0.0"]);
    let since = vec![Some(String::from("Initial commit.")), None];
    assert_eq!(
        next::exec(&NextOpts::default(), tags.clone(), &since),
        Some(Err(Error::NoVersionChange))
    );
    assert_eq!(
        next::exec(&NextOpts::default(), tags, &vec![]),
        Some(Err(Error::NoVersionChange))
    );
}

#[test]
fn a_version_that_does_not_fit_is_not_written() {
    let tags = names(&["18446744073709551615.0.0"]);
    assert_eq!(increment::exec(IncrementArg::MAJOR, tags.clone(), &vec![]), None);
    assert_eq!(
        increment::exec(IncrementArg::MINOR, tags.clone(), &vec![]),
        Some(Ok(String::from("18446744073709551615.1.0")))
    );
    let breaking = vec![Some(String::from("feat!: all new"))];
    assert_eq!(increment::exec(IncrementArg::AUTO, tags.clone(), &breaking), None);
    assert_eq!(
        next::exec(&NextOpts::new(IncrementArg::AUTO, true), tags, &breaking),
        None
    );
}

#[test]
fn only_the_automatic_choice_needs_the_commits() {
    let repository = SemanticRepository::open_with_prefix("v", names(&["v1.0.0", "v0.9.0"]));
    assert_eq!(
        range_needed(&repository, IncrementArg::AUTO),
        Some(String::from("v1.0.0..HEAD"))
    );
    assert_eq!(range_needed(&repository, IncrementArg::PATCH), None);
    assert_eq!(range_needed(&repository, IncrementArg::MINOR), None);
    assert_eq!(range_needed(&repository, IncrementArg::MAJOR), None);
    let empty = SemanticRepository::open(vec![]);
    assert_eq!(range_needed(&empty, IncrementArg::AUTO), None);
}

#[test]
fn each_failure_has_its_line() {
    assert_eq!(Error::NoTagFound.to_string(), "No valid tag found");
    assert_eq!(Error::NoVersionChange.to_string(), "No change in version");
    assert_eq!(
        Error::Git(String::from("could not find repository")).to_string(),
        "Git: could not find repository"
    );
    assert_eq!(
        Error::Io(String::from("broken pipe")).to_string(),
        "IO: broken pipe"
    );
    assert_eq!(Error::Git(String::new()).to_string(), "Git: ");
}
