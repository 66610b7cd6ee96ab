use release_notifier::get_latest_changelog_entry;
use release_notifier::NoHeaderFound;

#[test]
fn test_multi_entry_changelog() {
    let changelog_content = "\
# Changelog
All notable changes to this project will be documented in this file.

The format is based on [Keep a Changelog](http://keepachangelog.com/en/1.0.0/)
and this project adheres to [Semantic Versioning](http://semver.org/spec/v2.0.0.html).

## [1.2.26] - 2022-06-24
- Many bugfixes
- Much more stable. Use this version.

## [1.0.0] - 2022-06-16
- Major breaking changes.
- Much better now.
- Many new features.

## [0.1.0] - 2022-06-15
- Initial release.";

    let expected = "\
## [1.2.26] - 2022-06-24
- Many bugfixes
- Much more stable. Use this version.

";
    let result = get_latest_changelog_entry(&changelog_content);

    assert_eq!(expected, result.unwrap());
}

#[test]
fn test_single_entry_changelog() {
    let changelog_content = "\
# Changelog
All notable changes to this project will be documented in this file.

The format is based on [Keep a Changelog](http://keepachangelog.com/en/1.0.0/)
and this project adheres to [Semantic Versioning](http://semver.org/spec/v2.0.0.html).

## [0.1.0] - 2022-06-25
- Initial release.

End of File";

    let expected = "\
## [0.1.0] - 2022-06-25
- Initial release.

End of File";
    let result = get_latest_changelog_entry(&changelog_content);

    assert_eq!(expected, result.unwrap());
}

#[test]
#[should_panic]
fn test_invalid_format_changelog() {
    let changelog_content = "\
# Changelog

This project will fail to parse this changelog since it doesn't contain
a valid header for each version.

- 0.1.7:
    - Minor changes and bugfixes.

- 0.0.1:
    - Initial release.
";

    get_latest_changelog_entry(&changelog_content).unwrap();
}

#[test]
fn test_changelog_with_v_lowercase() {
    let changelog_content = "\
# Changelog
All notable changes to this project will be documented in this file.

The format is based on [Keep a Changelog](http://keepachangelog.com/en/1.0.0/)
and this project adheres to [Semantic Versioning](http://semver.org/spec/v2.0.0.html).

## [v1.2.26] - 2022-06-24
- Many bugfixes
- Much more stable. Use this version.

## [v1.0.0] - 2022-06-16
- Major breaking changes.
- Much better now.
- Many new features.

## [v0.1.0] - 2022-06-15
- Initial release.";

    let expected = "\
## [v1.2.26] - 2022-06-24
- Many bugfixes
- Much more stable. Use this version.

";
    let result = get_latest_changelog_entry(&changelog_content);

    assert_eq!(expected, result.unwrap());
}

#[test]
fn test_changelog_with_v_uppercase() {
    let changelog_content = "\
# Changelog
All notable changes to this project will be documented in this file.

The format is based on [Keep a Changelog](http://keepachangelog.com/en/1.0.0/)
and this project adheres to [Semantic Versioning](http://semver.org/spec/v2.0.0.html).

## [V1.2.26] - 2022-06-24
- Many bugfixes
- Much more stable. Use this version.

## [V1.0.0] - 2022-06-16
- Major breaking changes.
- Much better now.
- Many new features.

## [V0.1.0] - 2022-06-15
- Initial release.";

    let expected = "\
## [V1.2.26] - 2022-06-24
- Many bugfixes
- Much more stable. Use this version.

";
    let result = get_latest_changelog_entry(&changelog_content);

    assert_eq!(expected, result.unwrap());
}

#[test]
fn test_empty_input_fails() {
    let result = get_latest_changelog_entry("");
    assert_eq!(result, Err(NoHeaderFound));
}

#[test]
fn test_header_at_very_end() {
    let changelog_content = "Intro text.\n## [2.0.1] - 2023-01-02";
    let result = get_latest_changelog_entry(changelog_content);
    assert_eq!(result.unwrap(), "## [2.0.1] - 2023-01-02");
}

#[test]
fn test_extraction_is_idempotent() {
    let changelog_content = "\
## [1.1.0] - 2022-07-01
- A change.

## [1.0.0] - 2022-06-01
- First.";
    let first = get_latest_changelog_entry(changelog_content).unwrap();
    let second = get_latest_changelog_entry(changelog_content).unwrap();
    assert_eq!(first, second);
}

#[test]
fn test_multi_digit_version_components() {
    let changelog_content = "\
## [10.22.333] - 1999-12-31
- Old style.

## [9.0.0] - 1999-01-01
- Older.";
    let expected = "\
## [10.22.333] - 1999-12-31
- Old style.

";
    assert_eq!(expected, get_latest_changelog_entry(changelog_content).unwrap());
}

#[test]
fn test_literals_are_case_and_space_sensitive() {
    // Missing the space before the dash: not a header.
    assert!(get_latest_changelog_entry("## [1.2.3] -2022-06-24\n- x").is_err());
    // Parentheses instead of brackets: not a header.
    assert!(get_latest_changelog_entry("## (1.2.3) - 2022-06-24\n- x").is_err());
    // A single hash: not a header.
    assert!(get_latest_changelog_entry("# [1.2.3] - 2022-06-24\n- x").is_err());
    // Any other prefix letter than v or V: not a header.
    assert!(get_latest_changelog_entry("## [w1.2.3] - 2022-06-24\n- x").is_err());
    // A doubled prefix letter: not a header.
    assert!(get_latest_changelog_entry("## [vv1.2.3] - 2022-06-24\n- x").is_err());
}

#[test]
fn test_date_widths_are_fixed() {
    // Two-digit year: not a header.
    assert!(get_latest_changelog_entry("## [1.2.3] - 22-06-24\n- x").is_err());
    // One-digit month: not a header.
    assert!(get_latest_changelog_entry("## [1.2.3] - 2022-6-24\n- x").is_err());
    // Five-digit year: not a header.
    assert!(get_latest_changelog_entry("## [1.2.3] - 20221-06-24\n- x").is_err());
}

#[test]
fn test_version_needs_three_components() {
    assert!(get_latest_changelog_entry("## [1.2] - 2022-06-24\n- x").is_err());
    assert!(get_latest_changelog_entry("## [1.2.3.4] - 2022-06-24\n- x").is_err());
    assert!(get_latest_changelog_entry("## [1..3] - 2022-06-24\n- x").is_err());
}

#[test]
fn test_prefix_letter_output_matches_no_prefix_case() {
    let plain = get_latest_changelog_entry("## [1.2.3] - 2022-06-24\nBody").unwrap();
    let lower = get_latest_changelog_entry("## [v1.2.3] - 2022-06-24\nBody").unwrap();
    let upper = get_latest_changelog_entry("## [V1.2.3] - 2022-06-24\nBody").unwrap();
    assert_eq!(plain, "## [1.2.3] - 2022-06-24\nBody");
    assert_eq!(lower, "## [v1.2.3] - 2022-06-24\nBody");
    assert_eq!(upper, "## [V1.2.3] - 2022-06-24\nBody");
}

#[test]
fn test_error_message_names_the_format() {
    let err = get_latest_changelog_entry("just prose").unwrap_err();
    assert_eq!(
        err.message(),
        "No valid changelog headers found. Is the changelog in a supported format?"
    );
}
