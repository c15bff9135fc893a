use whitman::descriptions::{escape_description, parse_descriptions_file, parse_quoted_description, DescriptionsFileError, QuotedError};
use whitman::names::{DescriptionError, NameError};

fn error_of(text: &str) -> DescriptionsFileError {
    match parse_descriptions_file(text) {
        Err(e) => e,
        Ok(_) => panic!("accepted {text:?}"),
    }
}

#[test]
fn parses_comments_blank_lines_and_entries() {
    let table = parse_descriptions_file("# profiles\n\n  work = \"Work projects\"  \r\nhome=\"Home\"").unwrap();
    assert_eq!(table.len(), 2);
    assert_eq!(table.entry(0).name, "home");
    assert_eq!(table.entry(1).name, "work");
    assert_eq!(table.entry(1).description, "Work projects");
    assert_eq!(table.render(), "home = \"Home\"\nwork = \"Work projects\"\n");
}

#[test]
fn reports_each_error_with_its_line() {
    assert!(matches!(error_of("\nwork"), DescriptionsFileError::MissingSeparator(2)));
    assert_eq!(error_of("\nwork").message(), "line 2 must be formatted as name = \"description\"");
    assert!(matches!(error_of("bad name = \"x\""), DescriptionsFileError::InvalidName(1, NameError::InvalidCharacters)));
    assert_eq!(
        error_of("a = \"x\"\n = \"y\"").message(),
        "invalid profile name on line 2: profile name cannot be empty"
    );
    assert!(matches!(error_of("work = x"), DescriptionsFileError::InvalidDescription(1, QuotedError::NotQuoted)));
    assert_eq!(
        error_of("work = \"a\\qb\"").message(),
        "invalid description on line 1: unsupported escape sequence \\q"
    );
    assert!(matches!(error_of("work = \"a\\\""), DescriptionsFileError::InvalidDescription(1, QuotedError::UnfinishedEscape)));
    assert!(matches!(error_of("work = \"  \""), DescriptionsFileError::Description(DescriptionError::Empty)));
    assert!(matches!(error_of("work = \"a\\nb\""), DescriptionsFileError::Description(DescriptionError::MultipleLines)));
    assert_eq!(
        error_of("work = \"A\"\nwork = \"B\"").message(),
        "duplicate profile description for work"
    );
}

#[test]
fn counts_lines_past_ten() {
    let mut text = String::new();
    for _ in 0..11 {
        text.push('\n');
    }
    text.push_str("oops");
    assert_eq!(error_of(&text).message(), "line 12 must be formatted as name = \"description\"");
}

#[test]
fn resolves_escapes_in_quoted_descriptions() {
    assert_eq!(parse_quoted_description("\"a\\\"b\\\\c\\nd\\re\\tf\"").unwrap(), "a\"b\\c\nd\re\tf");
    assert_eq!(parse_quoted_description("\"\"").unwrap(), "");
    assert_eq!(parse_quoted_description("\"").unwrap_err(), QuotedError::NotQuoted);
    assert_eq!(parse_quoted_description("x\"").unwrap_err(), QuotedError::NotQuoted);
    assert_eq!(parse_quoted_description("\"x").unwrap_err(), QuotedError::NotQuoted);
    assert_eq!(parse_quoted_description("\"x\\\"").unwrap_err(), QuotedError::UnfinishedEscape);
    assert_eq!(parse_quoted_description("\"\\x\"").unwrap_err(), QuotedError::UnsupportedEscape('x'));
    assert_eq!(QuotedError::UnfinishedEscape.message(), "description cannot end with an unfinished escape");
}

#[test]
fn escapes_backslashes_and_quotes() {
    assert_eq!(escape_description("say \"hi\" \\o/"), "say \\\"hi\\\" \\\\o/");
    assert_eq!(escape_description("plain"), "plain");
    let plain = "mixed \\\" end";
    let quoted = format!("\"{}\"", escape_description(plain));
    assert_eq!(parse_quoted_description(&quoted).unwrap(), plain);
}
