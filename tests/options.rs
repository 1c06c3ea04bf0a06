use deposito::options::{CliOption, CliOptionError};

#[test]
fn short_and_long_names() {
    let o = CliOption::parse("-h").unwrap();
    assert_eq!(o.name, "h");
    assert!(o.value.is_none());
    let o = CliOption::parse("--help").unwrap();
    assert_eq!(o.name, "help");
    assert!(o.value.is_none());
}

#[test]
fn value_after_equals() {
    let o = CliOption::parse("--name=Egg").unwrap();
    assert_eq!(o.name, "name");
    assert_eq!(o.value.as_deref(), Some("Egg"));
    let o = CliOption::parse("-q=6").unwrap();
    assert_eq!(o.name, "q");
    assert_eq!(o.value.as_deref(), Some("6"));
    let o = CliOption::parse("--d=a=b").unwrap();
    assert_eq!(o.name, "d");
    assert_eq!(o.value.as_deref(), Some("a=b"));
    let o = CliOption::parse("--name=").unwrap();
    assert_eq!(o.value.as_deref(), Some(""));
}

#[test]
fn equals_among_hyphens_gives_empty_name() {
    let o = CliOption::parse("-=x").unwrap();
    assert_eq!(o.name, "");
    assert_eq!(o.value.as_deref(), Some("x"));
    let o = CliOption::parse("=-x").unwrap();
    assert_eq!(o.name, "");
    assert_eq!(o.value.as_deref(), Some("-x"));
}

#[test]
fn too_short_and_missing_hyphen() {
    assert_eq!(CliOption::parse("").unwrap_err(), CliOptionError::TooShort);
    assert_eq!(CliOption::parse("-").unwrap_err(), CliOptionError::TooShort);
    assert_eq!(CliOption::parse("ab").unwrap_err(), CliOptionError::MustStartWithHyphen);
    assert_eq!(CliOption::parse("é").unwrap_err(), CliOptionError::MustStartWithHyphen);
    assert_eq!(CliOption::parse("€x").unwrap_err(), CliOptionError::TooShort);
    assert_eq!(CliOption::parse("-é").unwrap_err(), CliOptionError::TooShort);
}

#[test]
fn hyphen_in_second_place_counts() {
    let o = CliOption::parse("a-b").unwrap();
    assert_eq!(o.name, "-b");
}

#[test]
fn try_from_string() {
    let o = CliOption::try_from("--all".to_string()).unwrap();
    assert_eq!(o.name, "all");
    assert!(CliOption::try_from("x".to_string()).is_err());
    let d = CliOption::default();
    assert_eq!(d.name, "");
    assert!(d.value.is_none());
}
