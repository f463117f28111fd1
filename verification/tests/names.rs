use tmsu::entities::{validate_tag_name, validate_value_name};
use tmsu::errors::{Error, NameFault, NameKind};

#[test]
fn test_validate_tag_name() {
    // "Normal" cases
    assert!(validate_tag_name("abc").is_ok());
    assert!(validate_tag_name("name='(1 or 2) lt 3'").is_ok());

    // Empty string
    assert!(validate_tag_name("").is_err());

    // Dots
    assert!(validate_tag_name(".").is_err());
    assert!(validate_tag_name("..").is_err());
    assert!(validate_tag_name("...").is_ok());
    assert!(validate_tag_name(".. ..").is_ok());

    // Logical and comparison operators: case matters
    assert!(validate_tag_name("and").is_err());
    assert!(validate_tag_name("AND").is_err());
    assert!(validate_tag_name("AnD").is_ok());
    assert!(validate_tag_name(" and ").is_ok());

    // Special characters and Unicode
    assert!(validate_tag_name(" \t\n\r ").is_ok());
    assert!(validate_tag_name("éüßżć").is_ok());
    assert!(validate_tag_name("今日は!").is_ok());
    assert!(validate_tag_name("control \u{0003}har").is_err());
}

#[test]
fn test_validate_value_name() {
    // "Normal" cases
    assert!(validate_value_name("abc").is_ok());
    assert!(validate_value_name("name='(1 or 2) lt 3'").is_ok());

    // Empty string
    assert!(validate_value_name("").is_err());

    // Dots
    assert!(validate_value_name(".").is_err());
    assert!(validate_value_name("..").is_err());
    assert!(validate_value_name("...").is_ok());
    assert!(validate_value_name(".. ..").is_ok());

    // Logical and comparison operators: case matters
    assert!(validate_value_name("and").is_err());
    assert!(validate_value_name("AND").is_err());
    assert!(validate_value_name("AnD").is_ok());
    assert!(validate_value_name(" and ").is_ok());

    // Special characters and Unicode
    assert!(validate_value_name(" \t\n\r ").is_ok());
    assert!(validate_value_name("éüßżć").is_ok());
    assert!(validate_value_name("今日は!").is_ok());
    assert!(validate_value_name("control \u{0003}har").is_err());
}

#[test]
fn name_faults_are_told_apart() {
    assert_eq!(
        validate_tag_name(""),
        Err(Error::InvalidName(NameKind::Tag, NameFault::Empty))
    );
    assert_eq!(
        validate_value_name(".."),
        Err(Error::InvalidName(NameKind::Value, NameFault::Dots))
    );
    assert_eq!(
        validate_tag_name("NOT"),
        Err(Error::InvalidName(NameKind::Tag, NameFault::LogicalOperator))
    );
    assert_eq!(
        validate_value_name("ge"),
        Err(Error::InvalidName(
            NameKind::Value,
            NameFault::ComparisonOperator
        ))
    );
    assert_eq!(
        validate_tag_name("control\u{0001}har"),
        Err(Error::InvalidName(
            NameKind::Tag,
            NameFault::Forbidden("\u{0001}".to_string())
        ))
    );
}

#[test]
fn validation_gives_the_same_verdict_each_time() {
    for name in ["", ".", "and", "AnD", "x\u{0007}y", "plain"] {
        let first = validate_tag_name(name);
        let second = validate_tag_name(name);
        assert_eq!(first, second);
        assert_eq!(first.is_ok(), validate_value_name(name).is_ok());
    }
}
