use std::str::FromStr;
use tc::cli::GroupBy;
use tc::cli::SortBy;

#[test]
fn group_by_from_str() {
    assert_eq!(GroupBy::Language, GroupBy::from_str("language").unwrap());
    assert_eq!(GroupBy::File, GroupBy::from_str("file").unwrap());
    assert_eq!(GroupBy::Arg, GroupBy::from_str("arg").unwrap());
}

#[test]
fn sort_by_from_str() {
    assert_eq!(SortBy::Group, SortBy::from_str("group").unwrap());
    assert_eq!(SortBy::NumFiles, SortBy::from_str("numfiles").unwrap());
    assert_eq!(SortBy::Tokens, SortBy::from_str("tokens").unwrap());
}

#[test]
fn sort_by_rejects_unknown_key() {
    let err = SortBy::from_str("size");
    assert!(err.is_err());
    let msg = match err {
        Err(m) => m,
        Ok(_) => panic!("an unknown sort key must be rejected"),
    };
    assert_eq!(
        msg,
        "\"size\" is not a supported argument to --sort-by. Use one of group|numfiles|tokens"
    );
}

#[test]
fn group_by_rejects_unknown_key() {
    let err = GroupBy::from_str("directory");
    assert!(err.is_err());
    let msg = match err {
        Err(m) => m,
        Ok(_) => panic!("an unknown grouping must be rejected"),
    };
    assert_eq!(
        msg,
        "\"directory\" is not a supported argument to --group-by. Use one of language|file"
    );
}
